//! One resumable, idempotent extraction step: segment one source input's
//! samples and encode the runs, or skip the input when the ledger already
//! lists it.

use vstd::prelude::*;
use crate::codec::{
    MAX_RECORD_COORDS, record_bytes, encoded_run_coords, encode_run, decode_spec, RunRec,
};
use crate::ledger::{Ledger, ledger_listed};
use crate::sample::{Sample, all_in_bounds, stream_sorted};
use crate::segmenter::{Run, RunV, SegmentEnv, seg_runs_view, segment_stream, segment_stream_spec};

verus! {

/// The bytes written for a list of runs: one record per run, in order.
pub open spec fn runs_records_bytes(runs: Seq<RunV>, max: int) -> Seq<u8>
    decreases runs.len(),
{
    if runs.len() == 0 {
        Seq::empty()
    } else {
        record_bytes(runs[0].sprite_id, encoded_run_coords(runs[0].coords, max))
            + runs_records_bytes(runs.skip(1), max)
    }
}

/// The records a run list is encoded to, as the decoder sees them.
pub open spec fn runs_records(runs: Seq<RunV>, max: int) -> Seq<RunRec> {
    runs.map_values(
        |r: RunV| RunRec { sprite_id: r.sprite_id, coords: encoded_run_coords(r.coords, max) },
    )
}

/// Encoding a run list gives a stream that decodes to exactly those records.
pub proof fn lemma_runs_records_decode(runs: Seq<RunV>, max: int)
    requires
        0 <= max <= MAX_RECORD_COORDS,
    ensures
        decode_spec(runs_records_bytes(runs, max)) == Some(runs_records(runs, max)),
    decreases runs.len(),
{
    if runs.len() == 0 {
        assert(runs_records(runs, max) =~= Seq::<RunRec>::empty());
    } else {
        lemma_runs_records_decode(runs.skip(1), max);
        let cs = encoded_run_coords(runs[0].coords, max);
        assert(cs.len() <= max);
        crate::codec::lemma_decode_one_record(
            runs[0].sprite_id,
            cs,
            runs_records_bytes(runs.skip(1), max),
            runs_records(runs.skip(1), max),
        );
        assert(seq![RunRec { sprite_id: runs[0].sprite_id, coords: cs }] + runs_records(
            runs.skip(1),
            max,
        ) =~= runs_records(runs, max));
    }
}

pub proof fn lemma_runs_records_bytes_push(runs: Seq<RunV>, r: RunV, max: int)
    ensures
        runs_records_bytes(runs.push(r), max) == runs_records_bytes(runs, max) + record_bytes(
            r.sprite_id,
            encoded_run_coords(r.coords, max),
        ),
    decreases runs.len(),
{
    let rec = record_bytes(r.sprite_id, encoded_run_coords(r.coords, max));
    if runs.len() == 0 {
        assert(runs.push(r)[0] == r);
        assert(runs.push(r).skip(1) =~= Seq::<RunV>::empty());
        assert(runs_records_bytes(runs.push(r), max) == rec + runs_records_bytes(
            Seq::<RunV>::empty(),
            max,
        ));
        assert(rec + Seq::<u8>::empty() =~= Seq::<u8>::empty() + rec);
    } else {
        lemma_runs_records_bytes_push(runs.skip(1), r, max);
        assert(runs.push(r).skip(1) =~= runs.skip(1).push(r));
        assert(runs.push(r)[0] == runs[0]);
        let head = record_bytes(runs[0].sprite_id, encoded_run_coords(runs[0].coords, max));
        assert(runs_records_bytes(runs.push(r), max) == head + runs_records_bytes(
            runs.skip(1).push(r),
            max,
        ));
        assert(head + (runs_records_bytes(runs.skip(1), max) + rec) =~= (head
            + runs_records_bytes(runs.skip(1), max)) + rec);
    }
}

/// Encode every run into one byte stream, records in run order.
pub fn encode_runs(runs: &Vec<Run>, max_coords: usize) -> (r: Vec<u8>)
    requires
        max_coords <= MAX_RECORD_COORDS,
    ensures
        r@ == runs_records_bytes(seg_runs_view(runs@), max_coords as int),
{
    let mut out: Vec<u8> = Vec::new();
    let mut i: usize = 0;
    proof {
        assert(out@ =~= runs_records_bytes(seg_runs_view(runs@).take(0), max_coords as int));
    }
    while i < runs.len()
        invariant
            i <= runs@.len(),
            max_coords <= MAX_RECORD_COORDS,
            out@ == runs_records_bytes(seg_runs_view(runs@).take(i as int), max_coords as int),
        decreases runs@.len() - i,
    {
        let mut rec = encode_run(runs[i].sprite_id, &runs[i].coords, max_coords);
        let ghost pre = out@;
        let ghost rec_bytes = rec@;
        out.append(&mut rec);
        proof {
            let views = seg_runs_view(runs@);
            assert(views[i as int] == runs@[i as int]@);
            lemma_runs_records_bytes_push(views.take(i as int), views[i as int], max_coords as int);
            assert(views.take(i as int).push(views[i as int]) =~= views.take(i as int + 1));
        }
        i += 1;
    }
    proof {
        assert(seg_runs_view(runs@).take(runs@.len() as int) =~= seg_runs_view(runs@));
    }
    out
}

/// Process one source input, idempotently at input granularity: an input
/// already listed in the ledger contributes no records and leaves the ledger
/// unchanged; a fresh input is segmented, its runs encoded in order, and its
/// identifier recorded. The caller writes and flushes the returned records
/// before persisting the ledger entry.
pub fn process_input(
    env: &SegmentEnv,
    max_coords: usize,
    ledger: &mut Ledger,
    input_id: &Vec<u8>,
    samples: &Vec<Sample>,
) -> (out: Option<Vec<u8>>)
    requires
        env.wf(),
        max_coords <= MAX_RECORD_COORDS,
        all_in_bounds(samples@),
        stream_sorted(samples@),
    ensures
        ledger_listed(old(ledger)@, input_id@) ==> out is None && final(ledger)@ == old(ledger)@,
        !ledger_listed(old(ledger)@, input_id@) ==> {
            &&& out is Some
            &&& out->0@ == runs_records_bytes(
                segment_stream_spec(*env, samples@),
                max_coords as int,
            )
            &&& final(ledger)@ == old(ledger)@.push(input_id@)
        },
{
    if ledger.contains(input_id) {
        return None;
    }
    let runs = segment_stream(env, samples);
    let bytes = encode_runs(&runs, max_coords);
    let mut id_copy: Vec<u8> = Vec::new();
    let mut i: usize = 0;
    while i < input_id.len()
        invariant
            i <= input_id@.len(),
            id_copy@ == input_id@.take(i as int),
        decreases input_id@.len() - i,
    {
        id_copy.push(input_id[i]);
        proof {
            assert(input_id@.take(i + 1) =~= input_id@.take(i as int).push(input_id@[i as int]));
        }
        i += 1;
    }
    proof {
        assert(id_copy@ =~= input_id@);
    }
    ledger.record(id_copy);
    Some(bytes)
}

} // verus!
