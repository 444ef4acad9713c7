//! The compact run record format: `[sprite_id][count: u16 LE][count x 3-byte
//! coordinate]`, with full decoding and a metadata-only scan over the same
//! byte stream.

use vstd::prelude::*;
use crate::coords::{Coord, CompactCoordinate, compact_of_spec, compact_of};

verus! {

/// A record's coordinate count must fit the two-byte count field.
pub const MAX_RECORD_COORDS: usize = 0xFFFF;

/// One run as reconstructed by a full decode.
pub struct DecodedRun {
    pub sprite_id: u8,
    pub coords: Vec<CompactCoordinate>,
}

/// Mathematical image of a decoded run.
#[verifier::ext_equal]
pub struct RunRec {
    pub sprite_id: u8,
    pub coords: Seq<CompactCoordinate>,
}

impl View for DecodedRun {
    type V = RunRec;

    open spec fn view(&self) -> RunRec {
        RunRec { sprite_id: self.sprite_id, coords: self.coords@ }
    }
}

pub open spec fn runs_view(rs: Seq<DecodedRun>) -> Seq<RunRec> {
    rs.map_values(|r: DecodedRun| r@)
}

/// Location of one run inside the encoded stream: its sprite id, its
/// coordinate count, and the byte offset of its coordinate payload relative
/// to the start of the decoded stream.
#[derive(Debug, Clone, Copy, PartialEq, Eq, Structural)]
pub struct RunMetadata {
    pub sprite_id: u8,
    pub coord_count: usize,
    pub payload_offset: usize,
}

/// Decoding fails only on a record cut short; a clean end of the stream at a
/// record boundary is not an error.
#[derive(Debug, Clone, Copy, PartialEq, Eq, Structural)]
pub enum CodecError {
    TruncatedRecord,
}

/// The three bytes of one compact coordinate.
pub open spec fn coord_bytes(c: CompactCoordinate) -> Seq<u8> {
    seq![c.x, c.y, c.region]
}

/// The coordinate payload of a record: three bytes per coordinate, in order.
pub open spec fn coords_bytes(cs: Seq<CompactCoordinate>) -> Seq<u8>
    decreases cs.len(),
{
    if cs.len() == 0 {
        Seq::empty()
    } else {
        coord_bytes(cs[0]) + coords_bytes(cs.skip(1))
    }
}

/// One whole record: sprite id, little-endian two-byte coordinate count,
/// then the coordinate payload. Meaningful for counts up to 0xFFFF.
pub open spec fn record_bytes(sprite_id: u8, cs: Seq<CompactCoordinate>) -> Seq<u8> {
    seq![sprite_id, (cs.len() % 256) as u8, ((cs.len() as int / 256) % 256) as u8]
        + coords_bytes(cs)
}

/// The coordinate sequence a run is encoded with: capped at `max` entries,
/// each packed into its compact form.
pub open spec fn encoded_run_coords(coords: Seq<Coord>, max: int) -> Seq<CompactCoordinate> {
    coords.take(min_int(coords.len() as int, max)).map_values(|c: Coord| compact_of_spec(c))
}

pub open spec fn min_int(a: int, b: int) -> int {
    if a <= b {
        a
    } else {
        b
    }
}

/// The first `n` coordinates read from the front of `bytes`.
pub open spec fn parse_coords(bytes: Seq<u8>, n: int) -> Seq<CompactCoordinate>
    decreases n,
{
    if n <= 0 {
        Seq::empty()
    } else {
        seq![CompactCoordinate { x: bytes[0], y: bytes[1], region: bytes[2] }]
            + parse_coords(bytes.skip(3), n - 1)
    }
}

/// The whole stream decoded as a sequence of records, or `None` where a
/// record is cut short. The empty stream decodes to no records.
pub open spec fn decode_spec(bytes: Seq<u8>) -> Option<Seq<RunRec>>
    decreases bytes.len(),
{
    if bytes.len() == 0 {
        Some(Seq::empty())
    } else if bytes.len() < 3 {
        None
    } else {
        let n = bytes[1] as int + 256 * (bytes[2] as int);
        if bytes.len() < 3 + 3 * n {
            None
        } else {
            match decode_spec(bytes.skip(3 + 3 * n)) {
                Some(rest) => Some(
                    seq![RunRec { sprite_id: bytes[0], coords: parse_coords(bytes.skip(3), n) }]
                        + rest,
                ),
                None => None,
            }
        }
    }
}

pub proof fn lemma_coords_bytes_len(cs: Seq<CompactCoordinate>)
    ensures
        coords_bytes(cs).len() == 3 * cs.len(),
    decreases cs.len(),
{
    if cs.len() > 0 {
        lemma_coords_bytes_len(cs.skip(1));
    }
}

pub proof fn lemma_coords_bytes_index(cs: Seq<CompactCoordinate>, i: int)
    requires
        0 <= i < cs.len(),
    ensures
        coords_bytes(cs).len() == 3 * cs.len(),
        coords_bytes(cs)[3 * i] == cs[i].x,
        coords_bytes(cs)[3 * i + 1] == cs[i].y,
        coords_bytes(cs)[3 * i + 2] == cs[i].region,
    decreases i,
{
    lemma_coords_bytes_len(cs);
    lemma_coords_bytes_len(cs.skip(1));
    if i > 0 {
        lemma_coords_bytes_index(cs.skip(1), i - 1);
    }
}

/// Appending one coordinate appends its three bytes.
pub proof fn lemma_coords_bytes_push(cs: Seq<CompactCoordinate>, c: CompactCoordinate)
    ensures
        coords_bytes(cs.push(c)) == coords_bytes(cs) + coord_bytes(c),
    decreases cs.len(),
{
    if cs.len() == 0 {
        assert(cs.push(c)[0] == c);
        assert(cs.push(c).skip(1) =~= Seq::<CompactCoordinate>::empty());
        assert(coords_bytes(cs.push(c)) == coord_bytes(c) + coords_bytes(
            Seq::<CompactCoordinate>::empty(),
        ));
        assert(coord_bytes(c) + Seq::<u8>::empty() =~= Seq::<u8>::empty() + coord_bytes(c));
    } else {
        lemma_coords_bytes_push(cs.skip(1), c);
        assert(cs.push(c).skip(1) =~= cs.skip(1).push(c));
        assert(cs.push(c)[0] == cs[0]);
        assert(coords_bytes(cs.push(c)) == coord_bytes(cs[0]) + coords_bytes(cs.skip(1).push(c)));
        assert(coord_bytes(cs[0]) + (coords_bytes(cs.skip(1)) + coord_bytes(c)) =~= (coord_bytes(
            cs[0],
        ) + coords_bytes(cs.skip(1))) + coord_bytes(c));
    }
}

pub proof fn lemma_parse_coords_len(bytes: Seq<u8>, n: int)
    requires
        n >= 0,
    ensures
        parse_coords(bytes, n).len() == n,
    decreases n,
{
    if n > 0 {
        lemma_parse_coords_len(bytes.skip(3), n - 1);
    }
}

pub proof fn lemma_parse_coords_index(bytes: Seq<u8>, n: int, i: int)
    requires
        0 <= i < n,
        bytes.len() >= 3 * n,
    ensures
        parse_coords(bytes, n).len() == n,
        parse_coords(bytes, n)[i] == (CompactCoordinate {
            x: bytes[3 * i],
            y: bytes[3 * i + 1],
            region: bytes[3 * i + 2],
        }),
    decreases i,
{
    lemma_parse_coords_len(bytes, n);
    if i > 0 {
        lemma_parse_coords_index(bytes.skip(3), n - 1, i - 1);
    }
}

/// Parsing reads only the first `3 * n` bytes, so an added tail changes
/// nothing.
pub proof fn lemma_parse_coords_prefix(s: Seq<u8>, t: Seq<u8>, n: int)
    requires
        n >= 0,
        s.len() >= 3 * n,
        t.len() >= 3 * n,
        forall|i: int| 0 <= i < 3 * n ==> s[i] == t[i],
    ensures
        parse_coords(s, n) == parse_coords(t, n),
    decreases n,
{
    if n > 0 {
        lemma_parse_coords_prefix(s.skip(3), t.skip(3), n - 1);
        assert(parse_coords(s, n) =~= parse_coords(t, n));
    }
}

/// Reading back the payload written for `cs` gives `cs` again, whatever
/// follows it.
pub proof fn lemma_parse_of_coords_bytes(cs: Seq<CompactCoordinate>, tail: Seq<u8>)
    ensures
        parse_coords(coords_bytes(cs) + tail, cs.len() as int) == cs,
    decreases cs.len(),
{
    lemma_coords_bytes_len(cs);
    let s = coords_bytes(cs) + tail;
    let n = cs.len() as int;
    lemma_parse_coords_len(s, n);
    assert forall|i: int| 0 <= i < n implies parse_coords(s, n)[i] == cs[i] by {
        lemma_parse_coords_index(s, n, i);
        lemma_coords_bytes_index(cs, i);
    }
    assert(parse_coords(s, n) =~= cs);
}

/// Round trip for one record: decoding the bytes written for a run yields
/// exactly that run -- its sprite id, and its coordinate sequence capped at
/// `max` with out-of-range coordinates replaced by the sentinel.
pub proof fn lemma_record_round_trip(sprite_id: u8, coords: Seq<Coord>, max: int)
    requires
        0 <= max <= MAX_RECORD_COORDS,
    ensures
        decode_spec(record_bytes(sprite_id, encoded_run_coords(coords, max))) == Some(
            seq![RunRec { sprite_id, coords: encoded_run_coords(coords, max) }],
        ),
{
    let cs = encoded_run_coords(coords, max);
    assert(cs.len() <= max);
    lemma_decode_one_record(sprite_id, cs, Seq::empty(), Seq::empty());
    assert(record_bytes(sprite_id, cs) + Seq::<u8>::empty() =~= record_bytes(sprite_id, cs));
    assert(seq![RunRec { sprite_id, coords: cs }] + Seq::<RunRec>::empty() =~= seq![
        RunRec { sprite_id, coords: cs },
    ]);
}

/// Decoding a stream that starts with one well-formed record: the record is
/// read off the front and the rest decodes independently.
pub proof fn lemma_decode_one_record(
    sprite_id: u8,
    cs: Seq<CompactCoordinate>,
    tail: Seq<u8>,
    tail_runs: Seq<RunRec>,
)
    requires
        cs.len() <= MAX_RECORD_COORDS,
        decode_spec(tail) == Some(tail_runs),
    ensures
        decode_spec(record_bytes(sprite_id, cs) + tail) == Some(
            seq![RunRec { sprite_id, coords: cs }] + tail_runs,
        ),
{
    let bytes = record_bytes(sprite_id, cs) + tail;
    lemma_coords_bytes_len(cs);
    let n = cs.len() as int;
    assert(bytes[1] == (n % 256) as u8);
    assert(bytes[2] == ((n / 256) % 256) as u8);
    assert(bytes[1] as int + 256 * (bytes[2] as int) == n) by {
        assert(n == 256 * (n / 256) + n % 256) by (nonlinear_arith)
            requires n >= 0;
        assert((n / 256) % 256 == n / 256) by (nonlinear_arith)
            requires 0 <= n <= 0xFFFF;
    }
    assert(bytes.len() == 3 + 3 * n + tail.len());
    assert(bytes.skip(3 + 3 * n) =~= tail);
    assert(bytes.skip(3) =~= coords_bytes(cs) + tail);
    lemma_parse_of_coords_bytes(cs, tail);
    assert(decode_spec(bytes) == Some(seq![RunRec { sprite_id, coords: cs }] + tail_runs));
}

/// Appending one well-formed record to a stream that decodes cleanly appends
/// one run to its decoding.
pub proof fn lemma_decode_append(prefix: Seq<u8>, sprite_id: u8, cs: Seq<CompactCoordinate>)
    requires
        decode_spec(prefix) is Some,
        cs.len() <= MAX_RECORD_COORDS,
    ensures
        decode_spec(prefix + record_bytes(sprite_id, cs)) == Some(
            decode_spec(prefix)->0.push(RunRec { sprite_id, coords: cs }),
        ),
    decreases prefix.len(),
{
    let rec = record_bytes(sprite_id, cs);
    lemma_coords_bytes_len(cs);
    if prefix.len() == 0 {
        assert(prefix + rec =~= rec);
        lemma_decode_one_record(sprite_id, cs, Seq::empty(), Seq::empty());
        assert(rec + Seq::<u8>::empty() =~= rec);
        assert(seq![RunRec { sprite_id, coords: cs }] + Seq::<RunRec>::empty() =~= decode_spec(
            prefix,
        )->0.push(RunRec { sprite_id, coords: cs }));
    } else {
        let whole = prefix + rec;
        assert(prefix.len() >= 3);
        let n1 = prefix[1] as int + 256 * (prefix[2] as int);
        assert(prefix.len() >= 3 + 3 * n1);
        assert(whole[0] == prefix[0] && whole[1] == prefix[1] && whole[2] == prefix[2]);
        assert(whole.len() >= 3 + 3 * n1);
        lemma_parse_coords_prefix(whole.skip(3), prefix.skip(3), n1);
        assert(whole.skip(3 + 3 * n1) =~= prefix.skip(3 + 3 * n1) + rec);
        lemma_decode_append(prefix.skip(3 + 3 * n1), sprite_id, cs);
        let first = RunRec { sprite_id: prefix[0], coords: parse_coords(prefix.skip(3), n1) };
        let old_rest = decode_spec(prefix.skip(3 + 3 * n1))->0;
        let new_run = RunRec { sprite_id, coords: cs };
        assert(decode_spec(whole) == Some(seq![first] + old_rest.push(new_run)));
        assert(seq![first] + old_rest.push(new_run) =~= (seq![first] + old_rest).push(new_run));
    }
}

/// Encode one run: sprite id, the capped coordinate count as two
/// little-endian bytes, then each coordinate packed into three bytes.
/// Coordinates beyond `max_coords` are dropped from the tail.
pub fn encode_run(sprite_id: u8, coords: &Vec<Coord>, max_coords: usize) -> (r: Vec<u8>)
    requires
        max_coords <= MAX_RECORD_COORDS,
    ensures
        r@ == record_bytes(sprite_id, encoded_run_coords(coords@, max_coords as int)),
{
    let count: usize = if coords.len() <= max_coords {
        coords.len()
    } else {
        max_coords
    };
    let ghost cs = encoded_run_coords(coords@, max_coords as int);
    proof {
        assert(cs.len() == count);
    }
    let mut out: Vec<u8> = Vec::new();
    out.push(sprite_id);
    out.push((count % 256) as u8);
    out.push(((count / 256) % 256) as u8);
    let mut i: usize = 0;
    proof {
        assert(coords_bytes(cs.take(0)) =~= Seq::<u8>::empty());
        assert(out@ =~= record_bytes(sprite_id, cs).take(3) + coords_bytes(cs.take(0)));
    }
    while i < count
        invariant
            i <= count,
            count == cs.len(),
            count <= coords@.len(),
            count <= max_coords <= MAX_RECORD_COORDS,
            cs == encoded_run_coords(coords@, max_coords as int),
            out@ == record_bytes(sprite_id, cs).take(3) + coords_bytes(cs.take(i as int)),
        decreases count - i,
    {
        let c = compact_of(coords[i]);
        proof {
            assert(cs[i as int] == compact_of_spec(coords@[i as int]));
            assert(cs.take(i as int).push(cs[i as int]) =~= cs.take(i as int + 1));
            lemma_coords_bytes_push(cs.take(i as int), cs[i as int]);
        }
        out.push(c.x);
        out.push(c.y);
        out.push(c.region);
        i += 1;
    }
    proof {
        assert(cs.take(count as int) =~= cs);
        assert(record_bytes(sprite_id, cs).take(3) + coords_bytes(cs) =~= record_bytes(
            sprite_id,
            cs,
        ));
    }
    out
}

/// Decode the whole stream into fully materialized runs. Fails exactly where
/// a record is cut short; a clean end of the stream at a record boundary
/// ends the decode.
pub fn decode_all(bytes: &Vec<u8>) -> (r: Result<Vec<DecodedRun>, CodecError>)
    ensures
        match r {
            Ok(runs) => decode_spec(bytes@) == Some(runs_view(runs@)),
            Err(_) => decode_spec(bytes@) is None,
        },
{
    let len = bytes.len();
    let mut pos: usize = 0;
    let mut runs: Vec<DecodedRun> = Vec::new();
    proof {
        assert(bytes@.skip(0) =~= bytes@);
        assert(runs_view(runs@) =~= Seq::<RunRec>::empty());
    }
    while pos < len
        invariant
            pos <= len,
            len == bytes@.len(),
            forall|rest: Seq<RunRec>|
                decode_spec(bytes@.skip(pos as int)) == Some(rest) ==> decode_spec(bytes@)
                    == Some(runs_view(runs@) + rest),
            decode_spec(bytes@.skip(pos as int)) is None ==> decode_spec(bytes@) is None,
        decreases len - pos,
    {
        let ghost rem = bytes@.skip(pos as int);
        if len - pos < 3 {
            proof {
                assert(rem.len() == len - pos);
                assert(decode_spec(rem) is None);
            }
            return Err(CodecError::TruncatedRecord);
        }
        let sprite_id = bytes[pos];
        let count: usize = bytes[pos + 1] as usize + 256 * (bytes[pos + 2] as usize);
        proof {
            assert(rem[0] == bytes@[pos as int]);
            assert(rem[1] == bytes@[pos as int + 1]);
            assert(rem[2] == bytes@[pos as int + 2]);
        }
        if len - pos - 3 < 3 * count {
            proof {
                assert(rem.len() < 3 + 3 * count);
                assert(decode_spec(rem) is None);
            }
            return Err(CodecError::TruncatedRecord);
        }
        let mut cvec: Vec<CompactCoordinate> = Vec::new();
        let base = pos + 3;
        let mut j: usize = 0;
        while j < count
            invariant
                j <= count,
                base == pos + 3,
                pos + 3 + 3 * count <= len,
                len == bytes@.len(),
                cvec@.len() == j,
                forall|k: int| 0 <= k < j ==> #[trigger] cvec@[k] == (CompactCoordinate {
                    x: bytes@[base + 3 * k],
                    y: bytes@[base + 3 * k + 1],
                    region: bytes@[base + 3 * k + 2],
                }),
            decreases count - j,
        {
            let c = CompactCoordinate {
                x: bytes[base + 3 * j],
                y: bytes[base + 3 * j + 1],
                region: bytes[base + 3 * j + 2],
            };
            cvec.push(c);
            j += 1;
        }
        proof {
            let n = count as int;
            lemma_parse_coords_len(rem.skip(3), n);
            assert forall|k: int| 0 <= k < n implies parse_coords(rem.skip(3), n)[k]
                == cvec@[k] by {
                lemma_parse_coords_index(rem.skip(3), n, k);
                assert(rem.skip(3)[3 * k] == bytes@[pos + 3 + 3 * k]);
                assert(rem.skip(3)[3 * k + 1] == bytes@[pos + 3 + 3 * k + 1]);
                assert(rem.skip(3)[3 * k + 2] == bytes@[pos + 3 + 3 * k + 2]);
            }
            assert(parse_coords(rem.skip(3), n) =~= cvec@);
            assert(rem.skip(3 + 3 * n) =~= bytes@.skip(pos as int + 3 + 3 * n));
        }
        let rec = DecodedRun { sprite_id, coords: cvec };
        let ghost old_runs = runs@;
        runs.push(rec);
        proof {
            let n = count as int;
            assert(runs_view(runs@) =~= runs_view(old_runs).push(
                RunRec { sprite_id, coords: parse_coords(rem.skip(3), n) },
            ));
            assert forall|rest2: Seq<RunRec>|
                decode_spec(bytes@.skip(pos as int + 3 + 3 * n)) == Some(rest2)
                implies decode_spec(bytes@) == Some(runs_view(runs@) + rest2) by {
                let first = RunRec { sprite_id, coords: parse_coords(rem.skip(3), n) };
                assert(decode_spec(rem) == Some(seq![first] + rest2));
                assert(runs_view(old_runs) + (seq![first] + rest2) =~= runs_view(runs@) + rest2);
            }
        }
        pos = pos + 3 + 3 * count;
    }
    proof {
        assert(bytes@.skip(pos as int).len() == 0);
        assert(decode_spec(bytes@.skip(pos as int)) == Some(Seq::<RunRec>::empty()));
        assert(runs_view(runs@) + Seq::<RunRec>::empty() =~= runs_view(runs@));
    }
    Ok(runs)
}

/// Total encoded size, in bytes, of the records carrying `runs`: one
/// three-byte header and three bytes per coordinate each.
pub open spec fn records_size(runs: Seq<RunRec>) -> int
    decreases runs.len(),
{
    if runs.len() == 0 {
        0
    } else {
        3 + 3 * runs[0].coords.len() + records_size(runs.skip(1))
    }
}

pub proof fn lemma_records_size_push(runs: Seq<RunRec>, r: RunRec)
    ensures
        records_size(runs.push(r)) == records_size(runs) + 3 + 3 * r.coords.len(),
    decreases runs.len(),
{
    if runs.len() == 0 {
        assert(runs.push(r)[0] == r);
        assert(runs.push(r).skip(1) =~= Seq::<RunRec>::empty());
        assert(records_size(runs.push(r)) == 3 + 3 * r.coords.len() + records_size(
            Seq::<RunRec>::empty(),
        ));
    } else {
        assert(runs.push(r)[0] == runs[0]);
        assert(runs.push(r).skip(1) =~= runs.skip(1).push(r));
        lemma_records_size_push(runs.skip(1), r);
        assert(records_size(runs.push(r)) == 3 + 3 * runs[0].coords.len() + records_size(
            runs.skip(1).push(r),
        ));
    }
}

/// Payload offsets advance record by record: record k+1's payload begins
/// exactly one header and one payload past record k's, so the recorded
/// offsets are strictly increasing.
pub proof fn lemma_payload_offset_step(runs: Seq<RunRec>, k: int)
    requires
        0 <= k < runs.len(),
    ensures
        records_size(runs.take(k + 1)) == records_size(runs.take(k)) + 3 + 3
            * runs[k].coords.len(),
{
    assert(runs.take(k + 1) =~= runs.take(k).push(runs[k]));
    lemma_records_size_push(runs.take(k), runs[k]);
}

/// The metadata list that describes a decoded stream: entry k carries run
/// k's sprite id and coordinate count, and its payload offset is exactly one
/// header past the records before it, where the stream holds exactly that
/// run's coordinate bytes.
pub open spec fn metadata_matches(
    payload: Seq<u8>,
    runs: Seq<RunRec>,
    metas: Seq<RunMetadata>,
) -> bool {
    &&& metas.len() == runs.len()
    &&& forall|k: int| 0 <= k < runs.len() ==> {
        &&& (#[trigger] metas[k]).sprite_id == runs[k].sprite_id
        &&& metas[k].coord_count == runs[k].coords.len()
        &&& metas[k].payload_offset == records_size(runs.take(k)) + 3
        &&& metas[k].payload_offset + 3 * runs[k].coords.len() <= payload.len()
        &&& payload.subrange(
            metas[k].payload_offset as int,
            metas[k].payload_offset + 3 * runs[k].coords.len(),
        ) == coords_bytes(runs[k].coords)
    }
}

/// A stream's metadata is unique: any two metadata lists matching the same
/// decoded stream are equal. In particular a raw scan and a scan through a
/// compressed copy of the same logical stream record identical sprite ids,
/// coordinate counts and payload offsets.
pub proof fn lemma_metadata_unique(
    payload: Seq<u8>,
    runs: Seq<RunRec>,
    m1: Seq<RunMetadata>,
    m2: Seq<RunMetadata>,
)
    requires
        metadata_matches(payload, runs, m1),
        metadata_matches(payload, runs, m2),
    ensures
        m1 == m2,
{
    assert forall|k: int| 0 <= k < m1.len() implies m1[k] == m2[k] by {
        assert(m1[k].sprite_id == runs[k].sprite_id && m2[k].sprite_id == runs[k].sprite_id);
    }
    assert(m1 =~= m2);
}

/// Scan the stream reading only record headers: for each run, its sprite id,
/// its coordinate count, and the byte offset where its coordinate payload
/// begins. The scan succeeds exactly where a full decode would and records
/// the one metadata list that matches it.
pub fn scan_metadata(bytes: &Vec<u8>) -> (r: Result<Vec<RunMetadata>, CodecError>)
    ensures
        match r {
            Ok(metas) => decode_spec(bytes@) is Some && metadata_matches(
                bytes@,
                decode_spec(bytes@)->0,
                metas@,
            ),
            Err(_) => decode_spec(bytes@) is None,
        },
{
    let len = bytes.len();
    let mut pos: usize = 0;
    let mut metas: Vec<RunMetadata> = Vec::new();
    let ghost mut prefix_runs: Seq<RunRec> = Seq::empty();
    proof {
        assert(bytes@.skip(0) =~= bytes@);
    }
    while pos < len
        invariant
            pos <= len,
            len == bytes@.len(),
            forall|rest: Seq<RunRec>|
                decode_spec(bytes@.skip(pos as int)) == Some(rest) ==> decode_spec(bytes@)
                    == Some(prefix_runs + rest),
            decode_spec(bytes@.skip(pos as int)) is None ==> decode_spec(bytes@) is None,
            metas@.len() == prefix_runs.len(),
            pos == records_size(prefix_runs),
            forall|k: int| 0 <= k < prefix_runs.len() ==> {
                &&& (#[trigger] metas@[k]).sprite_id == prefix_runs[k].sprite_id
                &&& metas@[k].coord_count == prefix_runs[k].coords.len()
                &&& metas@[k].payload_offset == records_size(prefix_runs.take(k)) + 3
                &&& metas@[k].payload_offset + 3 * prefix_runs[k].coords.len() <= pos
                &&& bytes@.subrange(
                    metas@[k].payload_offset as int,
                    metas@[k].payload_offset + 3 * prefix_runs[k].coords.len(),
                ) == coords_bytes(prefix_runs[k].coords)
            },
        decreases len - pos,
    {
        let ghost rem = bytes@.skip(pos as int);
        if len - pos < 3 {
            proof {
                assert(decode_spec(rem) is None);
            }
            return Err(CodecError::TruncatedRecord);
        }
        let sprite_id = bytes[pos];
        let count: usize = bytes[pos + 1] as usize + 256 * (bytes[pos + 2] as usize);
        proof {
            assert(rem[0] == bytes@[pos as int]);
            assert(rem[1] == bytes@[pos as int + 1]);
            assert(rem[2] == bytes@[pos as int + 2]);
        }
        if len - pos - 3 < 3 * count {
            proof {
                assert(rem.len() < 3 + 3 * count);
                assert(decode_spec(rem) is None);
            }
            return Err(CodecError::TruncatedRecord);
        }
        let payload_offset = pos + 3;
        metas.push(RunMetadata { sprite_id, coord_count: count, payload_offset });
        proof {
            let n = count as int;
            let parsed = parse_coords(rem.skip(3), n);
            lemma_parse_coords_len(rem.skip(3), n);
            let first = RunRec { sprite_id, coords: parsed };
            lemma_coords_bytes_len(parsed);
            assert(bytes@.subrange(payload_offset as int, payload_offset + 3 * n)
                =~= coords_bytes(parsed)) by {
                assert forall|k: int| 0 <= k < 3 * n implies bytes@.subrange(
                    payload_offset as int,
                    payload_offset + 3 * n,
                )[k] == coords_bytes(parsed)[k] by {
                    let ci = k / 3;
                    let co = k % 3;
                    assert(k == 3 * ci + co && 0 <= ci < n && 0 <= co < 3) by (nonlinear_arith)
                        requires 0 <= k < 3 * n, ci == k / 3, co == k % 3;
                    lemma_coords_bytes_index(parsed, ci);
                    lemma_parse_coords_index(rem.skip(3), n, ci);
                    assert(rem.skip(3)[3 * ci] == bytes@[pos + 3 + 3 * ci]);
                    assert(rem.skip(3)[3 * ci + 1] == bytes@[pos + 3 + 3 * ci + 1]);
                    assert(rem.skip(3)[3 * ci + 2] == bytes@[pos + 3 + 3 * ci + 2]);
                }
            }
            assert(rem.skip(3 + 3 * n) =~= bytes@.skip(pos as int + 3 + 3 * n));
            let old_prefix = prefix_runs;
            prefix_runs = prefix_runs.push(first);
            lemma_records_size_push(old_prefix, first);
            assert(prefix_runs.take(old_prefix.len() as int) =~= old_prefix);
            assert forall|k: int| 0 <= k < old_prefix.len() implies prefix_runs.take(k)
                =~= old_prefix.take(k) by {}
            assert forall|rest2: Seq<RunRec>|
                decode_spec(bytes@.skip(pos as int + 3 + 3 * n)) == Some(rest2)
                implies decode_spec(bytes@) == Some(prefix_runs + rest2) by {
                assert(decode_spec(rem) == Some(seq![first] + rest2));
                assert(old_prefix + (seq![first] + rest2) =~= prefix_runs + rest2);
            }
        }
        pos = pos + 3 + 3 * count;
    }
    proof {
        assert(bytes@.skip(pos as int).len() == 0);
        assert(decode_spec(bytes@.skip(pos as int)) == Some(Seq::<RunRec>::empty()));
        assert(prefix_runs + Seq::<RunRec>::empty() =~= prefix_runs);
    }
    Ok(metas)
}

} // verus!
