//! Timestamped position samples as the segmenter consumes them, and the
//! pre-pass that drops malformed or out-of-order samples.

use vstd::prelude::*;
use crate::coords::Coord;
use crate::mapper::MAX_LOCAL_COORD;

verus! {

/// One observation of one agent: when, who (user and session), which sprite,
/// where, and its tie-break rank among samples sharing a timestamp.
#[derive(Debug, Clone, Copy, PartialEq, Eq, Structural)]
pub struct Sample {
    pub timestamp_ms: u64,
    pub user: u64,
    pub session: u64,
    pub sprite_id: u8,
    pub coord: Coord,
    pub path_index: u64,
}

/// Two samples belong to the same stream group.
pub open spec fn same_group(a: Sample, b: Sample) -> bool {
    a.user == b.user && a.session == b.session
}

/// Lexicographic order on (user, session, timestamp, path_index).
pub open spec fn key_le(a: Sample, b: Sample) -> bool {
    if a.user != b.user {
        a.user < b.user
    } else if a.session != b.session {
        a.session < b.session
    } else if a.timestamp_ms != b.timestamp_ms {
        a.timestamp_ms < b.timestamp_ms
    } else {
        a.path_index <= b.path_index
    }
}

/// Adjacent samples in key order: groups are contiguous and time never runs
/// backwards inside a group.
pub open spec fn stream_sorted(s: Seq<Sample>) -> bool {
    forall|i: int| 0 <= i < s.len() - 1 ==> key_le(#[trigger] s[i], s[i + 1])
}

/// Local coordinates small enough for the pixel formula.
pub open spec fn sample_in_bounds(s: Sample) -> bool {
    &&& -MAX_LOCAL_COORD <= s.coord.x <= MAX_LOCAL_COORD
    &&& -MAX_LOCAL_COORD <= s.coord.y <= MAX_LOCAL_COORD
}

pub open spec fn all_in_bounds(s: Seq<Sample>) -> bool {
    forall|i: int| 0 <= i < s.len() ==> sample_in_bounds(#[trigger] s[i])
}

pub proof fn lemma_key_le_trans(a: Sample, b: Sample, c: Sample)
    requires
        key_le(a, b),
        key_le(b, c),
    ensures
        key_le(a, c),
{
}

/// What the cleaning pass keeps of a stream: samples in bounds and not out of
/// order relative to the one kept before them.
pub open spec fn clean_spec(s: Seq<Sample>, last: Option<Sample>) -> Seq<Sample>
    decreases s.len(),
{
    if s.len() == 0 {
        Seq::empty()
    } else if sample_in_bounds(s[0]) && (last is None || key_le(last->0, s[0])) {
        seq![s[0]] + clean_spec(s.skip(1), Some(s[0]))
    } else {
        clean_spec(s.skip(1), last)
    }
}

pub proof fn lemma_clean_spec_sorted(s: Seq<Sample>, last: Option<Sample>)
    ensures
        stream_sorted(clean_spec(s, last)),
        all_in_bounds(clean_spec(s, last)),
        clean_spec(s, last).len() <= s.len(),
        forall|i: int| 0 <= i < clean_spec(s, last).len() ==> {
            &&& (last is Some ==> key_le(last->0, #[trigger] clean_spec(s, last)[i]))
            &&& s.contains(clean_spec(s, last)[i])
        },
    decreases s.len(),
{
    if s.len() > 0 {
        let r = clean_spec(s, last);
        if sample_in_bounds(s[0]) && (last is None || key_le(last->0, s[0])) {
            lemma_clean_spec_sorted(s.skip(1), Some(s[0]));
            let tail = clean_spec(s.skip(1), Some(s[0]));
            assert forall|i: int| 0 <= i < r.len() - 1 implies key_le(#[trigger] r[i], r[i + 1]) by {
                if i > 0 {
                    assert(r[i] == tail[i - 1]);
                    assert(r[i + 1] == tail[i]);
                }
            }
            assert forall|i: int| 0 <= i < r.len() implies {
                &&& (last is Some ==> key_le(last->0, #[trigger] r[i]))
                &&& s.contains(r[i])
            } by {
                if i == 0 {
                    assert(s[0] == r[0]);
                } else {
                    assert(r[i] == tail[i - 1]);
                    if last is Some {
                        lemma_key_le_trans(last->0, s[0], r[i]);
                    }
                    let w = choose|w: int| 0 <= w < s.skip(1).len() && s.skip(1)[w] == r[i];
                    assert(s[w + 1] == r[i]);
                }
            }
        } else {
            lemma_clean_spec_sorted(s.skip(1), last);
            assert forall|i: int| 0 <= i < r.len() implies s.contains(#[trigger] r[i]) by {
                let w = choose|w: int| 0 <= w < s.skip(1).len() && s.skip(1)[w] == r[i];
                assert(s[w + 1] == r[i]);
            }
        }
    }
}

/// Drop malformed samples: any sample out of coordinate bounds, and any
/// sample that breaks the (user, session, timestamp, path) order against the
/// last kept one, is dropped and counted, never fatal. What remains is a
/// sorted, in-bounds stream.
pub fn clean_stream(samples: &Vec<Sample>) -> (r: (Vec<Sample>, usize))
    ensures
        r.0@ == clean_spec(samples@, None),
        r.1 == samples@.len() - r.0@.len(),
        stream_sorted(r.0@),
        all_in_bounds(r.0@),
{
    let mut kept: Vec<Sample> = Vec::new();
    let mut last: Option<Sample> = None;
    let mut i: usize = 0;
    proof {
        assert(samples@.skip(0) =~= samples@);
    }
    while i < samples.len()
        invariant
            i <= samples@.len(),
            kept@.len() <= i,
            clean_spec(samples@, None) == kept@ + clean_spec(samples@.skip(i as int), last),
            last is Some ==> kept@.len() > 0 && kept@[kept@.len() - 1] == last->0,
            last is None ==> kept@.len() == 0,
        decreases samples@.len() - i,
    {
        let s = samples[i];
        let in_bounds = -MAX_LOCAL_COORD <= s.coord.x && s.coord.x <= MAX_LOCAL_COORD
            && -MAX_LOCAL_COORD <= s.coord.y && s.coord.y <= MAX_LOCAL_COORD;
        let order_ok = match last {
            None => true,
            Some(l) => {
                if l.user != s.user {
                    l.user < s.user
                } else if l.session != s.session {
                    l.session < s.session
                } else if l.timestamp_ms != s.timestamp_ms {
                    l.timestamp_ms < s.timestamp_ms
                } else {
                    l.path_index <= s.path_index
                }
            },
        };
        proof {
            assert(samples@.skip(i as int)[0] == samples@[i as int]);
            assert(samples@.skip(i as int).skip(1) =~= samples@.skip(i as int + 1));
        }
        if in_bounds && order_ok {
            kept.push(s);
            proof {
                assert(kept@ + clean_spec(samples@.skip(i as int + 1), Some(s)) =~= kept@.take(
                    kept@.len() - 1,
                ) + (seq![s] + clean_spec(samples@.skip(i as int + 1), Some(s))));
            }
            last = Some(s);
        }
        i += 1;
    }
    proof {
        assert(clean_spec(samples@.skip(i as int), last) =~= Seq::<Sample>::empty());
        assert(kept@ + Seq::<Sample>::empty() =~= kept@);
        lemma_clean_spec_sorted(samples@, None);
    }
    let dropped = samples.len() - kept.len();
    (kept, dropped)
}

/// A raw sprite id kept only inside the open range the sprite sheet covers;
/// anything else falls back to sprite 0.
pub fn sanitize_sprite_id(raw: i64) -> (r: u8)
    ensures
        r == if 0 < raw < 50 {
            raw as u8
        } else {
            0u8
        },
{
    if 0 < raw && raw < 50 {
        raw as u8
    } else {
        0
    }
}

} // verus!
