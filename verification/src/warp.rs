//! Validity tables for region-to-region transitions: the warp table keyed by
//! exact positions, and the coarser table keyed by region pairs alone.

use vstd::prelude::*;

verus! {

/// One directed warp: stepping on `from` teleports to `to`. Positions are
/// (x, y, region id) in the compact byte range.
#[derive(Debug, Clone, Copy, PartialEq, Eq, Structural)]
pub struct WarpEntry {
    pub from_x: u8,
    pub from_y: u8,
    pub from_region: u8,
    pub to_x: u8,
    pub to_y: u8,
    pub to_region: u8,
}

/// Lookup table of warp destinations keyed by source position.
pub struct WarpTable {
    pub entries: Vec<WarpEntry>,
}

/// First entry whose source position is (x, y, region), if any.
pub open spec fn warp_lookup(entries: Seq<WarpEntry>, x: u8, y: u8, region: u8) -> Option<WarpEntry>
    decreases entries.len(),
{
    if entries.len() == 0 {
        None
    } else if entries[0].from_x == x && entries[0].from_y == y && entries[0].from_region == region {
        Some(entries[0])
    } else {
        warp_lookup(entries.skip(1), x, y, region)
    }
}

impl WarpTable {
    pub fn new() -> (r: WarpTable)
        ensures
            r.entries@.len() == 0,
    {
        WarpTable { entries: Vec::new() }
    }

    /// Record a warp from (x, y, region) to (x, y, region).
    pub fn insert(&mut self, entry: WarpEntry)
        ensures
            final(self).entries@ == old(self).entries@.push(entry),
    {
        self.entries.push(entry);
    }

    pub fn is_empty(&self) -> (r: bool)
        ensures
            r == (self.entries@.len() == 0),
    {
        self.entries.len() == 0
    }

    pub fn len(&self) -> (r: usize)
        ensures
            r == self.entries@.len(),
    {
        self.entries.len()
    }
}

/// Validates whether the warp table maps position `a` (as [x, y, region id])
/// exactly to position `b`: true when `a` is a known warp source and its
/// recorded destination is `b`.
pub fn valid_coordinate_pair(table: &WarpTable, a: [u8; 3], b: [u8; 3]) -> (r: bool)
    ensures
        r == match warp_lookup(table.entries@, a[0], a[1], a[2]) {
            Some(e) => e.to_x == b[0] && e.to_y == b[1] && e.to_region == b[2],
            None => false,
        },
{
    let mut i: usize = 0;
    proof {
        assert(table.entries@.skip(0) =~= table.entries@);
    }
    while i < table.entries.len()
        invariant
            i <= table.entries@.len(),
            warp_lookup(table.entries@, a[0], a[1], a[2])
                == warp_lookup(table.entries@.skip(i as int), a[0], a[1], a[2]),
        decreases table.entries@.len() - i,
    {
        let e = table.entries[i];
        proof {
            assert(table.entries@.skip(i as int)[0] == table.entries@[i as int]);
            assert(table.entries@.skip(i as int).skip(1) =~= table.entries@.skip(i as int + 1));
        }
        if e.from_x == a[0] && e.from_y == a[1] && e.from_region == a[2] {
            return e.to_x == b[0] && e.to_y == b[1] && e.to_region == b[2];
        }
        i += 1;
    }
    false
}

/// A directed region-to-region transition held valid by the coarse table.
#[derive(Debug, Clone, Copy, PartialEq, Eq, Structural)]
pub struct TransitionEntry {
    pub from_region: i64,
    pub to_region: i64,
}

/// The coarse transition table: a set of valid (from region, to region)
/// pairs, consulted by the strict segmentation policy.
pub struct TransitionTable {
    pub pairs: Vec<TransitionEntry>,
}

/// Whether the table holds the transition from `from` to `to`.
pub open spec fn transition_allowed(pairs: Seq<TransitionEntry>, from: i64, to: i64) -> bool {
    exists|i: int|
        0 <= i < pairs.len() && #[trigger] pairs[i] == (TransitionEntry {
            from_region: from,
            to_region: to,
        })
}

impl TransitionTable {
    pub fn new() -> (r: TransitionTable)
        ensures
            r.pairs@.len() == 0,
    {
        TransitionTable { pairs: Vec::new() }
    }

    pub fn insert(&mut self, from_region: i64, to_region: i64)
        ensures
            final(self).pairs@ == old(self).pairs@.push(TransitionEntry { from_region, to_region }),
    {
        self.pairs.push(TransitionEntry { from_region, to_region });
    }

    pub fn len(&self) -> (r: usize)
        ensures
            r == self.pairs@.len(),
    {
        self.pairs.len()
    }
}

/// Validates whether the coarse table holds the region transition
/// `from -> to`.
pub fn valid_coordinate_pair_v2(table: &TransitionTable, from_region: i64, to_region: i64) -> (r:
    bool)
    ensures
        r == transition_allowed(table.pairs@, from_region, to_region),
{
    let mut i: usize = 0;
    while i < table.pairs.len()
        invariant
            i <= table.pairs@.len(),
            forall|j: int| 0 <= j < i ==> #[trigger] table.pairs@[j] != (TransitionEntry {
                from_region,
                to_region,
            }),
        decreases table.pairs@.len() - i,
    {
        let e = table.pairs[i];
        if e.from_region == from_region && e.to_region == to_region {
            return true;
        }
        i += 1;
    }
    false
}

} // verus!
