//! Coordinate triples as read from the sample stream, and their compact
//! three-byte on-disk form.

use vstd::prelude::*;

verus! {

/// A raw coordinate triple: local x, local y, and the region id of the map
/// area the point lies in.
#[derive(Debug, Clone, Copy, PartialEq, Eq, Structural)]
pub struct Coord {
    pub x: i64,
    pub y: i64,
    pub region: i64,
}

/// The region id reserved as an out-of-range sentinel in the compact form.
pub const SENTINEL_REGION: u8 = 255;

/// A coordinate packed into three bytes. Any component of a raw coordinate
/// outside 0..=255 turns the whole coordinate into the sentinel (0, 0, 255).
#[derive(Debug, Clone, Copy, PartialEq, Eq, Structural)]
pub struct CompactCoordinate {
    pub x: u8,
    pub y: u8,
    pub region: u8,
}

/// Whether every component of `c` fits the compact byte range.
pub open spec fn fits_compact(c: Coord) -> bool {
    0 <= c.x <= 255 && 0 <= c.y <= 255 && 0 <= c.region <= 255
}

/// The compact form of a raw coordinate: the same three components when they
/// all fit a byte, the sentinel (0, 0, 255) otherwise.
pub open spec fn compact_of_spec(c: Coord) -> CompactCoordinate {
    if fits_compact(c) {
        CompactCoordinate { x: c.x as u8, y: c.y as u8, region: c.region as u8 }
    } else {
        CompactCoordinate { x: 0, y: 0, region: SENTINEL_REGION }
    }
}

/// Pack a raw coordinate into its compact form.
pub fn compact_of(c: Coord) -> (r: CompactCoordinate)
    ensures
        r == compact_of_spec(c),
{
    if 0 <= c.x && c.x <= 255 && 0 <= c.y && c.y <= 255 && 0 <= c.region && c.region <= 255 {
        CompactCoordinate { x: c.x as u8, y: c.y as u8, region: c.region as u8 }
    } else {
        CompactCoordinate { x: 0, y: 0, region: SENTINEL_REGION }
    }
}

} // verus!
