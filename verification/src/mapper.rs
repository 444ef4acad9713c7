//! Mapping of local (x, y, region) coordinates to global pixel positions on
//! the output canvas, through a static per-region offset table.

use vstd::prelude::*;
use crate::coords::Coord;

verus! {

/// The side of one map tile, in pixels.
pub const TILE_SIZE: i64 = 16;

/// Bound on a region offset, and on the centre and translation constants of a
/// canvas, so that the pixel formula cannot overflow.
pub const MAX_REGION_OFFSET: i64 = 0x100_0000;

/// Bound on the local coordinates a mapper accepts.
pub const MAX_LOCAL_COORD: i64 = 0x10_0000;

/// Bound on any pixel coordinate a well-formed mapper can produce from
/// in-range local coordinates.
pub const PIXEL_BOUND: i64 = 0x1400_0000;

/// One map region: its id and its tile offset inside the shared global canvas.
#[derive(Debug, Clone, Copy, PartialEq, Eq, Structural)]
pub struct MapRegion {
    pub id: i64,
    pub offset_x: i64,
    pub offset_y: i64,
}

/// A global pixel position, or the sentinel for a region id absent from the
/// table (never an error, never a crash).
#[derive(Debug, Clone, Copy, PartialEq, Eq, Structural)]
pub enum PixelPos {
    Valid { x: i64, y: i64 },
    Invalid,
}

/// The per-region offset table together with the canvas constants.
///
/// The pixel formula is
/// `tile_size * (local + region_offset) - center + translate`
/// on each axis: the centre constant (already multiplied by the tile size)
/// moves the table's coordinate system to a centred origin, the translation
/// then moves it to the canvas's top-left origin.
pub struct CoordinateMapper {
    pub regions: Vec<MapRegion>,
    pub center_x16: i64,
    pub center_y16: i64,
    pub translate_x: i64,
    pub translate_y: i64,
}

/// First entry of `regions` carrying `id`, if any: later duplicates of an id
/// are shadowed.
pub open spec fn spec_lookup(regions: Seq<MapRegion>, id: i64) -> Option<MapRegion>
    decreases regions.len(),
{
    if regions.len() == 0 {
        None
    } else if regions[0].id == id {
        Some(regions[0])
    } else {
        spec_lookup(regions.skip(1), id)
    }
}

impl CoordinateMapper {
    /// Region offsets and canvas constants small enough that the pixel
    /// formula stays inside i64.
    pub open spec fn wf(self) -> bool {
        &&& forall|i: int| 0 <= i < self.regions@.len() ==> {
            &&& -MAX_REGION_OFFSET <= #[trigger] self.regions@[i].offset_x <= MAX_REGION_OFFSET
            &&& -MAX_REGION_OFFSET <= self.regions@[i].offset_y <= MAX_REGION_OFFSET
        }
        &&& -MAX_REGION_OFFSET <= self.center_x16 <= MAX_REGION_OFFSET
        &&& -MAX_REGION_OFFSET <= self.center_y16 <= MAX_REGION_OFFSET
        &&& -MAX_REGION_OFFSET <= self.translate_x <= MAX_REGION_OFFSET
        &&& -MAX_REGION_OFFSET <= self.translate_y <= MAX_REGION_OFFSET
    }

    /// The mapped pixel position as a pair of unbounded integers, or `None`
    /// for a region id the table does not know.
    pub open spec fn mapped_pixel(self, c: Coord) -> Option<(int, int)> {
        match spec_lookup(self.regions@, c.region) {
            Some(r) => Some((
                TILE_SIZE * (c.x + r.offset_x) - self.center_x16 + self.translate_x,
                TILE_SIZE * (c.y + r.offset_y) - self.center_y16 + self.translate_y,
            )),
            None => None,
        }
    }

    /// What `convert_coords` returns: the mapped pixel where the region is
    /// known, the invalid sentinel where it is not.
    pub open spec fn convert_result(self, c: Coord, r: PixelPos) -> bool {
        match self.mapped_pixel(c) {
            Some(p) => r is Valid && r->Valid_x == p.0 && r->Valid_y == p.1,
            None => r is Invalid,
        }
    }

    /// Build a mapper after checking its bounds; rejects a table whose
    /// offsets or constants could overflow the pixel formula.
    pub fn new(
        regions: Vec<MapRegion>,
        center_x16: i64,
        center_y16: i64,
        translate_x: i64,
        translate_y: i64,
    ) -> (r: Option<CoordinateMapper>)
        ensures
            r is Some ==> {
                &&& r->0.wf()
                &&& r->0.regions@ == regions@
                &&& r->0.center_x16 == center_x16
                &&& r->0.center_y16 == center_y16
                &&& r->0.translate_x == translate_x
                &&& r->0.translate_y == translate_y
            },
            ({
                &&& (forall|i: int| 0 <= i < regions@.len() ==> {
                    &&& -MAX_REGION_OFFSET <= #[trigger] regions@[i].offset_x <= MAX_REGION_OFFSET
                    &&& -MAX_REGION_OFFSET <= regions@[i].offset_y <= MAX_REGION_OFFSET
                })
                &&& -MAX_REGION_OFFSET <= center_x16 <= MAX_REGION_OFFSET
                &&& -MAX_REGION_OFFSET <= center_y16 <= MAX_REGION_OFFSET
                &&& -MAX_REGION_OFFSET <= translate_x <= MAX_REGION_OFFSET
                &&& -MAX_REGION_OFFSET <= translate_y <= MAX_REGION_OFFSET
            }) <==> r is Some,
    {
        if !(-MAX_REGION_OFFSET <= center_x16 && center_x16 <= MAX_REGION_OFFSET
            && -MAX_REGION_OFFSET <= center_y16 && center_y16 <= MAX_REGION_OFFSET
            && -MAX_REGION_OFFSET <= translate_x && translate_x <= MAX_REGION_OFFSET
            && -MAX_REGION_OFFSET <= translate_y && translate_y <= MAX_REGION_OFFSET)
        {
            return None;
        }
        let mut i: usize = 0;
        while i < regions.len()
            invariant
                i <= regions@.len(),
                forall|j: int| 0 <= j < i ==> {
                    &&& -MAX_REGION_OFFSET <= #[trigger] regions@[j].offset_x <= MAX_REGION_OFFSET
                    &&& -MAX_REGION_OFFSET <= regions@[j].offset_y <= MAX_REGION_OFFSET
                },
            decreases regions@.len() - i,
        {
            let r = regions[i];
            if !(-MAX_REGION_OFFSET <= r.offset_x && r.offset_x <= MAX_REGION_OFFSET
                && -MAX_REGION_OFFSET <= r.offset_y && r.offset_y <= MAX_REGION_OFFSET)
            {
                return None;
            }
            i += 1;
        }
        Some(CoordinateMapper { regions, center_x16, center_y16, translate_x, translate_y })
    }

    /// Look a region up by id; the first matching entry wins.
    pub fn lookup_region(&self, id: i64) -> (r: Option<MapRegion>)
        ensures
            r == spec_lookup(self.regions@, id),
    {
        let mut i: usize = 0;
        proof {
            assert(self.regions@.skip(0) =~= self.regions@);
        }
        while i < self.regions.len()
            invariant
                i <= self.regions@.len(),
                spec_lookup(self.regions@, id) == spec_lookup(self.regions@.skip(i as int), id),
            decreases self.regions@.len() - i,
        {
            let r = self.regions[i];
            proof {
                assert(self.regions@.skip(i as int)[0] == self.regions@[i as int]);
                assert(self.regions@.skip(i as int).skip(1) =~= self.regions@.skip(i as int + 1));
            }
            if r.id == id {
                return Some(r);
            }
            i += 1;
        }
        None
    }

    /// Convert a coordinate to its global pixel position. A region id absent
    /// from the table yields the invalid sentinel.
    pub fn convert_coords(&self, c: Coord) -> (r: PixelPos)
        requires
            self.wf(),
            -MAX_LOCAL_COORD <= c.x <= MAX_LOCAL_COORD,
            -MAX_LOCAL_COORD <= c.y <= MAX_LOCAL_COORD,
        ensures
            self.convert_result(c, r),
    {
        match self.lookup_region(c.region) {
            Some(reg) => {
                proof {
                    lemma_lookup_in_table(self.regions@, c.region);
                }
                let x = TILE_SIZE * (c.x + reg.offset_x) - self.center_x16 + self.translate_x;
                let y = TILE_SIZE * (c.y + reg.offset_y) - self.center_y16 + self.translate_y;
                PixelPos::Valid { x, y }
            },
            None => PixelPos::Invalid,
        }
    }
}

/// A successful lookup returns an entry of the table, so an entry bounded by
/// the table's well-formedness.
pub proof fn lemma_lookup_in_table(regions: Seq<MapRegion>, id: i64)
    ensures
        spec_lookup(regions, id) is Some ==> regions.contains(spec_lookup(regions, id)->0),
    decreases regions.len(),
{
    if regions.len() > 0 && regions[0].id != id {
        lemma_lookup_in_table(regions.skip(1), id);
        if spec_lookup(regions.skip(1), id) is Some {
            let r = spec_lookup(regions.skip(1), id)->0;
            let i = choose|i: int| 0 <= i < regions.skip(1).len() && regions.skip(1)[i] == r;
            assert(regions[i + 1] == r);
        }
    }
}

/// A well-formed mapper keeps in-range coordinates inside the pixel bound.
pub proof fn lemma_pixel_bounds(m: CoordinateMapper, c: Coord)
    requires
        m.wf(),
        -MAX_LOCAL_COORD <= c.x <= MAX_LOCAL_COORD,
        -MAX_LOCAL_COORD <= c.y <= MAX_LOCAL_COORD,
        m.mapped_pixel(c) is Some,
    ensures
        ({
            let p = m.mapped_pixel(c)->0;
            &&& -PIXEL_BOUND <= p.0 <= PIXEL_BOUND
            &&& -PIXEL_BOUND <= p.1 <= PIXEL_BOUND
        }),
{
    lemma_lookup_in_table(m.regions@, c.region);
    let r = spec_lookup(m.regions@, c.region)->0;
    let i = choose|i: int| 0 <= i < m.regions@.len() && m.regions@[i] == r;
    assert(-MAX_REGION_OFFSET <= r.offset_x <= MAX_REGION_OFFSET);
    assert(-MAX_REGION_OFFSET <= r.offset_y <= MAX_REGION_OFFSET);
}

/// The Coordinate Mapper is pure: two results for identical inputs are
/// identical, and an unknown region id always yields the invalid sentinel.
pub proof fn lemma_convert_coords_pure(m: CoordinateMapper, c: Coord, r1: PixelPos, r2: PixelPos)
    requires
        m.convert_result(c, r1),
        m.convert_result(c, r2),
    ensures
        r1 == r2,
        spec_lookup(m.regions@, c.region) is None ==> r1 is Invalid,
{
    if m.mapped_pixel(c) is Some {
        assert(r1 is Valid && r2 is Valid);
    }
}

} // verus!
