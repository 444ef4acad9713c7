//! Sprite facing directions, sprite-sheet cell arithmetic, and the instance
//! values a playback frame emits.

use vstd::prelude::*;

verus! {

/// The direction a sprite faces, chosen from the movement between two
/// consecutive positions.
#[derive(Debug, Clone, Copy, PartialEq, Eq, Structural)]
pub enum Direction {
    Down,
    Up,
    Left,
    Right,
}

/// The direction picked for a pixel movement of (dx, dy): the dominant axis
/// wins, with the vertical axis breaking ties; y grows downwards.
pub open spec fn direction_of_movement(dx: int, dy: int) -> Direction {
    if abs_int(dx) > abs_int(dy) {
        if dx > 0 {
            Direction::Right
        } else {
            Direction::Left
        }
    } else {
        if dy > 0 {
            Direction::Down
        } else {
            Direction::Up
        }
    }
}

pub open spec fn abs_int(x: int) -> int {
    if x >= 0 {
        x
    } else {
        -x
    }
}

impl Direction {
    /// Get the column index in the sprite sheet for this direction.
    pub fn column_index(&self) -> (r: usize)
        ensures
            r == match self {
                Direction::Down => 1usize,
                Direction::Up => 4usize,
                Direction::Left => 6usize,
                Direction::Right => 8usize,
            },
    {
        match self {
            Direction::Down => 1,
            Direction::Up => 4,
            Direction::Left => 6,
            Direction::Right => 8,
        }
    }

    /// Column index in the short sprite-sheet layout, one column per direction.
    pub fn column_index_short(&self) -> (r: usize)
        ensures
            r == match self {
                Direction::Down => 0usize,
                Direction::Up => 1usize,
                Direction::Left => 2usize,
                Direction::Right => 3usize,
            },
    {
        match self {
            Direction::Down => 0,
            Direction::Up => 1,
            Direction::Left => 2,
            Direction::Right => 3,
        }
    }

    /// Determine direction based on a movement delta, in pixels.
    pub fn from_movement(dx: i64, dy: i64) -> (r: Direction)
        requires
            dx > i64::MIN,
            dy > i64::MIN,
        ensures
            r == direction_of_movement(dx as int, dy as int),
    {
        let ax = if dx >= 0 { dx } else { -dx };
        let ay = if dy >= 0 { dy } else { -dy };
        if ax > ay {
            if dx > 0 {
                Direction::Right
            } else {
                Direction::Left
            }
        } else {
            if dy > 0 {
                Direction::Down
            } else {
                Direction::Up
            }
        }
    }
}

/// Pixel rectangle of one sprite cell inside the sprite sheet.
#[derive(Debug, Clone, Copy, PartialEq, Eq, Structural)]
pub struct SpriteCell {
    pub x: u32,
    pub y: u32,
    pub width: u32,
    pub height: u32,
}

/// The sprite sheet's cell grid: a 16x16 sprite every 17 pixels, the grid
/// itself starting at (9, 34).
pub fn sprite_cell(sprite_id: u8, direction: Direction) -> (r: SpriteCell)
    ensures
        r.x == 9 + 17 * direction_column(direction),
        r.y == 34 + 17 * sprite_id,
        r.width == 16,
        r.height == 16,
{
    let col = direction.column_index();
    SpriteCell {
        x: 9 + 17 * (col as u32),
        y: 34 + 17 * (sprite_id as u32),
        width: 16,
        height: 16,
    }
}

/// The sprite-sheet column of a direction, in the wide layout.
pub open spec fn direction_column(d: Direction) -> int {
    match d {
        Direction::Down => 1,
        Direction::Up => 4,
        Direction::Left => 6,
        Direction::Right => 8,
    }
}

/// One sprite to draw in a frame. The position is an exact rational in pixel
/// units: each axis is `num / denom` pixels from the canvas origin.
#[derive(Debug, Clone, Copy, PartialEq, Eq, Structural)]
pub struct SpriteInstance {
    pub x_num: i64,
    pub y_num: i64,
    pub denom: u64,
    pub sprite_id: u8,
    pub direction: Direction,
}

/// Where a run's playback cursor stands: the current and next coordinate
/// indices, and the interpolation parameter `interp_num / interp_den`
/// between them.
#[derive(Debug, Clone, Copy, PartialEq, Eq, Structural)]
pub struct AnimationState {
    pub current_frame_index: usize,
    pub next_frame_index: usize,
    pub interp_num: u64,
    pub interp_den: u64,
}

} // verus!
