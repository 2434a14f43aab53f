use crate::grid::{index_of, xy2index, TileType, MAP_COUNT, MAP_HEIGHT, MAP_WIDTH};
use vstd::prelude::*;

verus! {

/// `v` held to the range `[lo, hi]`.
pub open spec fn clamped(v: int, lo: int, hi: int) -> int {
    if v < lo {
        lo
    } else if v > hi {
        hi
    } else {
        v
    }
}

/// Where a move by `(dx, dy)` from `(x, y)` ends: the target is held to the
/// grid, and the move is made only when the target is not wall.
pub open spec fn moved_to(m: Seq<TileType>, x: int, y: int, dx: int, dy: int) -> (int, int) {
    let nx = clamped(x + dx, 0, MAP_WIDTH - 1);
    let ny = clamped(y + dy, 0, MAP_HEIGHT - 1);
    if m[index_of(nx, ny)] != TileType::Wall {
        (nx, ny)
    } else {
        (x, y)
    }
}

fn clamp_i32(v: i32, lo: i32, hi: i32) -> (r: i32)
    requires
        lo <= hi,
    ensures
        r == clamped(v as int, lo as int, hi as int),
{
    if v < lo {
        lo
    } else if v > hi {
        hi
    } else {
        v
    }
}

/// Moves an entity at `(x, y)` by `(dx, dy)` on `map`, staying on the grid
/// and out of walls; returns the new position.
pub fn try_move(map: &[TileType], x: i32, y: i32, dx: i32, dy: i32) -> (r: (i32, i32))
    requires
        map@.len() == MAP_COUNT,
        i32::MIN <= x + dx <= i32::MAX,
        i32::MIN <= y + dy <= i32::MAX,
    ensures
        (r.0 as int, r.1 as int) == moved_to(map@, x as int, y as int, dx as int, dy as int),
{
    let nx = clamp_i32(x + dx, 0, MAP_WIDTH - 1);
    let ny = clamp_i32(y + dy, 0, MAP_HEIGHT - 1);
    let i = xy2index(nx, ny);
    if map[i] != TileType::Wall {
        (nx, ny)
    } else {
        (x, y)
    }
}

/// One column to the left, wrapping from the first column to the last.
pub fn shift_left(x: i32) -> (r: i32)
    requires
        x > i32::MIN,
    ensures
        r == (if x - 1 < 0 { MAP_WIDTH - 1 } else { x - 1 }),
{
    let nx = x - 1;
    if nx < 0 {
        MAP_WIDTH - 1
    } else {
        nx
    }
}

} // verus!
