use crate::grid::{
    in_grid, index_of, lemma_grids_equal, lemma_paint_cell, paint, xy2index, TileType, MAP_COUNT,
    MAP_HEIGHT, MAP_WIDTH,
};
use crate::rect::Rect;
use vstd::prelude::*;

verus! {

/// The interior of a room: the cells strictly right of `x1` and below `y1`,
/// up to `x2` and `y2` inclusive.
pub open spec fn room_cells(room: Rect) -> spec_fn(int, int) -> bool {
    |x: int, y: int| room.x1 < x <= room.x2 && room.y1 < y <= room.y2
}

/// The cells of row `y` from column `x1` to column `x2`, in either order.
pub open spec fn row_cells(x1: int, x2: int, y: int) -> spec_fn(int, int) -> bool {
    |x: int, yy: int| yy == y && (x1 <= x <= x2 || x2 <= x <= x1)
}

/// The cells of column `x` from row `y1` to row `y2`, in either order.
pub open spec fn column_cells(y1: int, y2: int, x: int) -> spec_fn(int, int) -> bool {
    |xx: int, y: int| xx == x && (y1 <= y <= y2 || y2 <= y <= y1)
}

/// Turns the interior of `room` to floor.
pub fn apply_room_to_map(room: &Rect, map: &mut [TileType])
    requires
        old(map)@.len() == MAP_COUNT,
        -1 <= room.x1 < room.x2 < MAP_WIDTH,
        -1 <= room.y1 < room.y2 < MAP_HEIGHT,
    ensures
        final(map)@ == paint(old(map)@, room_cells(*room)),
{
    let ghost start = map@;
    let mut y: i32 = room.y1 + 1;
    while y <= room.y2
        invariant
            map@.len() == 4000,
            -1 <= room.x1 < room.x2 < 80,
            -1 <= room.y1 < room.y2 < 50,
            room.y1 + 1 <= y <= room.y2 + 1,
            forall|a: int, b: int|
                in_grid(a, b) ==> #[trigger] map@[index_of(a, b)] == (if room.x1 < a <= room.x2
                    && room.y1 < b < y { TileType::Floor } else { start[index_of(a, b)] }),
        decreases room.y2 + 1 - y,
    {
        let mut x: i32 = room.x1 + 1;
        while x <= room.x2
            invariant
                map@.len() == 4000,
                -1 <= room.x1 < room.x2 < 80,
                -1 <= room.y1 < y <= room.y2 < 50,
                room.x1 + 1 <= x <= room.x2 + 1,
                forall|a: int, b: int|
                    in_grid(a, b) ==> #[trigger] map@[index_of(a, b)] == (if (room.x1 < a
                        <= room.x2 && room.y1 < b < y) || (b == y && room.x1 < a < x) {
                        TileType::Floor
                    } else {
                        start[index_of(a, b)]
                    }),
            decreases room.x2 + 1 - x,
        {
            let i = xy2index(x, y);
            map[i] = TileType::Floor;
            x = x + 1;
        }
        y = y + 1;
    }
    proof {
        assert forall|a: int, b: int| in_grid(a, b) implies map@[index_of(a, b)] == paint(
            start,
            room_cells(*room),
        )[index_of(a, b)] by {
            lemma_paint_cell(start, room_cells(*room), a, b);
        }
        lemma_grids_equal(map@, paint(start, room_cells(*room)));
    }
}

/// Turns the cells of row `y` between columns `x1` and `x2`, both included, to
/// floor. Every cell of the run must lie on the grid, and none at the first or
/// the last buffer position.
pub fn apply_horizontal_tunnel(map: &mut [TileType], x1: i32, x2: i32, y: i32)
    requires
        old(map)@.len() == MAP_COUNT,
        in_grid(x1 as int, y as int),
        in_grid(x2 as int, y as int),
        1 <= index_of(if x1 <= x2 { x1 as int } else { x2 as int }, y as int),
        index_of(if x1 <= x2 { x2 as int } else { x1 as int }, y as int) <= MAP_COUNT - 2,
    ensures
        final(map)@ == paint(old(map)@, row_cells(x1 as int, x2 as int, y as int)),
{
    let ghost start = map@;
    let lo = if x1 <= x2 { x1 } else { x2 };
    let hi = if x1 <= x2 { x2 } else { x1 };
    let mut x: i32 = lo;
    while x <= hi
        invariant
            map@.len() == 4000,
            lo == (if x1 <= x2 { x1 } else { x2 }),
            hi == (if x1 <= x2 { x2 } else { x1 }),
            0 <= lo <= x <= hi + 1,
            hi < 80,
            0 <= y < 50,
            1 <= index_of(lo as int, y as int),
            index_of(hi as int, y as int) <= 3998,
            forall|a: int, b: int|
                in_grid(a, b) ==> #[trigger] map@[index_of(a, b)] == (if b == y && lo <= a < x {
                    TileType::Floor
                } else {
                    start[index_of(a, b)]
                }),
        decreases hi + 1 - x,
    {
        let i = xy2index(x, y);
        map[i] = TileType::Floor;
        x = x + 1;
    }
    proof {
        let cells = row_cells(x1 as int, x2 as int, y as int);
        assert forall|a: int, b: int| in_grid(a, b) implies map@[index_of(a, b)] == paint(
            start,
            cells,
        )[index_of(a, b)] by {
            lemma_paint_cell(start, cells, a, b);
        }
        lemma_grids_equal(map@, paint(start, cells));
    }
}

/// Turns the cells of column `x` between rows `y1` and `y2`, both included, to
/// floor. Every cell of the run must lie on the grid, and none at the first or
/// the last buffer position.
pub fn apply_vertical_tunnel(map: &mut [TileType], y1: i32, y2: i32, x: i32)
    requires
        old(map)@.len() == MAP_COUNT,
        in_grid(x as int, y1 as int),
        in_grid(x as int, y2 as int),
        1 <= index_of(x as int, if y1 <= y2 { y1 as int } else { y2 as int }),
        index_of(x as int, if y1 <= y2 { y2 as int } else { y1 as int }) <= MAP_COUNT - 2,
    ensures
        final(map)@ == paint(old(map)@, column_cells(y1 as int, y2 as int, x as int)),
{
    let ghost start = map@;
    let lo = if y1 <= y2 { y1 } else { y2 };
    let hi = if y1 <= y2 { y2 } else { y1 };
    let mut y: i32 = lo;
    while y <= hi
        invariant
            map@.len() == 4000,
            lo == (if y1 <= y2 { y1 } else { y2 }),
            hi == (if y1 <= y2 { y2 } else { y1 }),
            0 <= lo <= y <= hi + 1,
            hi < 50,
            0 <= x < 80,
            1 <= index_of(x as int, lo as int),
            index_of(x as int, hi as int) <= 3998,
            forall|a: int, b: int|
                in_grid(a, b) ==> #[trigger] map@[index_of(a, b)] == (if a == x && lo <= b < y {
                    TileType::Floor
                } else {
                    start[index_of(a, b)]
                }),
        decreases hi + 1 - y,
    {
        let i = xy2index(x, y);
        map[i] = TileType::Floor;
        y = y + 1;
    }
    proof {
        let cells = column_cells(y1 as int, y2 as int, x as int);
        assert forall|a: int, b: int| in_grid(a, b) implies map@[index_of(a, b)] == paint(
            start,
            cells,
        )[index_of(a, b)] by {
            lemma_paint_cell(start, cells, a, b);
        }
        lemma_grids_equal(map@, paint(start, cells));
    }
}

} // verus!
