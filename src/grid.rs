use vstd::prelude::*;

verus! {

/// Width of the grid, in tiles.
pub const MAP_WIDTH: i32 = 80;

/// Height of the grid, in tiles.
pub const MAP_HEIGHT: i32 = 50;

/// Number of tiles in the grid.
pub const MAP_COUNT: usize = 4000;

/// The state of one grid cell.
#[derive(PartialEq, Eq, Structural, Copy, Clone, Debug)]
pub enum TileType {
    Wall,
    Floor,
}

/// `(x, y)` is a cell of the grid.
pub open spec fn in_grid(x: int, y: int) -> bool {
    0 <= x < 80 && 0 <= y < 50
}

/// The buffer position of cell `(x, y)`: rows are laid out one after another.
pub open spec fn index_of(x: int, y: int) -> int {
    y * 80 + x
}

/// The cell at buffer position `i`.
pub open spec fn xy_of(i: int) -> (int, int) {
    (i % 80, i / 80)
}

/// Buffer position of the cell at `(x, y)`.
pub fn xy2index(x: i32, y: i32) -> (r: usize)
    requires
        in_grid(x as int, y as int),
    ensures
        r as int == index_of(x as int, y as int),
{
    (y as usize * 80) + x as usize
}

/// Cell at buffer position `i`.
pub fn index2xy(i: usize) -> (r: (i32, i32))
    requires
        i < MAP_COUNT,
    ensures
        (r.0 as int, r.1 as int) == xy_of(i as int),
{
    let x = (i % 80) as i32;
    let y = (i / 80) as i32;
    (x, y)
}

/// Every grid cell has a buffer position, and the position gives the cell back.
pub proof fn lemma_xy_index_round_trip(x: int, y: int)
    requires
        in_grid(x, y),
    ensures
        0 <= index_of(x, y) < 4000,
        xy_of(index_of(x, y)) == (x, y),
{
    assert((y * 80 + x) / 80 == y && (y * 80 + x) % 80 == x) by (nonlinear_arith)
        requires
            0 <= x < 80,
            0 <= y < 50,
    ;
}

/// Every buffer position belongs to a grid cell, whose position it is.
pub proof fn lemma_index_xy_round_trip(i: int)
    requires
        0 <= i < 4000,
    ensures
        in_grid(xy_of(i).0, xy_of(i).1),
        index_of(xy_of(i).0, xy_of(i).1) == i,
{
    assert(0 <= i % 80 < 80 && 0 <= i / 80 < 50 && (i / 80) * 80 + i % 80 == i) by (nonlinear_arith)
        requires
            0 <= i < 4000,
    ;
}

/// `(x, y)` lies on the outermost rows or columns of the grid.
pub open spec fn on_border(x: int, y: int) -> bool {
    x == 0 || x == MAP_WIDTH - 1 || y == 0 || y == MAP_HEIGHT - 1
}

/// `m` with every cell that `cells` holds turned to floor.
pub open spec fn paint(m: Seq<TileType>, cells: spec_fn(int, int) -> bool) -> Seq<TileType> {
    Seq::new(m.len(), |i: int| if cells(xy_of(i).0, xy_of(i).1) { TileType::Floor } else { m[i] })
}

pub proof fn lemma_paint_cell(m: Seq<TileType>, cells: spec_fn(int, int) -> bool, x: int, y: int)
    requires
        m.len() == 4000,
        in_grid(x, y),
    ensures
        paint(m, cells)[index_of(x, y)] == (if cells(x, y) { TileType::Floor } else { m[index_of(x, y)] }),
{
    lemma_xy_index_round_trip(x, y);
}

pub proof fn lemma_paint_all(m: Seq<TileType>, cells: spec_fn(int, int) -> bool)
    requires
        m.len() == 4000,
    ensures
        paint(m, cells).len() == 4000,
        forall|x: int, y: int|
            in_grid(x, y) ==> #[trigger] paint(m, cells)[index_of(x, y)] == (if cells(x, y) {
                TileType::Floor
            } else {
                m[index_of(x, y)]
            }),
        floors_kept(m, paint(m, cells)),
{
    assert forall|x: int, y: int| in_grid(x, y) implies #[trigger] paint(m, cells)[index_of(x, y)] == (
    if cells(x, y) {
        TileType::Floor
    } else {
        m[index_of(x, y)]
    }) by {
        lemma_paint_cell(m, cells, x, y);
    }
}

/// Two grids that agree on every cell are equal.
pub proof fn lemma_grids_equal(m1: Seq<TileType>, m2: Seq<TileType>)
    requires
        m1.len() == 4000,
        m2.len() == 4000,
        forall|x: int, y: int| in_grid(x, y) ==> m1[index_of(x, y)] == m2[index_of(x, y)],
    ensures
        m1 == m2,
{
    assert forall|i: int| 0 <= i < 4000 implies m1[i] == m2[i] by {
        lemma_index_xy_round_trip(i);
        let (x, y) = xy_of(i);
        assert(m1[index_of(x, y)] == m2[index_of(x, y)]);
    }
    assert(m1 =~= m2);
}

/// Every floor cell of `m1` is floor in `m2`.
pub open spec fn floors_kept(m1: Seq<TileType>, m2: Seq<TileType>) -> bool {
    forall|x: int, y: int|
        in_grid(x, y) && m1[index_of(x, y)] == TileType::Floor ==> #[trigger] m2[index_of(x, y)]
            == TileType::Floor
}

pub proof fn lemma_floors_kept_trans(m1: Seq<TileType>, m2: Seq<TileType>, m3: Seq<TileType>)
    requires
        floors_kept(m1, m2),
        floors_kept(m2, m3),
    ensures
        floors_kept(m1, m3),
{
    assert forall|x: int, y: int|
        in_grid(x, y) && m1[index_of(x, y)] == TileType::Floor implies #[trigger] m3[index_of(x, y)]
        == TileType::Floor by {
        assert(m2[index_of(x, y)] == TileType::Floor);
    }
}

/// Every border cell is wall in `m`.
pub open spec fn border_walled(m: Seq<TileType>) -> bool {
    forall|x: int, y: int| in_grid(x, y) && on_border(x, y) ==> #[trigger] m[index_of(x, y)] == TileType::Wall
}

} // verus!
