use crate::grid::{
    border_walled, in_grid, index_of, lemma_grids_equal, lemma_xy_index_round_trip, on_border,
    xy2index, xy_of, TileType, MAP_COUNT, MAP_HEIGHT, MAP_WIDTH,
};
use crate::random::{new_rng, roll_dice};
use vstd::prelude::*;

verus! {

/// Number of walls the scatter generator drops on the grid.
pub const SCATTER_WALLS: i32 = 400;

/// Column of the spawn cell of the scatter generator.
pub const SPAWN_X: i32 = 40;

/// Row of the spawn cell of the scatter generator.
pub const SPAWN_Y: i32 = 25;

/// One of `walls` is the cell `(x, y)`.
pub open spec fn listed(walls: Seq<(i32, i32)>, x: int, y: int) -> bool {
    exists|j: int| 0 <= j < walls.len() && walls[j].0 == x && walls[j].1 == y
}

/// The tile at `(x, y)` of a scattered grid: the spawn cell is floor; else
/// border cells and listed cells are wall, and the rest is floor.
pub open spec fn scattered_tile(walls: Seq<(i32, i32)>, x: int, y: int) -> TileType {
    if x == SPAWN_X && y == SPAWN_Y {
        TileType::Floor
    } else if on_border(x, y) || listed(walls, x, y) {
        TileType::Wall
    } else {
        TileType::Floor
    }
}

/// The scattered grid for the walls `walls`.
pub open spec fn scattered(walls: Seq<(i32, i32)>) -> Seq<TileType> {
    Seq::new(4000, |i: int| scattered_tile(walls, xy_of(i).0, xy_of(i).1))
}

/// A grid of floor only.
fn open_map() -> (r: Vec<TileType>)
    ensures
        r@.len() == MAP_COUNT,
        forall|i: int| 0 <= i < r@.len() ==> r@[i] == TileType::Floor,
{
    let mut map: Vec<TileType> = Vec::new();
    while map.len() < MAP_COUNT
        invariant
            map@.len() <= 4000,
            forall|i: int| 0 <= i < map@.len() ==> map@[i] == TileType::Floor,
        decreases 4000 - map@.len(),
    {
        map.push(TileType::Floor);
    }
    map
}

/// Builds a grid of floor with walls on the border and at each of `walls`,
/// then clears the spawn cell.
pub fn scatter_map(walls: &Vec<(i32, i32)>) -> (r: Vec<TileType>)
    requires
        forall|j: int| 0 <= j < walls@.len() ==> in_grid((#[trigger] walls@[j]).0 as int, walls@[j].1 as int),
    ensures
        r@ == scattered(walls@),
{
    let mut map = open_map();
    let mut x: i32 = 0;
    while x < MAP_WIDTH
        invariant
            0 <= x <= 80,
            map@.len() == 4000,
            forall|a: int, b: int|
                in_grid(a, b) ==> #[trigger] map@[index_of(a, b)] == (if (b == 0 || b == 49) && a < x {
                    TileType::Wall
                } else {
                    TileType::Floor
                }),
        decreases 80 - x,
    {
        let i = xy2index(x, 0);
        map.set(i, TileType::Wall);
        let i = xy2index(x, MAP_HEIGHT - 1);
        map.set(i, TileType::Wall);
        x = x + 1;
    }
    let mut y: i32 = 0;
    while y < MAP_HEIGHT
        invariant
            0 <= y <= 50,
            map@.len() == 4000,
            forall|a: int, b: int|
                in_grid(a, b) ==> #[trigger] map@[index_of(a, b)] == (if b == 0 || b == 49 || ((a == 0
                    || a == 79) && b < y) {
                    TileType::Wall
                } else {
                    TileType::Floor
                }),
        decreases 50 - y,
    {
        let i = xy2index(0, y);
        map.set(i, TileType::Wall);
        let i = xy2index(MAP_WIDTH - 1, y);
        map.set(i, TileType::Wall);
        y = y + 1;
    }
    let mut j: usize = 0;
    while j < walls.len()
        invariant
            j <= walls@.len(),
            forall|k: int| 0 <= k < walls@.len() ==> in_grid((#[trigger] walls@[k]).0 as int, walls@[k].1 as int),
            map@.len() == 4000,
            forall|a: int, b: int|
                in_grid(a, b) ==> #[trigger] map@[index_of(a, b)] == (if on_border(a, b) || listed(
                    walls@.take(j as int),
                    a,
                    b,
                ) {
                    TileType::Wall
                } else {
                    TileType::Floor
                }),
        decreases walls@.len() - j,
    {
        let (wx, wy) = walls[j];
        let i = xy2index(wx, wy);
        map.set(i, TileType::Wall);
        proof {
            let before = walls@.take(j as int);
            let after = walls@.take(j + 1);
            assert forall|a: int, b: int| listed(after, a, b) == (listed(before, a, b) || (a == wx && b == wy)) by {
                if listed(after, a, b) {
                    let k = choose|k: int| 0 <= k < after.len() && after[k].0 == a && after[k].1 == b;
                    if k < j {
                        assert(before[k] == after[k]);
                    }
                }
                if listed(before, a, b) {
                    let k = choose|k: int| 0 <= k < before.len() && before[k].0 == a && before[k].1 == b;
                    assert(after[k] == before[k]);
                }
                if a == wx && b == wy {
                    assert(after[j as int] == walls@[j as int]);
                }
            }
        }
        j = j + 1;
    }
    assert(walls@.take(j as int) =~= walls@);
    let i = xy2index(SPAWN_X, SPAWN_Y);
    map.set(i, TileType::Floor);
    proof {
        let target = scattered(walls@);
        assert forall|a: int, b: int| in_grid(a, b) implies map@[index_of(a, b)] == target[index_of(a, b)] by {
            lemma_xy_index_round_trip(a, b);
        }
        lemma_grids_equal(map@, target);
    }
    map
}

/// Whatever the walls, a scattered grid keeps its spawn cell as floor and its
/// border as wall.
pub proof fn lemma_scattered_spawn_open(walls: Seq<(i32, i32)>)
    ensures
        scattered(walls).len() == MAP_COUNT,
        scattered(walls)[index_of(SPAWN_X as int, SPAWN_Y as int)] == TileType::Floor,
        border_walled(scattered(walls)),
{
    lemma_xy_index_round_trip(SPAWN_X as int, SPAWN_Y as int);
    assert forall|x: int, y: int| in_grid(x, y) && on_border(x, y) implies #[trigger] scattered(
        walls,
    )[index_of(x, y)] == TileType::Wall by {
        lemma_xy_index_round_trip(x, y);
    }
}

/// Generates a grid with a border of walls and `SCATTER_WALLS` walls dropped at
/// cells drawn from `rng`, each column from `1..=79` and each row from
/// `1..=49`, with the spawn cell left as floor.
pub fn new_map_test_with(rng: &mut rltk::RandomNumberGenerator) -> (r: Vec<TileType>)
    ensures
        exists|walls: Seq<(i32, i32)>|
            {
                &&& walls.len() == SCATTER_WALLS
                &&& forall|j: int|
                    0 <= j < walls.len() ==> 1 <= (#[trigger] walls[j]).0 <= MAP_WIDTH - 1 && 1
                        <= walls[j].1 <= MAP_HEIGHT - 1
                &&& r@ == scattered(walls)
            },
        r@.len() == MAP_COUNT,
        r@[index_of(SPAWN_X as int, SPAWN_Y as int)] == TileType::Floor,
        border_walled(r@),
{
    let mut walls: Vec<(i32, i32)> = Vec::new();
    let mut n: i32 = 0;
    while n < SCATTER_WALLS
        invariant
            0 <= n <= SCATTER_WALLS,
            walls@.len() == n,
            forall|j: int|
                0 <= j < walls@.len() ==> 1 <= (#[trigger] walls@[j]).0 <= 79 && 1 <= walls@[j].1 <= 49,
        decreases SCATTER_WALLS - n,
    {
        let x = roll_dice(rng, 1, MAP_WIDTH - 1);
        let y = roll_dice(rng, 1, MAP_HEIGHT - 1);
        walls.push((x, y));
        n = n + 1;
    }
    let map = scatter_map(&walls);
    proof {
        lemma_scattered_spawn_open(walls@);
    }
    map
}

/// Generates a scattered grid from a freshly seeded generator.
pub fn new_map_test() -> (r: Vec<TileType>)
    ensures
        exists|walls: Seq<(i32, i32)>|
            {
                &&& walls.len() == SCATTER_WALLS
                &&& forall|j: int|
                    0 <= j < walls.len() ==> 1 <= (#[trigger] walls[j]).0 <= MAP_WIDTH - 1 && 1
                        <= walls[j].1 <= MAP_HEIGHT - 1
                &&& r@ == scattered(walls)
            },
        r@.len() == MAP_COUNT,
        r@[index_of(SPAWN_X as int, SPAWN_Y as int)] == TileType::Floor,
        border_walled(r@),
{
    let mut rng = new_rng();
    new_map_test_with(&mut rng)
}

} // verus!
