use crate::carve::{
    apply_horizontal_tunnel, apply_room_to_map, apply_vertical_tunnel, column_cells, room_cells,
    row_cells,
};
use crate::grid::{
    border_walled, floors_kept, in_grid, index_of, lemma_floors_kept_trans, lemma_paint_all, on_border,
    paint, TileType, MAP_COUNT, MAP_HEIGHT, MAP_WIDTH,
};
use crate::random::{new_rng, range, roll_dice};
use crate::rect::Rect;
use vstd::prelude::*;

verus! {

/// Number of placement attempts made by the room generator.
pub const MAX_ROOMS: i32 = 30;

/// Smallest room width and height.
pub const MIN_SIZE: i32 = 6;

/// Bound, exclusive, on room width and height.
pub const MAX_SIZE: i32 = 10;

/// The values drawn for one placement attempt: the room's corner `(x, y)`, its
/// size `w` by `h`, and, should it be linked to an earlier room, whether the
/// corridor runs horizontally first.
#[derive(PartialEq, Eq, Structural, Clone, Copy, Debug)]
pub struct RoomAttempt {
    pub x: i32,
    pub y: i32,
    pub w: i32,
    pub h: i32,
    pub horizontal_first: bool,
}

impl RoomAttempt {
    /// The values lie in the ranges they are drawn from: the size in
    /// `[MIN_SIZE, MAX_SIZE)` and the corner so that the room, with its wall
    /// margin, stays off the outermost rows and columns.
    pub open spec fn drawn_in_range(self) -> bool {
        &&& MIN_SIZE <= self.w < MAX_SIZE
        &&& MIN_SIZE <= self.h < MAX_SIZE
        &&& 0 <= self.x <= MAP_WIDTH - 2 - self.w
        &&& 0 <= self.y <= MAP_HEIGHT - 2 - self.h
    }

    /// The room this attempt proposes.
    pub open spec fn room(self) -> Rect {
        Rect { x1: self.x, y1: self.y, x2: (self.x + self.w) as i32, y2: (self.y + self.h) as i32 }
    }
}

/// A grid of walls only.
pub open spec fn solid_grid() -> Seq<TileType> {
    Seq::new(4000, |i: int| TileType::Wall)
}

/// `room` overlaps none of `rooms`.
pub open spec fn fits(rooms: Seq<Rect>, room: Rect) -> bool {
    forall|j: int| 0 <= j < rooms.len() ==> !room.overlaps(#[trigger] rooms[j])
}

/// `m` with an L-shaped corridor carved from the center of `prev` to the center
/// of `next`: along the row of `prev`'s center and then the column of `next`'s,
/// or else along the column of `prev`'s center and then the row of `next`'s.
pub open spec fn corridor(m: Seq<TileType>, prev: Rect, next: Rect, horizontal_first: bool) -> Seq<
    TileType,
> {
    let (px, py) = prev.spec_center();
    let (nx, ny) = next.spec_center();
    if horizontal_first {
        paint(paint(m, row_cells(px, nx, py)), column_cells(py, ny, nx))
    } else {
        paint(paint(m, row_cells(px, nx, ny)), column_cells(py, ny, px))
    }
}

/// Rooms and grid once `room` is accepted: its interior is floored, a corridor
/// links it to the last room placed before it, if any, and it joins the list.
pub open spec fn accepted(rooms: Seq<Rect>, m: Seq<TileType>, room: Rect, horizontal_first: bool) -> (
    Seq<Rect>,
    Seq<TileType>,
) {
    let floored = paint(m, room_cells(room));
    if rooms.len() == 0 {
        (rooms.push(room), floored)
    } else {
        (rooms.push(room), corridor(floored, rooms.last(), room, horizontal_first))
    }
}

/// One placement attempt: the proposed room is accepted unless it overlaps a
/// room already placed, in which case nothing changes.
pub open spec fn step(rooms: Seq<Rect>, m: Seq<TileType>, a: RoomAttempt) -> (Seq<Rect>, Seq<TileType>) {
    if fits(rooms, a.room()) {
        accepted(rooms, m, a.room(), a.horizontal_first)
    } else {
        (rooms, m)
    }
}

/// Rooms and grid after the attempts `attempts`, in order, starting from no
/// rooms and a grid of walls.
pub open spec fn generated(attempts: Seq<RoomAttempt>) -> (Seq<Rect>, Seq<TileType>)
    decreases attempts.len(),
{
    if attempts.len() == 0 {
        (Seq::empty(), solid_grid())
    } else {
        let prior = generated(attempts.drop_last());
        step(prior.0, prior.1, attempts.last())
    }
}

/// A room that a valid attempt can propose: its size in `[MIN_SIZE, MAX_SIZE)`
/// and its walls on columns `0..=78` and rows `0..=48`.
pub open spec fn room_in_bounds(r: Rect) -> bool {
    &&& MIN_SIZE <= r.x2 - r.x1 < MAX_SIZE
    &&& MIN_SIZE <= r.y2 - r.y1 < MAX_SIZE
    &&& 0 <= r.x1
    &&& r.x2 <= MAP_WIDTH - 2
    &&& 0 <= r.y1
    &&& r.y2 <= MAP_HEIGHT - 2
}

/// Every cell of row `y` between columns `x1` and `x2` is floor in `m`.
pub open spec fn row_is_floor(m: Seq<TileType>, x1: int, x2: int, y: int) -> bool {
    forall|x: int| (x1 <= x <= x2 || x2 <= x <= x1) ==> #[trigger] m[index_of(x, y)] == TileType::Floor
}

/// Every cell of column `x` between rows `y1` and `y2` is floor in `m`.
pub open spec fn column_is_floor(m: Seq<TileType>, y1: int, y2: int, x: int) -> bool {
    forall|y: int| (y1 <= y <= y2 || y2 <= y <= y1) ==> #[trigger] m[index_of(x, y)] == TileType::Floor
}

/// A floor path of one row run and one column run joins the center of `prev`
/// to the center of `next`.
pub open spec fn linked(m: Seq<TileType>, prev: Rect, next: Rect) -> bool {
    let (px, py) = prev.spec_center();
    let (nx, ny) = next.spec_center();
    ||| row_is_floor(m, px, nx, py) && column_is_floor(m, py, ny, nx)
    ||| row_is_floor(m, px, nx, ny) && column_is_floor(m, py, ny, px)
}

/// Every interior cell of every room is floor in `m`.
pub open spec fn interiors_floored(rooms: Seq<Rect>, m: Seq<TileType>) -> bool {
    forall|k: int, x: int, y: int|
        #![trigger rooms[k], m[index_of(x, y)]]
        0 <= k < rooms.len() && rooms[k].x1 < x <= rooms[k].x2 && rooms[k].y1 < y <= rooms[k].y2
            ==> m[index_of(x, y)] == TileType::Floor
}

/// Each room after the first is linked to the one placed before it.
pub open spec fn consecutive_linked(rooms: Seq<Rect>, m: Seq<TileType>) -> bool {
    forall|k: int| 0 < k < rooms.len() ==> linked(m, rooms[k - 1], #[trigger] rooms[k])
}

/// No two rooms overlap.
pub open spec fn pairwise_apart(rooms: Seq<Rect>) -> bool {
    forall|i: int, j: int|
        0 <= i < rooms.len() && 0 <= j < rooms.len() && i != j ==> !(#[trigger] rooms[i]).overlaps(
            #[trigger] rooms[j],
        )
}

/// What a generated layout guarantees: a full grid, rooms in bounds and apart,
/// room interiors floored, consecutive rooms linked by a corridor, and the
/// border left as wall.
pub open spec fn layout_ok(rooms: Seq<Rect>, m: Seq<TileType>) -> bool {
    &&& m.len() == MAP_COUNT
    &&& forall|k: int| 0 <= k < rooms.len() ==> room_in_bounds(#[trigger] rooms[k])
    &&& pairwise_apart(rooms)
    &&& interiors_floored(rooms, m)
    &&& consecutive_linked(rooms, m)
    &&& border_walled(m)
}

proof fn lemma_center_in_bounds(r: Rect)
    requires
        room_in_bounds(r),
    ensures
        3 <= r.spec_center().0 <= 75,
        3 <= r.spec_center().1 <= 45,
{
}

/// Floor that is kept keeps rooms floored and corridors open.
proof fn lemma_layout_floors_carry(rooms: Seq<Rect>, m1: Seq<TileType>, m2: Seq<TileType>)
    requires
        forall|k: int| 0 <= k < rooms.len() ==> room_in_bounds(#[trigger] rooms[k]),
        interiors_floored(rooms, m1),
        consecutive_linked(rooms, m1),
        floors_kept(m1, m2),
    ensures
        interiors_floored(rooms, m2),
        consecutive_linked(rooms, m2),
{
    assert forall|k: int, x: int, y: int|
        #![trigger rooms[k], m2[index_of(x, y)]]
        0 <= k < rooms.len() && rooms[k].x1 < x <= rooms[k].x2 && rooms[k].y1 < y
            <= rooms[k].y2 implies m2[index_of(x, y)] == TileType::Floor by {
        assert(room_in_bounds(rooms[k]));
        assert(m1[index_of(x, y)] == TileType::Floor);
    }
    assert forall|k: int| 0 < k < rooms.len() implies linked(m2, rooms[k - 1], #[trigger] rooms[k]) by {
        let prev = rooms[k - 1];
        let next = rooms[k];
        assert(room_in_bounds(prev));
        assert(room_in_bounds(next));
        lemma_center_in_bounds(prev);
        lemma_center_in_bounds(next);
        let (px, py) = prev.spec_center();
        let (nx, ny) = next.spec_center();
        assert(linked(m1, prev, next));
        if row_is_floor(m1, px, nx, py) && column_is_floor(m1, py, ny, nx) {
            assert forall|x: int| (px <= x <= nx || nx <= x <= px) implies #[trigger] m2[index_of(x, py)]
                == TileType::Floor by {
                assert(m1[index_of(x, py)] == TileType::Floor);
            }
            assert forall|y: int| (py <= y <= ny || ny <= y <= py) implies #[trigger] m2[index_of(nx, y)]
                == TileType::Floor by {
                assert(m1[index_of(nx, y)] == TileType::Floor);
            }
        } else {
            assert forall|x: int| (px <= x <= nx || nx <= x <= px) implies #[trigger] m2[index_of(x, ny)]
                == TileType::Floor by {
                assert(m1[index_of(x, ny)] == TileType::Floor);
            }
            assert forall|y: int| (py <= y <= ny || ny <= y <= py) implies #[trigger] m2[index_of(px, y)]
                == TileType::Floor by {
                assert(m1[index_of(px, y)] == TileType::Floor);
            }
        }
    }
}

proof fn lemma_accepted_layout(rooms: Seq<Rect>, m: Seq<TileType>, room: Rect, horizontal_first: bool)
    requires
        layout_ok(rooms, m),
        room_in_bounds(room),
        fits(rooms, room),
    ensures
        layout_ok(accepted(rooms, m, room, horizontal_first).0, accepted(rooms, m, room, horizontal_first).1),
        floors_kept(m, accepted(rooms, m, room, horizontal_first).1),
{
    let (rooms2, m2) = accepted(rooms, m, room, horizontal_first);
    let cells = room_cells(room);
    let floored = paint(m, cells);
    lemma_paint_all(m, cells);
    assert(forall|x: int, y: int| in_grid(x, y) && cells(x, y) ==> !on_border(x, y));
    if rooms.len() == 0 {
        assert(m2 == floored);
    } else {
        let prev = rooms.last();
        assert(room_in_bounds(prev));
        lemma_center_in_bounds(prev);
        lemma_center_in_bounds(room);
        let (px, py) = prev.spec_center();
        let (nx, ny) = room.spec_center();
        let first = if horizontal_first { row_cells(px, nx, py) } else { row_cells(px, nx, ny) };
        let second = if horizontal_first { column_cells(py, ny, nx) } else { column_cells(py, ny, px) };
        let mid = paint(floored, first);
        lemma_paint_all(floored, first);
        lemma_paint_all(mid, second);
        assert(m2 == paint(mid, second));
        lemma_floors_kept_trans(m, floored, mid);
        lemma_floors_kept_trans(m, mid, m2);
        assert(forall|x: int, y: int| in_grid(x, y) && (first(x, y) || second(x, y)) ==> !on_border(x, y));
        if horizontal_first {
            assert forall|x: int| (px <= x <= nx || nx <= x <= px) implies #[trigger] m2[index_of(x, py)]
                == TileType::Floor by {
                assert(first(x, py));
            }
            assert forall|y: int| (py <= y <= ny || ny <= y <= py) implies #[trigger] m2[index_of(nx, y)]
                == TileType::Floor by {
                assert(second(nx, y));
            }
        } else {
            assert forall|x: int| (px <= x <= nx || nx <= x <= px) implies #[trigger] m2[index_of(x, ny)]
                == TileType::Floor by {
                assert(first(x, ny));
            }
            assert forall|y: int| (py <= y <= ny || ny <= y <= py) implies #[trigger] m2[index_of(px, y)]
                == TileType::Floor by {
                assert(second(px, y));
            }
        }
        assert(linked(m2, prev, room));
    }
    lemma_layout_floors_carry(rooms, m, m2);
    assert(rooms2 == rooms.push(room));
    assert forall|k: int| 0 < k < rooms2.len() implies linked(m2, rooms2[k - 1], #[trigger] rooms2[k]) by {
        if k < rooms.len() {
            assert(rooms2[k - 1] == rooms[k - 1] && rooms2[k] == rooms[k]);
        } else {
            assert(rooms2[k - 1] == rooms.last());
        }
    }
    assert forall|k: int, x: int, y: int|
        #![trigger rooms2[k], m2[index_of(x, y)]]
        0 <= k < rooms2.len() && rooms2[k].x1 < x <= rooms2[k].x2 && rooms2[k].y1 < y
            <= rooms2[k].y2 implies m2[index_of(x, y)] == TileType::Floor by {
        if k < rooms.len() {
            assert(rooms2[k] == rooms[k]);
        } else {
            assert(cells(x, y));
            assert(floored[index_of(x, y)] == TileType::Floor);
        }
    }
    assert forall|i: int, j: int|
        0 <= i < rooms2.len() && 0 <= j < rooms2.len() && i != j implies !(#[trigger] rooms2[i]).overlaps(
        #[trigger] rooms2[j],
    ) by {
        if i == rooms.len() {
            assert(!room.overlaps(rooms[j]));
        } else if j == rooms.len() {
            assert(!room.overlaps(rooms[i]));
        } else {
            assert(rooms2[i] == rooms[i] && rooms2[j] == rooms[j]);
        }
    }
}

/// Whatever values are drawn within their ranges, the generated layout holds
/// at most one room per attempt, every room is in bounds, no two rooms overlap,
/// every room's interior is floor, each room after the first is joined to the
/// one before it by a floor path of at most two straight runs, and the border
/// stays wall.
pub proof fn lemma_generated_layout(attempts: Seq<RoomAttempt>)
    requires
        forall|k: int| 0 <= k < attempts.len() ==> (#[trigger] attempts[k]).drawn_in_range(),
    ensures
        generated(attempts).0.len() <= attempts.len(),
        layout_ok(generated(attempts).0, generated(attempts).1),
    decreases attempts.len(),
{
    if attempts.len() == 0 {
        let m = solid_grid();
        assert(border_walled(m));
    } else {
        let prior_attempts = attempts.drop_last();
        assert forall|k: int| 0 <= k < prior_attempts.len() implies (
        #[trigger] prior_attempts[k]).drawn_in_range() by {
            assert(prior_attempts[k] == attempts[k]);
        }
        lemma_generated_layout(prior_attempts);
        let (rooms, m) = generated(prior_attempts);
        let a = attempts.last();
        assert(a.drawn_in_range());
        if fits(rooms, a.room()) {
            lemma_accepted_layout(rooms, m, a.room(), a.horizontal_first);
        }
    }
}

/// Whether `room` overlaps none of `rooms`.
fn room_fits(rooms: &Vec<Rect>, room: &Rect) -> (r: bool)
    ensures
        r == fits(rooms@, *room),
{
    let mut j: usize = 0;
    while j < rooms.len()
        invariant
            j <= rooms@.len(),
            forall|k: int| 0 <= k < j ==> !room.overlaps(#[trigger] rooms@[k]),
        decreases rooms@.len() - j,
    {
        if room.intersect(&rooms[j]) {
            return false;
        }
        j = j + 1;
    }
    true
}

/// Accepts `room`: floors its interior, links it to the last room placed, if
/// any, and appends it to `rooms`.
fn place_room(rooms: &mut Vec<Rect>, map: &mut Vec<TileType>, room: Rect, horizontal_first: bool)
    requires
        old(map)@.len() == MAP_COUNT,
        room_in_bounds(room),
        forall|k: int| 0 <= k < old(rooms)@.len() ==> room_in_bounds(#[trigger] old(rooms)@[k]),
    ensures
        (final(rooms)@, final(map)@) == accepted(old(rooms)@, old(map)@, room, horizontal_first),
{
    apply_room_to_map(&room, map.as_mut_slice());
    if rooms.len() > 0 {
        let prev = rooms[rooms.len() - 1];
        assert(room_in_bounds(prev));
        let (new_x, new_y) = room.center();
        let (prev_x, prev_y) = prev.center();
        if horizontal_first {
            apply_horizontal_tunnel(map.as_mut_slice(), prev_x, new_x, prev_y);
            apply_vertical_tunnel(map.as_mut_slice(), prev_y, new_y, new_x);
        } else {
            apply_horizontal_tunnel(map.as_mut_slice(), prev_x, new_x, new_y);
            apply_vertical_tunnel(map.as_mut_slice(), prev_y, new_y, prev_x);
        }
    }
    rooms.push(room);
}

/// A grid of walls only.
fn solid_map() -> (r: Vec<TileType>)
    ensures
        r@ == solid_grid(),
{
    let mut map: Vec<TileType> = Vec::new();
    while map.len() < MAP_COUNT
        invariant
            map@.len() <= 4000,
            forall|i: int| 0 <= i < map@.len() ==> map@[i] == TileType::Wall,
        decreases 4000 - map@.len(),
    {
        map.push(TileType::Wall);
    }
    assert(map@ =~= solid_grid());
    map
}

/// Runs the placement attempts `attempts` in order, from no rooms and a grid of
/// walls, and returns the rooms accepted, in order, and the grid.
pub fn new_map_from_attempts(attempts: &Vec<RoomAttempt>) -> (r: (Vec<Rect>, Vec<TileType>))
    requires
        forall|k: int| 0 <= k < attempts@.len() ==> (#[trigger] attempts@[k]).drawn_in_range(),
    ensures
        (r.0@, r.1@) == generated(attempts@),
        r.0@.len() <= attempts@.len(),
        layout_ok(r.0@, r.1@),
{
    let mut map = solid_map();
    let mut rooms: Vec<Rect> = Vec::new();
    let mut i: usize = 0;
    while i < attempts.len()
        invariant
            i <= attempts@.len(),
            forall|k: int| 0 <= k < attempts@.len() ==> (#[trigger] attempts@[k]).drawn_in_range(),
            (rooms@, map@) == generated(attempts@.take(i as int)),
            map@.len() == 4000,
            forall|k: int| 0 <= k < rooms@.len() ==> room_in_bounds(#[trigger] rooms@[k]),
        decreases attempts@.len() - i,
    {
        let a = attempts[i];
        assert(attempts@.take(i + 1).drop_last() =~= attempts@.take(i as int));
        let new_room = Rect::new(a.x, a.y, a.w, a.h);
        if room_fits(&rooms, &new_room) {
            place_room(&mut rooms, &mut map, new_room, a.horizontal_first);
        }
        i = i + 1;
    }
    assert(attempts@.take(i as int) =~= attempts@);
    proof {
        lemma_generated_layout(attempts@);
    }
    (rooms, map)
}

/// Generates a map of rooms and corridors, drawing from `rng`. Each of
/// `MAX_ROOMS` attempts draws a width, a height, then a corner; a room that
/// overlaps none placed before is accepted, and each accepted room after the
/// first draws the orientation of the corridor that links it to its
/// predecessor. The result is what those draws give.
pub fn new_map_rooms_and_corridors_with(rng: &mut rltk::RandomNumberGenerator) -> (r: (
    Vec<Rect>,
    Vec<TileType>,
))
    ensures
        exists|attempts: Seq<RoomAttempt>|
            {
                &&& attempts.len() == MAX_ROOMS
                &&& forall|k: int| 0 <= k < attempts.len() ==> (#[trigger] attempts[k]).drawn_in_range()
                &&& (r.0@, r.1@) == generated(attempts)
            },
        r.0@.len() <= MAX_ROOMS,
        layout_ok(r.0@, r.1@),
{
    let mut map = solid_map();
    let mut rooms: Vec<Rect> = Vec::new();
    let ghost mut attempts: Seq<RoomAttempt> = Seq::empty();
    let mut i: i32 = 0;
    while i < MAX_ROOMS
        invariant
            0 <= i <= MAX_ROOMS,
            attempts.len() == i,
            forall|k: int| 0 <= k < attempts.len() ==> (#[trigger] attempts[k]).drawn_in_range(),
            (rooms@, map@) == generated(attempts),
            map@.len() == 4000,
            forall|k: int| 0 <= k < rooms@.len() ==> room_in_bounds(#[trigger] rooms@[k]),
        decreases MAX_ROOMS - i,
    {
        let w = range(rng, MIN_SIZE, MAX_SIZE);
        let h = range(rng, MIN_SIZE, MAX_SIZE);
        let x = roll_dice(rng, 1, MAP_WIDTH - w - 1) - 1;
        let y = roll_dice(rng, 1, MAP_HEIGHT - h - 1) - 1;
        let new_room = Rect::new(x, y, w, h);
        let mut horizontal_first = false;
        if room_fits(&rooms, &new_room) {
            if !rooms.is_empty() {
                horizontal_first = range(rng, 0, 2) == 1;
            }
            place_room(&mut rooms, &mut map, new_room, horizontal_first);
        }
        proof {
            let a = RoomAttempt { x, y, w, h, horizontal_first };
            assert(attempts.push(a).drop_last() =~= attempts);
            attempts = attempts.push(a);
        }
        i = i + 1;
    }
    proof {
        lemma_generated_layout(attempts);
    }
    (rooms, map)
}

/// Generates a map of rooms and corridors from a freshly seeded generator.
pub fn new_map_rooms_and_corridors() -> (r: (Vec<Rect>, Vec<TileType>))
    ensures
        exists|attempts: Seq<RoomAttempt>|
            {
                &&& attempts.len() == MAX_ROOMS
                &&& forall|k: int| 0 <= k < attempts.len() ==> (#[trigger] attempts[k]).drawn_in_range()
                &&& (r.0@, r.1@) == generated(attempts)
            },
        r.0@.len() <= MAX_ROOMS,
        layout_ok(r.0@, r.1@),
{
    let mut rng = new_rng();
    new_map_rooms_and_corridors_with(&mut rng)
}

} // verus!
