use rltk::RandomNumberGenerator;
use rogue_map::{
    apply_horizontal_tunnel, apply_room_to_map, apply_vertical_tunnel, index2xy,
    new_map_from_attempts, new_map_rooms_and_corridors, new_map_rooms_and_corridors_with,
    new_map_test, new_map_test_with, scatter_map, shift_left, try_move, xy2index, Rect,
    RoomAttempt, TileType,
    MAP_COUNT, MAX_ROOMS,
};

fn floor_count(map: &[TileType]) -> usize {
    map.iter().filter(|t| **t == TileType::Floor).count()
}

fn center_of(r: &Rect) -> (i32, i32) {
    r.center()
}

fn row_floor(map: &[TileType], x1: i32, x2: i32, y: i32) -> bool {
    (x1.min(x2)..=x1.max(x2)).all(|x| map[xy2index(x, y)] == TileType::Floor)
}

fn column_floor(map: &[TileType], y1: i32, y2: i32, x: i32) -> bool {
    (y1.min(y2)..=y1.max(y2)).all(|y| map[xy2index(x, y)] == TileType::Floor)
}

fn check_layout(rooms: &[Rect], map: &[TileType]) {
    assert_eq!(map.len(), MAP_COUNT);
    assert!(rooms.len() <= 30);
    for r in rooms {
        let w = r.x2 - r.x1;
        let h = r.y2 - r.y1;
        assert!(6 <= w && w < 10);
        assert!(6 <= h && h < 10);
        assert!(0 <= r.x1 && r.x2 <= 78);
        assert!(0 <= r.y1 && r.y2 <= 48);
        for y in r.y1 + 1..=r.y2 {
            for x in r.x1 + 1..=r.x2 {
                assert_eq!(map[xy2index(x, y)], TileType::Floor);
            }
        }
    }
    for i in 0..rooms.len() {
        for j in 0..rooms.len() {
            if i != j {
                assert!(!rooms[i].intersect(&rooms[j]));
            }
        }
    }
    for k in 1..rooms.len() {
        let (px, py) = center_of(&rooms[k - 1]);
        let (nx, ny) = center_of(&rooms[k]);
        let horizontal_first = row_floor(map, px, nx, py) && column_floor(map, py, ny, nx);
        let vertical_first = row_floor(map, px, nx, ny) && column_floor(map, py, ny, px);
        assert!(horizontal_first || vertical_first);
    }
    for x in 0..80 {
        assert_eq!(map[xy2index(x, 0)], TileType::Wall);
        assert_eq!(map[xy2index(x, 49)], TileType::Wall);
    }
    for y in 0..50 {
        assert_eq!(map[xy2index(0, y)], TileType::Wall);
        assert_eq!(map[xy2index(79, y)], TileType::Wall);
    }
}

#[test]
fn coordinates_round_trip() {
    for y in 0..50 {
        for x in 0..80 {
            assert_eq!(index2xy(xy2index(x, y)), (x, y));
        }
    }
    for i in 0..4000usize {
        let (x, y) = index2xy(i);
        assert_eq!(xy2index(x, y), i);
    }
}

#[test]
fn coordinates_exact_values() {
    assert_eq!(xy2index(0, 0), 0);
    assert_eq!(xy2index(3, 2), 163);
    assert_eq!(xy2index(79, 49), 3999);
    assert_eq!(index2xy(0), (0, 0));
    assert_eq!(index2xy(163), (3, 2));
    assert_eq!(index2xy(3999), (79, 49));
}

#[test]
fn rect_new_and_center() {
    let r = Rect::new(2, 3, 6, 7);
    assert_eq!(r, Rect { x1: 2, y1: 3, x2: 8, y2: 10 });
    assert_eq!(r.center(), (5, 6));
    let n = Rect { x1: -3, y1: -6, x2: 0, y2: 1 };
    assert_eq!(n.center(), (-2, -3));
}

#[test]
fn rect_intersect_cases() {
    let a = Rect::new(0, 0, 6, 6);
    let touching = Rect::new(6, 6, 6, 6);
    let apart = Rect::new(7, 0, 6, 6);
    let below = Rect::new(0, 7, 6, 6);
    assert!(a.intersect(&a));
    assert!(a.intersect(&touching));
    assert!(touching.intersect(&a));
    assert!(!a.intersect(&apart));
    assert!(!apart.intersect(&a));
    assert!(!a.intersect(&below));
    assert!(!below.intersect(&a));
}

#[test]
fn room_interior_is_floored() {
    let mut map = vec![TileType::Wall; MAP_COUNT];
    let room = Rect::new(2, 3, 6, 6);
    apply_room_to_map(&room, &mut map);
    assert_eq!(floor_count(&map), 36);
    for y in 0..50 {
        for x in 0..80 {
            let inside = 2 < x && x <= 8 && 3 < y && y <= 9;
            let expected = if inside { TileType::Floor } else { TileType::Wall };
            assert_eq!(map[xy2index(x, y)], expected);
        }
    }
}

#[test]
fn tunnels_carve_inclusive_runs() {
    let mut map = vec![TileType::Wall; MAP_COUNT];
    apply_horizontal_tunnel(&mut map, 10, 5, 7);
    assert_eq!(floor_count(&map), 6);
    assert!(row_floor(&map, 5, 10, 7));
    assert_eq!(map[xy2index(4, 7)], TileType::Wall);
    assert_eq!(map[xy2index(11, 7)], TileType::Wall);
    apply_vertical_tunnel(&mut map, 3, 12, 20);
    assert_eq!(floor_count(&map), 16);
    assert!(column_floor(&map, 3, 12, 20));
    assert_eq!(map[xy2index(20, 2)], TileType::Wall);
    assert_eq!(map[xy2index(20, 13)], TileType::Wall);
}

#[test]
fn attempts_overlap_rejected_and_corridors_carved() {
    let attempts = vec![
        RoomAttempt { x: 2, y: 2, w: 6, h: 6, horizontal_first: true },
        RoomAttempt { x: 5, y: 5, w: 7, h: 7, horizontal_first: true },
        RoomAttempt { x: 30, y: 20, w: 8, h: 6, horizontal_first: true },
        RoomAttempt { x: 60, y: 2, w: 6, h: 9, horizontal_first: false },
    ];
    let (rooms, map) = new_map_from_attempts(&attempts);
    assert_eq!(
        rooms,
        vec![
            Rect { x1: 2, y1: 2, x2: 8, y2: 8 },
            Rect { x1: 30, y1: 20, x2: 38, y2: 26 },
            Rect { x1: 60, y1: 2, x2: 66, y2: 11 },
        ]
    );
    // first link: along row 5 from column 5 to 34, then column 34 from row 5 to 23
    assert!(row_floor(&map, 5, 34, 5));
    assert!(column_floor(&map, 5, 23, 34));
    // second link: along row 6 from column 34 to 63, then column 34 from row 23 to 6
    assert!(row_floor(&map, 34, 63, 6));
    assert!(column_floor(&map, 23, 6, 34));
    // the overlapping attempt floored nothing of its own
    assert_eq!(map[xy2index(12, 12)], TileType::Wall);
    check_layout(&rooms, &map);
}

#[test]
fn no_attempts_give_solid_grid() {
    let (rooms, map) = new_map_from_attempts(&Vec::new());
    assert!(rooms.is_empty());
    assert_eq!(map.len(), MAP_COUNT);
    assert_eq!(floor_count(&map), 0);
}

#[test]
fn seeded_generation_keeps_layout() {
    for seed in 0..20u64 {
        let mut rng = RandomNumberGenerator::seeded(seed);
        let (rooms, map) = new_map_rooms_and_corridors_with(&mut rng);
        assert!(!rooms.is_empty());
        check_layout(&rooms, &map);
    }
}

#[test]
fn seeded_generation_is_deterministic() {
    let mut a = RandomNumberGenerator::seeded(42);
    let mut b = RandomNumberGenerator::seeded(42);
    let (rooms_a, map_a) = new_map_rooms_and_corridors_with(&mut a);
    let (rooms_b, map_b) = new_map_rooms_and_corridors_with(&mut b);
    assert_eq!(rooms_a, rooms_b);
    assert_eq!(map_a, map_b);
}

#[test]
fn room_count_at_most_max_rooms() {
    assert_eq!(MAX_ROOMS, 30);
    for _ in 0..10 {
        let (rooms, map) = new_map_rooms_and_corridors();
        assert!(rooms.len() <= 30);
        check_layout(&rooms, &map);
    }
}

#[test]
fn scatter_map_exact() {
    let walls = vec![(3, 4), (40, 25), (79, 10), (3, 4)];
    let map = scatter_map(&walls);
    assert_eq!(map.len(), MAP_COUNT);
    assert_eq!(map[xy2index(3, 4)], TileType::Wall);
    assert_eq!(map[xy2index(40, 25)], TileType::Floor);
    assert_eq!(map[xy2index(79, 10)], TileType::Wall);
    assert_eq!(map[xy2index(4, 4)], TileType::Floor);
    // 78 * 48 inner cells, less the single listed inner wall
    assert_eq!(floor_count(&map), 78 * 48 - 1);
}

#[test]
fn scatter_spawn_is_floor() {
    for seed in 0..20u64 {
        let mut rng = RandomNumberGenerator::seeded(seed);
        let map = new_map_test_with(&mut rng);
        assert_eq!(map[xy2index(40, 25)], TileType::Floor);
        assert_eq!(map[xy2index(0, 0)], TileType::Wall);
    }
    let map = new_map_test();
    assert_eq!(map[xy2index(40, 25)], TileType::Floor);
}

#[test]
fn moves_stop_at_walls_and_edges() {
    let mut map = vec![TileType::Wall; MAP_COUNT];
    let room = Rect::new(0, 0, 6, 6);
    apply_room_to_map(&room, &mut map);
    // floor at columns 1..=6, rows 1..=6
    assert_eq!(try_move(&map, 3, 3, 1, 0), (4, 3));
    assert_eq!(try_move(&map, 6, 3, 1, 0), (6, 3));
    assert_eq!(try_move(&map, 1, 1, -1, 0), (1, 1));
    assert_eq!(try_move(&map, 3, 3, 0, -1), (3, 2));
    let open = vec![TileType::Floor; MAP_COUNT];
    assert_eq!(try_move(&open, 0, 0, -1, -1), (0, 0));
    assert_eq!(try_move(&open, 79, 49, 1, 1), (79, 49));
    assert_eq!(try_move(&open, 78, 48, 5, 0), (79, 48));
}

#[test]
fn shift_left_wraps() {
    assert_eq!(shift_left(5), 4);
    assert_eq!(shift_left(1), 0);
    assert_eq!(shift_left(0), 79);
}
