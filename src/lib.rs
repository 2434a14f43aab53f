//! Room-and-corridor dungeon generation over a fixed 80 x 50 tile grid.
//!
//! The grid is a flat buffer of tiles, row after row; `xy2index` and
//! `index2xy` convert between cells and buffer positions. The generators take
//! their random draws from an `rltk::RandomNumberGenerator`; the functions that
//! take the draws as plain values are exact, and the generators are proved to
//! return what those functions give for some draws in range.

mod carve;
mod grid;
mod movement;
mod random;
mod rect;
mod rooms;
mod scatter;

pub use carve::{apply_horizontal_tunnel, apply_room_to_map, apply_vertical_tunnel};
pub use grid::{index2xy, xy2index, TileType, MAP_COUNT, MAP_HEIGHT, MAP_WIDTH};
pub use movement::{shift_left, try_move};
pub use rect::Rect;
pub use rooms::{
    new_map_from_attempts, new_map_rooms_and_corridors, new_map_rooms_and_corridors_with,
    RoomAttempt, MAX_ROOMS, MAX_SIZE, MIN_SIZE,
};
pub use scatter::{new_map_test, new_map_test_with, scatter_map, SCATTER_WALLS, SPAWN_X, SPAWN_Y};
