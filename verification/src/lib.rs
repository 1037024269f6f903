//! The per-turn decision engine of a snake on a bounded grid.
//!
//! `grid` holds the board and the queries on it, `safety` the filter that
//! tells which of the four moves are legal now, `path` the shortest-route
//! search toward food or the own tail, and `logic` the selector that joins
//! the two into one move.

pub mod grid;
pub mod logic;
pub mod path;
pub mod safety;

pub use crate::grid::{
    is_obstacle, without_tail, Battlesnake, Board, BoardView, Coord, Direction, Game, GameState, Point, SnakeView,
};
pub use crate::logic::{choose_move, get_move, get_move_seeded, planned_move};
pub use crate::path::{
    directions_along, find_nearest_food_astar, find_path, heading_between, nearer, nearest_of, obstacles,
    open_neighbours, suggested_best_move, Terrain,
};
pub use crate::safety::{prevent_backwards, safety_filter, MoveSafety};
