//! Solver for the NES puzzle game Flipull.
//!
//! The library models the 6x6 block grid and the surrounding 8x12 ground
//! map, simulates a throw (chain erasure plus gravity), generates and
//! updates candidate moves, and searches for a minimum-frame-cost move
//! sequence with a branch-and-bound solver.  Problems can be parsed from
//! text or extracted from a game ROM image.

pub mod block;
pub mod bounded_heap;
pub mod error;
pub mod extract;
pub mod cost;
pub mod game_mode;
pub mod ground;
pub mod move_;
pub mod position;
pub mod problem;
pub mod rom;
pub mod solver;
pub mod text;

pub use self::block::Block;
pub use self::block::Blocks;
pub use self::block::BlocksCol;
pub use self::block::BlocksRow;
pub use self::block::BlocksSquare;
pub use self::bounded_heap::BoundedHeap;
pub use self::cost::Cost;
pub use self::cost::COST_INF;
pub use self::cost::calc_hero_move_cost;
pub use self::cost::calc_throw_cost;
pub use self::game_mode::GameMode;
pub use self::ground::Ground;
pub use self::ground::GroundCol;
pub use self::ground::GroundElement;
pub use self::ground::GroundRow;
pub use self::ground::GroundSquare;
pub use self::move_::Move;
pub use self::move_::MoveDirection;
pub use self::move_::Moves;
pub use self::position::Position;
pub use self::problem::Problem;
pub use self::rom::Rom;
pub use self::extract::extract_advance_problem;
pub use self::extract::extract_normal_blocks;
pub use self::extract::extract_normal_block_count_target;
pub use self::extract::extract_normal_ground;
pub use self::extract::extract_normal_problem;
pub use self::error::GameError;
pub use self::solver::SolverArgument;
pub use self::solver::SolverConfig;
pub use self::solver::Solution;
pub use self::solver::solve_problem;
pub use self::text::is_block_char;
