//! Reconstructing problems from the game's ROM image.

pub mod advance;
pub mod normal;

pub use self::advance::extract_advance_problem;
pub use self::normal::extract_normal_blocks;
pub use self::normal::extract_normal_block_count_target;
pub use self::normal::extract_normal_ground;
pub use self::normal::extract_normal_problem;
