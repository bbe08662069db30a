//! The two rule variants of the game.

use vstd::prelude::*;

use crate::block::Block;

verus! {

/// The game mode of a problem.
///
/// `Normal` clears a stage by reducing the board to at most a target
/// number of blocks, starts with a wildcard in hand and has no move
/// limit.  `Advance` starts with a fixed held block, allows a fixed
/// number of moves, and its boards never show a wildcard.
#[derive(Clone, Copy, Debug, PartialEq, Eq, Structural)]
pub enum GameMode {
    Normal { block_count_target: u8 },
    Advance { block_holding: Block, move_count_remain: u8 },
}

impl GameMode {
    /// The block held at the start of a stage.
    pub open spec fn spec_block_holding(self) -> Block {
        match self {
            GameMode::Normal { .. } => Block::Wild,
            GameMode::Advance { block_holding, .. } => block_holding,
        }
    }

    /// The remaining block count at or under which a stage counts as
    /// cleared.
    pub open spec fn spec_block_count_target(self) -> u8 {
        match self {
            GameMode::Normal { block_count_target } => block_count_target,
            GameMode::Advance { .. } => 3,
        }
    }

    /// The number of moves available; in `Normal` mode the limit never
    /// binds, so the largest representable count stands in for
    /// infinity.
    pub open spec fn spec_move_count_remain(self) -> u8 {
        match self {
            GameMode::Normal { .. } => 255,
            GameMode::Advance { move_count_remain, .. } => move_count_remain,
        }
    }

    pub fn is_normal(self) -> (r: bool)
        ensures
            r == (self is Normal),
    {
        matches!(self, GameMode::Normal { .. })
    }

    pub fn is_advance(self) -> (r: bool)
        ensures
            r == (self is Advance),
    {
        matches!(self, GameMode::Advance { .. })
    }

    pub fn block_holding(self) -> (r: Block)
        ensures
            r == self.spec_block_holding(),
    {
        match self {
            GameMode::Normal { .. } => Block::Wild,
            GameMode::Advance { block_holding, .. } => block_holding,
        }
    }

    pub fn block_count_target(self) -> (r: u8)
        ensures
            r == self.spec_block_count_target(),
    {
        match self {
            GameMode::Normal { block_count_target } => block_count_target,
            GameMode::Advance { .. } => 3,
        }
    }

    pub fn move_count_remain(self) -> (r: u8)
        ensures
            r == self.spec_move_count_remain(),
    {
        match self {
            GameMode::Normal { .. } => u8::MAX,
            GameMode::Advance { move_count_remain, .. } => move_count_remain,
        }
    }
}

} // verus!
