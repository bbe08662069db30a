//! A game snapshot: thrower row, board, held block, moves remaining.

use vstd::prelude::*;

use crate::block::{
    Block, Blocks, bs_valid, mv_dcol, mv_didx, mv_drow, occ_count, on_future, spec_do_move,
    spec_legal_moves, spec_move_wf, spec_update_moves, lemma_on_future_bound,
};
use crate::cost::{
    Cost, calc_hero_move_cost, calc_throw_cost, lemma_throw_cost_defined, spec_hero_move_cost,
    spec_throw_cost, spec_throw_cost_defined,
};
use crate::ground::GroundRow;
use crate::move_::{Move, Moves, moves_view};

verus! {

/// The throw cost of a well-formed legal move is tabulated: the last
/// square its block passes lies on the move's trajectory, and every
/// square of that trajectory is in the cost table for the move's
/// origin row.
pub proof fn lemma_move_cost_defined(s: Seq<Option<Block>>, mv: Move, last: int)
    requires
        spec_move_wf(mv),
        bs_valid(mv_dcol(mv), mv_drow(mv)),
        1 <= mv.spec_src().spec_inner() <= 12,
        0 <= last < 64,
        on_future(Some((mv_dcol(mv), mv_drow(mv), mv.spec_dir())), last % 8, last / 8),
    ensures
        spec_throw_cost_defined(mv.spec_src().spec_inner(), last as u8),
{
    lemma_on_future_bound(mv_dcol(mv), mv_drow(mv), mv.spec_dir(), last % 8, last / 8);
}

/// A game snapshot.
#[derive(Debug, PartialEq, Eq)]
pub struct Position {
    pub(crate) hero_row: GroundRow,
    pub(crate) blocks: Blocks,
    pub(crate) block_holding: Block,
    pub(crate) move_count_remain: u8,
}

impl Clone for Position {
    fn clone(&self) -> (r: Position)
        ensures
            r.spec_hero_row() == self.spec_hero_row(),
            r.spec_blocks()@ == self.spec_blocks()@,
            r.spec_block_holding() == self.spec_block_holding(),
            r.spec_move_count_remain() == self.spec_move_count_remain(),
    {
        Position {
            hero_row: self.hero_row,
            blocks: self.blocks.clone(),
            block_holding: self.block_holding,
            move_count_remain: self.move_count_remain,
        }
    }
}

impl Position {
    pub open(crate) spec fn spec_hero_row(self) -> GroundRow {
        self.hero_row
    }

    pub open(crate) spec fn spec_blocks(self) -> Blocks {
        self.blocks
    }

    pub open(crate) spec fn spec_block_holding(self) -> Block {
        self.block_holding
    }

    pub open(crate) spec fn spec_move_count_remain(self) -> u8 {
        self.move_count_remain
    }

    /// A fresh position: the thrower starts at the bottom row.
    pub fn new(blocks: Blocks, block_holding: Block, move_count_remain: u8) -> (r: Position)
        ensures
            r.spec_hero_row().spec_inner() == 12,
            r.spec_blocks() == blocks,
            r.spec_block_holding() == block_holding,
            r.spec_move_count_remain() == move_count_remain,
    {
        Position {
            hero_row: GroundRow { v: 12 },
            blocks,
            block_holding,
            move_count_remain,
        }
    }

    pub fn hero_row(&self) -> (r: GroundRow)
        ensures
            r == self.spec_hero_row(),
    {
        self.hero_row
    }

    pub fn blocks(&self) -> (r: &Blocks)
        ensures
            *r == self.spec_blocks(),
    {
        &self.blocks
    }

    pub fn block_holding(&self) -> (r: Block)
        ensures
            r == self.spec_block_holding(),
    {
        self.block_holding
    }

    pub fn move_count_remain(&self) -> (r: u8)
        ensures
            r == self.spec_move_count_remain(),
    {
        self.move_count_remain
    }

    /// The number of blocks on the board.
    pub fn block_count(&self) -> (r: u8)
        ensures
            r as int == occ_count(self.spec_blocks()@),
    {
        self.blocks.block_count()
    }

    /// Rebinds candidate moves against this position's board.
    pub fn update_moves(&self, moves: &[Move]) -> (r: Moves)
        requires
            moves@.len() <= 12,
        ensures
            moves_view(r) == spec_update_moves(self.spec_blocks()@, moves@),
    {
        self.blocks.update_moves(moves)
    }

    /// The legal moves against this position's board and held block.
    pub fn legal_moves(&self, moves: &[Move]) -> (r: Moves)
        requires
            moves@.len() <= 12,
            forall|i: int|
                0 <= i < moves@.len() ==> self.spec_blocks()@[mv_didx(#[trigger] moves@[i])]
                    is Some,
        ensures
            moves_view(r) == spec_legal_moves(
                self.spec_blocks()@,
                moves@,
                self.spec_block_holding(),
            ),
    {
        self.blocks.legal_moves(moves, self.block_holding)
    }

    /// True when `mv`'s destination holds a block the held one can
    /// erase.
    pub fn is_legal_move(&self, mv: Move) -> (r: bool)
        ensures
            r == (self.spec_blocks()@[mv_didx(mv)] is Some && self.spec_block_holding(
            ).spec_can_erase(self.spec_blocks()@[mv_didx(mv)].unwrap())),
    {
        self.blocks.is_legal_move(mv, self.block_holding)
    }

    /// Performs the legal, well-formed move `mv` and returns the next
    /// position, the thrower-movement cost, the throw cost, and the
    /// number of erased blocks.  The thrower moves to the throw's
    /// origin row and one move is spent.
    pub fn do_move(&self, mv: Move) -> (r: (Position, Cost, Cost, u8))
        requires
            self.spec_move_count_remain() >= 1,
            self.spec_blocks()@[mv_didx(mv)] is Some,
            self.spec_block_holding().spec_can_erase(self.spec_blocks()@[mv_didx(mv)].unwrap()),
            spec_move_wf(mv),
        ensures
            ({
                let (rb, rh, rl, rc) = spec_do_move(
                    self.spec_blocks()@,
                    mv_dcol(mv),
                    mv_drow(mv),
                    mv.spec_dir(),
                    self.spec_block_holding(),
                );
                &&& r.0.spec_hero_row() == mv.spec_src()
                &&& r.0.spec_blocks()@ == rb
                &&& r.0.spec_block_holding() == rh
                &&& r.0.spec_move_count_remain() == self.spec_move_count_remain() - 1
                &&& r.1 as int == spec_hero_move_cost(
                    self.spec_hero_row().spec_inner() as int,
                    mv.spec_src().spec_inner() as int,
                )
                &&& r.2 == spec_throw_cost(mv.spec_src().spec_inner(), rl as u8)
                &&& 1 <= r.2
                &&& r.3 as int == rc
                &&& 1 <= rc
                &&& occ_count(r.0.spec_blocks()@) == occ_count(self.spec_blocks()@) - rc
            }),
    {
        proof {
            use_type_invariant(&self.blocks);
            use_type_invariant(mv.dst);
            use_type_invariant(mv.src);
        }
        let cost_hero_move = calc_hero_move_cost(self.hero_row, mv.src());

        let hero_row = mv.src();
        let (blocks, block_holding, sq_last, erase_count) = self.blocks.do_move(
            mv,
            self.block_holding,
        );
        let move_count_remain = self.move_count_remain - 1;

        proof {
            use_type_invariant(sq_last);
            lemma_move_cost_defined(self.blocks@, mv, sq_last.spec_inner() as int);
            lemma_throw_cost_defined(mv.spec_src().spec_inner(), sq_last.spec_inner());
        }
        let cost_throw = calc_throw_cost(mv.src(), sq_last);

        let pos = Position { hero_row, blocks, block_holding, move_count_remain };

        (pos, cost_hero_move, cost_throw, erase_count)
    }
}

} // verus!
