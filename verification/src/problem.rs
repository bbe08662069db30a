//! A puzzle instance: game mode, ground map, and initial board.

use vstd::prelude::*;

use crate::block::{Block, Blocks};
use crate::error::GameError;
use crate::game_mode::GameMode;
use crate::ground::{Ground, GroundCol, GroundElement, GroundRow, GroundSquare, ground_index};

verus! {

/// A valid ground map: the left five columns of the block area hold no
/// wall or pipe, and every wall rests on the map's edge or on another
/// wall.
pub open spec fn spec_ground_valid(g: Seq<Option<GroundElement>>) -> bool {
    &&& forall|c: int, r: int|
        1 <= c <= 5 && 7 <= r <= 12 ==> #[trigger] g[ground_index(c, r)] is None
    &&& forall|c: int, r: int|
        1 <= c <= 8 && 2 <= r <= 12 && #[trigger] g[ground_index(c, r)] == Some(
            GroundElement::Wall,
        ) ==> g[ground_index(c, r - 1)] == Some(GroundElement::Wall)
}

/// A board without a wildcard, as `Advance` mode requires.
pub open spec fn spec_no_wild(s: Seq<Option<Block>>) -> bool {
    forall|i: int| 0 <= i < 64 ==> s[i] != Some(Block::Wild)
}

/// A puzzle instance.  Construction validates the ground map, and in
/// `Advance` mode the absence of wildcards.
#[derive(Debug)]
pub struct Problem {
    pub(crate) game_mode: GameMode,
    pub(crate) ground: Ground,
    pub(crate) blocks: Blocks,
}

impl Problem {
    pub open(crate) spec fn spec_game_mode(self) -> GameMode {
        self.game_mode
    }

    pub open(crate) spec fn spec_ground(self) -> Ground {
        self.ground
    }

    pub open(crate) spec fn spec_blocks(self) -> Blocks {
        self.blocks
    }

    /// A `Normal`-mode problem; fails when the ground map breaks its
    /// invariant.
    pub fn new_normal(ground: Ground, blocks: Blocks, block_count_target: u8) -> (r: Result<
        Problem,
        GameError,
    >)
        ensures
            r is Ok <==> spec_ground_valid(ground@),
            r is Ok ==> ({
                let p = r.unwrap();
                &&& p.spec_game_mode() == (GameMode::Normal { block_count_target })
                &&& p.spec_ground()@ == ground@
                &&& p.spec_blocks()@ == blocks@
            }),
            r is Err ==> (r.unwrap_err() == GameError::WallInBlocksArea || r.unwrap_err()
                == GameError::FloatingWall),
    {
        match Problem::validate_ground(&ground) {
            Ok(()) => Ok(
                Problem { game_mode: GameMode::Normal { block_count_target }, ground, blocks },
            ),
            Err(e) => Err(e),
        }
    }

    /// An `Advance`-mode problem; fails when the ground map breaks its
    /// invariant or the board holds a wildcard.
    pub fn new_advance(
        ground: Ground,
        blocks: Blocks,
        block_holding: Block,
        move_count_remain: u8,
    ) -> (r: Result<Problem, GameError>)
        ensures
            r is Ok <==> spec_ground_valid(ground@) && spec_no_wild(blocks@),
            r is Ok ==> ({
                let p = r.unwrap();
                &&& p.spec_game_mode() == (GameMode::Advance { block_holding, move_count_remain })
                &&& p.spec_ground()@ == ground@
                &&& p.spec_blocks()@ == blocks@
            }),
            r is Err ==> (r.unwrap_err() == GameError::WallInBlocksArea || r.unwrap_err()
                == GameError::FloatingWall || r.unwrap_err() == GameError::WildcardInAdvance),
            r is Err && spec_ground_valid(ground@) ==> r.unwrap_err()
                == GameError::WildcardInAdvance,
    {
        match Problem::validate_ground(&ground) {
            Ok(()) => {
                let cells = blocks.as_array();
                let mut i: usize = 0;
                while i < 64
                    invariant
                        i <= 64,
                        cells@ == blocks@,
                        cells@.len() == 64,
                        forall|j: int| 0 <= j < i ==> cells@[j] != Some(Block::Wild),
                    decreases 64 - i,
                {
                    if let Some(b) = cells[i] {
                        if b.is_wild() {
                            return Err(GameError::WildcardInAdvance);
                        }
                    }
                    i += 1;
                }
                Ok(
                    Problem {
                        game_mode: GameMode::Advance { block_holding, move_count_remain },
                        ground,
                        blocks,
                    },
                )
            },
            Err(e) => Err(e),
        }
    }

    /// Checks the ground-map invariant.
    fn validate_ground(ground: &Ground) -> (r: Result<(), GameError>)
        ensures
            r is Ok <==> spec_ground_valid(ground@),
            r is Err ==> (r.unwrap_err() == GameError::WallInBlocksArea || r.unwrap_err()
                == GameError::FloatingWall),
    {
        proof {
            use_type_invariant(ground);
        }
        let mut row: u8 = 1;
        while row <= 12
            invariant
                1 <= row <= 13,
                ground@.len() == 96,
                forall|c: int, r2: int|
                    1 <= c <= 5 && 7 <= r2 < row ==> #[trigger] ground@[ground_index(c, r2)]
                        is None,
                forall|c: int, r2: int|
                    1 <= c <= 8 && 2 <= r2 < row && #[trigger] ground@[ground_index(c, r2)]
                        == Some(GroundElement::Wall) ==> ground@[ground_index(c, r2 - 1)] == Some(
                        GroundElement::Wall,
                    ),
            decreases 13 - row,
        {
            proof {
                use_type_invariant(ground);
            }
            let mut col: u8 = 1;
            while col <= 8
                invariant
                    1 <= col <= 9,
                    1 <= row <= 12,
                    ground@.len() == 96,
                    forall|c: int|
                        1 <= c < col && c <= 5 && row >= 7 ==> #[trigger] ground@[ground_index(
                            c,
                            row as int,
                        )] is None,
                    forall|c: int|
                        1 <= c < col && row >= 2 && #[trigger] ground@[ground_index(
                            c,
                            row as int,
                        )] == Some(GroundElement::Wall) ==> ground@[ground_index(
                            c,
                            row as int - 1,
                        )] == Some(GroundElement::Wall),
                decreases 9 - col,
            {
                let gc = GroundCol::from_inner(col).unwrap();
                let gr = GroundRow::from_inner(row).unwrap();
                let sq = GroundSquare::new(gc, gr);
                let elem = ground.get(sq);

                if sq.is_blocks_area() && col != 6 {
                    if elem.is_some() {
                        return Err(GameError::WallInBlocksArea);
                    }
                }

                if let Some(e) = elem {
                    if e.is_wall() {
                        if row >= 2 {
                            let gr_pre = GroundRow::from_inner(row - 1).unwrap();
                            let elem_pre = ground.get(GroundSquare::new(gc, gr_pre));
                            let pre_is_wall = match elem_pre {
                                Some(ep) => ep.is_wall(),
                                None => false,
                            };
                            if !pre_is_wall {
                                return Err(GameError::FloatingWall);
                            }
                        }
                    }
                }
                col += 1;
            }
            row += 1;
        }
        Ok(())
    }

    pub fn game_mode(&self) -> (r: GameMode)
        ensures
            r == self.spec_game_mode(),
    {
        self.game_mode
    }

    pub fn ground(&self) -> (r: &Ground)
        ensures
            *r == self.spec_ground(),
    {
        &self.ground
    }

    pub fn blocks(&self) -> (r: &Blocks)
        ensures
            *r == self.spec_blocks(),
    {
        &self.blocks
    }
}

} // verus!
