//! Branch-and-bound search for a minimum-cost move sequence.

use vstd::prelude::*;

use crate::block::{
    Block, BlocksSquare, board_ok, bs_idx, bs_valid, mv_dcol, mv_didx, mv_drow, moves_base_ok, moves_ok,
    occ_count, spec_do_move, spec_find_by_src, spec_find_dest, spec_keep_legal,
    spec_legal_moves, spec_move_wf,
    spec_update_moves, traj_next, lemma_find_by_src_hit, lemma_find_by_src_skip,
    lemma_keep_legal_props, lemma_update_moves_ok,
};
use crate::cost::{
    Cost, COST_INF, spec_clear_cost, spec_hero_move_cost, spec_throw_cost, calc_clear_cost,
};
use crate::error::GameError;
use crate::game_mode::GameMode;
use crate::ground::{GroundCol, GroundElement, GroundRow, GroundSquare, ground_index};
use crate::move_::{
    Move, MoveDirection, Moves, lemma_moves_as_slice_view, moves_as_slice, moves_clone,
    moves_view,
};
use crate::position::Position;
use crate::problem::Problem;

verus! {

/// Rule variants and the cost ceiling of a search.
#[derive(Clone, Copy, Debug, PartialEq, Eq, Structural)]
pub struct SolverConfig {
    /// On the last stage the clear animation need not be waited out:
    /// no clear cost, and the final throw costs a single frame.
    pub last_stage: bool,
    /// Prune moves that erase five or more blocks at once.
    pub forbid_five: bool,
    /// Reject terminals that land exactly on the target count.
    pub forbid_just: bool,
    /// Solutions at or above this cost are never accepted.
    pub max_cost: Cost,
}

impl Default for SolverConfig {
    /// No rule variants and an unreachable cost ceiling.
    fn default() -> (r: SolverConfig)
        ensures
            r == (SolverConfig {
                last_stage: false,
                forbid_five: false,
                forbid_just: false,
                max_cost: COST_INF,
            }),
    {
        SolverConfig { last_stage: false, forbid_five: false, forbid_just: false, max_cost: COST_INF }
    }
}

// ---------------------------------------------------------------------
// The initial candidate-move set of a problem.

/// The rightmost obstructed column of ground row `row`, scanning from
/// column `c` leftward.
pub open(crate) spec fn spec_first_obstructed(
    g: Seq<Option<GroundElement>>,
    row: int,
    c: int,
) -> Option<int>
    decreases c,
{
    if c < 1 {
        None
    } else if g[ground_index(c, row)] is Some {
        Some(c)
    } else {
        spec_first_obstructed(g, row, c - 1)
    }
}

/// The column a block thrown along ground row `row` falls into: one
/// right of the rightmost wall or pipe in the row, the leftmost column
/// when the row is clear, and the rightmost when even it is
/// obstructed.
pub open(crate) spec fn spec_drop_col(g: Seq<Option<GroundElement>>, row: int) -> int {
    match spec_first_obstructed(g, row, 8) {
        None => 1,
        Some(c) => if c == 8 {
            8
        } else {
            c + 1
        },
    }
}

/// The candidate throw from ground row `row`, before destinations are
/// bound to blocks: rows beside the block grid throw horizontally when
/// nothing obstructs the row; rows above it drop a block vertically
/// into the fall column, provided that column overlaps the grid.
pub open(crate) spec fn spec_row_candidate(g: Seq<Option<GroundElement>>, row: int) -> Option<
    Move,
> {
    if row >= 7 {
        if forall|c: int| 1 <= c <= 8 ==> #[trigger] g[ground_index(c, row)] is None {
            Some(
                Move {
                    src: GroundRow { v: row as u8 },
                    dst: BlocksSquare { v: bs_idx(6, row - 6) as u8 },
                    dir: MoveDirection::Horizontal,
                },
            )
        } else {
            None
        }
    } else {
        let land = spec_drop_col(g, row);
        if land <= 6 {
            Some(
                Move {
                    src: GroundRow { v: row as u8 },
                    dst: BlocksSquare { v: bs_idx(land, 1) as u8 },
                    dir: MoveDirection::Vertical,
                },
            )
        } else {
            None
        }
    }
}

/// The candidate throws for rows `row` down to 1, bottom row first:
/// the search tries throws near the thrower's start first.
pub open(crate) spec fn spec_initial_moves_from(g: Seq<Option<GroundElement>>, row: int) -> Seq<
    Move,
>
    decreases row,
{
    if row < 1 {
        Seq::empty()
    } else {
        (match spec_row_candidate(g, row) {
            Some(m) => seq![m],
            None => Seq::<Move>::empty(),
        }) + spec_initial_moves_from(g, row - 1)
    }
}

/// The full initial candidate set of a ground map.
pub open(crate) spec fn spec_initial_moves(g: Seq<Option<GroundElement>>) -> Seq<Move> {
    spec_initial_moves_from(g, 12)
}

/// A scan that finds an obstruction names a column inside its range.
pub proof fn lemma_first_obstructed_range(g: Seq<Option<GroundElement>>, row: int, c: int)
    requires
        c <= 8,
    ensures
        match spec_first_obstructed(g, row, c) {
            None => true,
            Some(x) => 1 <= x <= c,
        },
    decreases c,
{
    if c >= 1 && !(g[ground_index(c, row)] is Some) {
        lemma_first_obstructed_range(g, row, c - 1);
    }
}

/// The initial candidate set is fit for the search: one move per row,
/// bottom-up, every move well formed.
pub proof fn lemma_initial_moves_ok(g: Seq<Option<GroundElement>>, row: int)
    requires
        0 <= row <= 12,
    ensures
        moves_base_ok(spec_initial_moves_from(g, row)),
        spec_initial_moves_from(g, row).len() <= row,
        forall|i: int|
            0 <= i < spec_initial_moves_from(g, row).len() ==> (#[trigger] spec_initial_moves_from(
                g,
                row,
            )[i]).spec_src().spec_inner() <= row,
    decreases row,
{
    if row >= 1 {
        lemma_initial_moves_ok(g, row - 1);
        let full = spec_initial_moves_from(g, row);
        let rest = spec_initial_moves_from(g, row - 1);
        match spec_row_candidate(g, row) {
            Some(m) => {
                if row >= 7 {
                    crate::block::lemma_bs_idx_decompose(6, row - 6);
                    assert(m.spec_dst().spec_inner() == bs_idx(6, row - 6));
                    assert(mv_dcol(m) == 6 && mv_drow(m) == row - 6);
                } else {
                    lemma_first_obstructed_range(g, row, 8);
                    let land = spec_drop_col(g, row);
                    assert(1 <= land <= 6);
                    crate::block::lemma_bs_idx_decompose(land, 1);
                    assert(m.spec_dst().spec_inner() == bs_idx(land, 1));
                    assert(mv_dcol(m) == land && mv_drow(m) == 1);
                }
                assert(bs_valid(mv_dcol(m), mv_drow(m)));
                assert(spec_move_wf(m));
                assert(full == seq![m] + rest);
                assert(full[0] == m);
                assert(forall|i: int| 1 <= i < full.len() ==> full[i] == rest[i - 1]);
                assert forall|i: int, j: int| 0 <= i < j < full.len() implies (
                #[trigger] full[i]).spec_src().spec_inner() > (#[trigger] full[j]).spec_src(
                ).spec_inner() by {
                    if i == 0 {
                        assert(full[j] == rest[j - 1]);
                        assert(rest[j - 1].spec_src().spec_inner() <= row - 1);
                    } else {
                        assert(full[i] == rest[i - 1] && full[j] == rest[j - 1]);
                    }
                }
            },
            None => {
                assert(full == Seq::<Move>::empty() + rest);
                assert(forall|i: int| 0 <= i < full.len() ==> full[i] == rest[i]);
            },
        }
    }
}

/// What rebinding does to a drop candidate into the leftmost column:
/// the move survives exactly when the column holds a block, rebound
/// to the column's topmost occupied square with its origin row kept.
pub proof fn lemma_drop_candidate_rebind(s: Seq<Option<Block>>, mv: Move)
    requires
        s.len() == 64,
        mv.spec_dir() == MoveDirection::Vertical,
        mv_dcol(mv) == 1,
        mv_drow(mv) == 1,
    ensures
        match crate::block::spec_update_one(s, mv) {
            None => forall|r: int| 1 <= r <= 6 ==> s[bs_idx(1, r)] is None,
            Some(m) => {
                &&& m.spec_src() == mv.spec_src()
                &&& m.spec_dir() == MoveDirection::Vertical
                &&& mv_dcol(m) == 1
                &&& s[bs_idx(1, mv_drow(m))] is Some
                &&& forall|r: int| 1 <= r < mv_drow(m) ==> s[bs_idx(1, r)] is None
            },
        },
{
    lemma_find_dest_vertical(s, 1, 1);
    match spec_find_dest(s, Some((1, 1, MoveDirection::Vertical))) {
        None => {},
        Some((c2, r2, d2)) => {
            crate::block::lemma_bs_idx_decompose(c2, r2);
        },
    }
}

/// The first occupied square of a downward walk in column `c` from
/// row `r`: none exactly when the rows from `r` down are empty, else
/// the topmost occupied one.
proof fn lemma_find_dest_vertical(s: Seq<Option<Block>>, c: int, r: int)
    requires
        1 <= c <= 6,
        1 <= r <= 6,
    ensures
        match spec_find_dest(s, Some((c, r, MoveDirection::Vertical))) {
            None => forall|r2: int| r <= r2 <= 6 ==> s[bs_idx(c, r2)] is None,
            Some((c2, r2, d2)) => {
                &&& c2 == c
                &&& d2 == MoveDirection::Vertical
                &&& r <= r2 <= 6
                &&& s[bs_idx(c, r2)] is Some
                &&& forall|r3: int| r <= r3 < r2 ==> s[bs_idx(c, r3)] is None
            },
        },
    decreases 6 - r,
{
    if s[bs_idx(c, r)] is Some {
    } else if r < 6 {
        lemma_find_dest_vertical(s, c, r + 1);
        assert(spec_find_dest(s, Some((c, r, MoveDirection::Vertical))) == spec_find_dest(
            s,
            Some((c, r + 1, MoveDirection::Vertical)),
        ));
    } else {
        assert(spec_find_dest(s, traj_next(c, 6, MoveDirection::Vertical)) is None);
    }
}

/// Everything a solver run starts from: the game mode, the initial
/// position, the initial candidate moves bound to the board, and the
/// configuration.
#[derive(Debug)]
pub struct SolverArgument {
    pub(crate) game_mode: GameMode,
    pub(crate) pos: Position,
    pub(crate) moves: Moves,
    pub(crate) config: SolverConfig,
}

impl SolverArgument {
    #[verifier::type_invariant]
    pub(crate) open(crate) spec fn type_inv(self) -> bool {
        moves_ok(self.pos.spec_blocks()@, moves_view(self.moves))
    }

    pub open(crate) spec fn spec_game_mode(self) -> GameMode {
        self.game_mode
    }

    pub open(crate) spec fn spec_position(self) -> Position {
        self.pos
    }

    pub open(crate) spec fn spec_moves(self) -> Seq<Move> {
        moves_view(self.moves)
    }

    pub open(crate) spec fn spec_config(self) -> SolverConfig {
        self.config
    }

    /// Builds the start of a search from a problem: the fresh position
    /// and the initial candidate moves, bound to the initial board.
    pub fn new(problem: &Problem, config: &SolverConfig) -> (r: SolverArgument)
        ensures
            r.spec_game_mode() == problem.spec_game_mode(),
            r.spec_position().spec_hero_row().spec_inner() == 12,
            r.spec_position().spec_blocks()@ == problem.spec_blocks()@,
            r.spec_position().spec_block_holding() == problem.spec_game_mode(
            ).spec_block_holding(),
            r.spec_position().spec_move_count_remain() == problem.spec_game_mode(
            ).spec_move_count_remain(),
            r.spec_moves() == spec_update_moves(
                problem.spec_blocks()@,
                spec_initial_moves(problem.spec_ground()@),
            ),
            r.spec_config() == *config,
    {
        let game_mode = problem.game_mode();

        let pos = {
            let blocks = problem.blocks().clone();
            let block_holding = game_mode.block_holding();
            let move_count_remain = game_mode.move_count_remain();
            Position::new(blocks, block_holding, move_count_remain)
        };

        let ground = problem.ground();
        proof {
            use_type_invariant(ground);
            use_type_invariant(&problem.blocks);
        }
        let ghost g = ground@;

        // Collect the candidate throw of each ground row, bottom row
        // first.
        let mut initial: Vec<Move> = Vec::new();
        let mut row: u8 = 12;
        while row >= 1
            invariant
                row <= 12,
                g == ground@,
                g.len() == 96,
                initial@ + spec_initial_moves_from(g, row as int) =~= spec_initial_moves(g),
                initial@.len() + row <= 12,
            decreases row,
        {
            let ghost pre = initial@;
            let cand: Option<Move> = if row >= 7 {
                // A throw beside the block grid: legal only when the
                // whole row is free of walls and pipes.
                let mut clear = true;
                let mut col: u8 = 1;
                while col <= 8
                    invariant
                        1 <= col <= 9,
                        1 <= row <= 12,
                        g == ground@,
                        g.len() == 96,
                        clear == forall|c: int|
                            1 <= c < col ==> #[trigger] g[ground_index(c, row as int)] is None,
                    decreases 9 - col,
                {
                    let gc = GroundCol::from_inner(col).unwrap();
                    let gr = GroundRow::from_inner(row).unwrap();
                    if ground.get(GroundSquare::new(gc, gr)).is_some() {
                        clear = false;
                    }
                    col += 1;
                }
                if clear {
                    let brow = row - 6;
                    let dst = BlocksSquare::new(
                        crate::block::BlocksCol::from_inner(6).unwrap(),
                        crate::block::BlocksRow::from_inner(brow).unwrap(),
                    );
                    Some(Move::new(GroundRow::from_inner(row).unwrap(), dst, MoveDirection::Horizontal))
                } else {
                    None
                }
            } else {
                // A drop from above the grid: find the rightmost
                // obstruction and land one column to its right.
                let mut hit: Option<u8> = None;
                let mut col: u8 = 8;
                while col >= 1
                    invariant_except_break
                        hit is None,
                    invariant
                        col <= 8,
                        1 <= row <= 12,
                        g == ground@,
                        g.len() == 96,
                        spec_first_obstructed(g, row as int, 8) == spec_first_obstructed(
                            g,
                            row as int,
                            col as int,
                        ),
                    ensures
                        match hit {
                            None => spec_first_obstructed(g, row as int, 8) is None,
                            Some(c) => spec_first_obstructed(g, row as int, 8) == Some(c as int)
                                && 1 <= c <= 8,
                        },
                    decreases col,
                {
                    let gc = GroundCol::from_inner(col).unwrap();
                    let gr = GroundRow::from_inner(row).unwrap();
                    if ground.get(GroundSquare::new(gc, gr)).is_some() {
                        hit = Some(col);
                        break ;
                    }
                    col -= 1;
                }
                let land: u8 = match hit {
                    None => 1,
                    Some(c) => if c == 8 {
                        8
                    } else {
                        c + 1
                    },
                };
                proof {
                    assert(land as int == spec_drop_col(g, row as int));
                }
                if land <= 6 {
                    let dst = BlocksSquare::new(
                        crate::block::BlocksCol::from_inner(land).unwrap(),
                        crate::block::BlocksRow::from_inner(1).unwrap(),
                    );
                    Some(Move::new(GroundRow::from_inner(row).unwrap(), dst, MoveDirection::Vertical))
                } else {
                    None
                }
            };
            match cand {
                Some(m) => {
                    initial.push(m);
                    proof {
                        assert(m == spec_row_candidate(g, row as int).unwrap());
                        assert(initial@ =~= pre + seq![m]);
                    }
                },
                None => {
                    proof {
                        assert(spec_row_candidate(g, row as int) is None);
                    }
                },
            }
            proof {
                assert(initial@ + spec_initial_moves_from(g, row as int - 1) =~= spec_initial_moves(
                    g,
                ));
            }
            row -= 1;
        }
        proof {
            assert(spec_initial_moves_from(g, 0) =~= Seq::<Move>::empty());
            assert(initial@ =~= spec_initial_moves(g));
            lemma_initial_moves_ok(g, 12);
        }

        // Bind each candidate to the first block it would hit.
        let moves = pos.update_moves(initial.as_slice());
        proof {
            lemma_update_moves_ok(pos.spec_blocks()@, initial@);
        }

        SolverArgument { game_mode, pos, moves, config: *config }
    }

    pub fn game_mode(&self) -> (r: GameMode)
        ensures
            r == self.spec_game_mode(),
    {
        self.game_mode
    }

    pub fn position(&self) -> (r: &Position)
        ensures
            *r == self.spec_position(),
    {
        &self.pos
    }

    pub fn moves(&self) -> (r: &Moves)
        ensures
            moves_view(*r) == self.spec_moves(),
    {
        &self.moves
    }

    pub fn config(&self) -> (r: &SolverConfig)
        ensures
            *r == self.spec_config(),
    {
        &self.config
    }
}

// ---------------------------------------------------------------------
// Replaying a solution.

/// The model of a position: board cells, held block, thrower row, and
/// moves remaining.
pub open(crate) spec fn pm_of(p: Position) -> (Seq<Option<Block>>, Block, int, int) {
    (
        p.spec_blocks()@,
        p.spec_block_holding(),
        p.spec_hero_row().spec_inner() as int,
        p.spec_move_count_remain() as int,
    )
}

/// One replayed throw from ground row `src`: spends a move, looks the
/// row up among the candidates, checks legality, performs the throw
/// and rebinds the candidates.  Returns the next position model and
/// candidate set with the thrower-move cost, throw cost and erase
/// count, or the failure.
pub open(crate) spec fn spec_step(
    pm: (Seq<Option<Block>>, Block, int, int),
    ms: Seq<Move>,
    src: u8,
) -> Result<((Seq<Option<Block>>, Block, int, int), Seq<Move>, int, int, int), GameError> {
    let (board, holding, hero, remain) = pm;
    if remain < 1 {
        Err(GameError::OutOfMoves)
    } else {
        match spec_find_by_src(ms, src) {
            None => Err(GameError::IllegalMove),
            Some(mv) => {
                if !(board[mv_didx(mv)] is Some && holding.spec_can_erase(
                    board[mv_didx(mv)].unwrap(),
                )) {
                    Err(GameError::IllegalMove)
                } else {
                    let (rb, rh, rl, rc) = spec_do_move(
                        board,
                        mv_dcol(mv),
                        mv_drow(mv),
                        mv.spec_dir(),
                        holding,
                    );
                    Ok(
                        (
                            (rb, rh, mv.spec_src().spec_inner() as int, remain - 1),
                            spec_update_moves(rb, ms),
                            spec_hero_move_cost(hero, mv.spec_src().spec_inner() as int),
                            spec_throw_cost(src, rl as u8) as int,
                            rc,
                        ),
                    )
                }
            },
        }
    }
}

/// Replays the throws of `rest` in order, accumulating the total cost
/// in `acc` and remembering the cost of the last throw in `lt`.  When
/// erasing five blocks at once is forbidden, a throw that does so
/// fails the replay.
pub open(crate) spec fn spec_replay(
    pm: (Seq<Option<Block>>, Block, int, int),
    ms: Seq<Move>,
    rest: Seq<u8>,
    ff: bool,
    acc: int,
    lt: int,
) -> Result<((Seq<Option<Block>>, Block, int, int), Seq<Move>, int, int), GameError>
    decreases rest.len(),
{
    if rest.len() == 0 {
        Ok((pm, ms, acc, lt))
    } else {
        match spec_step(pm, ms, rest[0]) {
            Err(e) => Err(e),
            Ok((pm2, ms2, hc, tc, er)) => {
                if ff && er >= 5 {
                    Err(GameError::FiveForbidden)
                } else {
                    spec_replay(pm2, ms2, rest.skip(1), ff, acc + hc + tc, tc)
                }
            },
        }
    }
}

/// The outcome of replaying a whole solution: its throws must replay,
/// the final position must offer no legal move, honour the
/// exact-clear rule, and meet the target count; the cost is then the
/// accumulated cost -- with the last throw costing one frame on the
/// last stage -- plus the stage-clear cost.
pub open(crate) spec fn spec_verify(
    mode: GameMode,
    cfg: SolverConfig,
    pm0: (Seq<Option<Block>>, Block, int, int),
    ms0: Seq<Move>,
    srcs: Seq<u8>,
) -> Result<int, GameError> {
    match spec_replay(pm0, ms0, srcs, cfg.forbid_five, 0, 0) {
        Err(e) => Err(e),
        Ok((pmf, msf, tot, lt)) => {
            let (board, holding, hero, remain) = pmf;
            if spec_legal_moves(board, msf, holding).len() != 0 {
                Err(GameError::LegalMovesRemain)
            } else if cfg.forbid_just && occ_count(board) == mode.spec_block_count_target() {
                Err(GameError::JustClearForbidden)
            } else if occ_count(board) > mode.spec_block_count_target() {
                Err(GameError::NotSolved)
            } else {
                let base = if cfg.last_stage && srcs.len() >= 1 {
                    tot - lt + 1
                } else {
                    tot
                };
                Ok(base + spec_clear_cost(mode, occ_count(board), cfg.last_stage))
            }
        },
    }
}

/// A terminal the search accepts as a win: no legal move is left, the
/// block count is at or under the target, and an exact-target clear
/// only counts when allowed.
pub open(crate) spec fn spec_accepts(
    mode: GameMode,
    cfg: SolverConfig,
    pmf: (Seq<Option<Block>>, Block, int, int),
    msf: Seq<Move>,
) -> bool {
    &&& spec_legal_moves(pmf.0, msf, pmf.1).len() == 0
    &&& occ_count(pmf.0) <= mode.spec_block_count_target()
    &&& !(cfg.forbid_just && occ_count(pmf.0) == mode.spec_block_count_target())
}

/// The search's value of a node taken as solved on the spot: on the
/// last stage the accumulated cost with the final throw repriced to
/// one frame, otherwise the accumulated cost plus the stage-clear
/// animation.  At a solved terminal this equals the replayed
/// verification cost, except that the empty play of a last stage is
/// charged the one-frame final throw the replay never sees.
pub open(crate) spec fn sol_value(
    cfg: SolverConfig,
    mode: GameMode,
    occf: int,
    tot: int,
    ltf: int,
) -> int {
    if cfg.last_stage {
        tot - ltf + 1
    } else {
        tot + spec_clear_cost(mode, occf, false)
    }
}

/// The move sequences the search itself plays: every throw replays,
/// is drawn from the legal set of its position (so a direct wildcard
/// hit in a dead end is out), and erases at most five blocks.  The
/// five-block cap is what makes the search's pruning bound a true
/// lower bound: every tabulated throw costs at least 61 frames, while
/// erasing `e` blocks saves at most `11 * e` frames of clear
/// animation -- for chains of ten or more the saving can exceed the
/// throw's tabulated cost and the bound no longer holds.
pub open(crate) spec fn spec_search_plays(
    pm: (Seq<Option<Block>>, Block, int, int),
    ms: Seq<Move>,
    rest: Seq<u8>,
    ff: bool,
) -> bool
    decreases rest.len(),
{
    if rest.len() == 0 {
        true
    } else {
        match spec_step(pm, ms, rest[0]) {
            Err(_) => false,
            Ok((pm2, ms2, hc, tc, er)) => {
                &&& er <= 5
                &&& spec_legal_moves(pm.0, ms, pm.1).contains(
                    spec_find_by_src(ms, rest[0]).unwrap(),
                )
                &&& spec_search_plays(pm2, ms2, rest.skip(1), ff)
            },
        }
    }
}

/// Along any play of the search, the node value never decreases: a
/// throw's tabulated cost (at least 61 frames) covers the clear
/// animation saved by what it erases (at most 55 frames for five
/// blocks), and on the last stage repricing the final throw only
/// moves value forward.  The search's pruning bound is therefore a
/// lower bound on every accepted completion it might cut.
pub proof fn lemma_replay_bound(
    mode: GameMode,
    cfg: SolverConfig,
    pm: (Seq<Option<Block>>, Block, int, int),
    ms: Seq<Move>,
    rest: Seq<u8>,
    acc: int,
    lt: int,
)
    requires
        board_ok(pm.0),
        moves_ok(pm.0, ms),
        lt >= 0,
        spec_replay(pm, ms, rest, cfg.forbid_five, acc, lt) is Ok,
        spec_search_plays(pm, ms, rest, cfg.forbid_five),
    ensures
        ({
            let (pmf, msf, tot, ltf) = spec_replay(pm, ms, rest, cfg.forbid_five, acc, lt).unwrap();
            sol_value(cfg, mode, occ_count(pmf.0), tot, ltf) >= sol_value(
                cfg,
                mode,
                occ_count(pm.0),
                acc,
                lt,
            )
        }),
    decreases rest.len(),
{
    if rest.len() > 0 {
        let step = spec_step(pm, ms, rest[0]);
        match step {
            Err(_) => {},
            Ok((pm2, ms2, hc, tc, er)) => {
                let (board, holding, hero, remain) = pm;
                crate::block::lemma_find_by_src_member(ms, rest[0]);
                let mv = spec_find_by_src(ms, rest[0]).unwrap();
                let k = choose|k: int| 0 <= k < ms.len() && ms[k] == mv;
                assert(spec_move_wf(mv) && bs_valid(mv_dcol(mv), mv_drow(mv)) && 1
                    <= mv.spec_src().spec_inner() <= 12);
                assert(mv_didx(mv) == bs_idx(mv_dcol(mv), mv_drow(mv)));
                crate::block::lemma_do_move_props(
                    board,
                    mv_dcol(mv),
                    mv_drow(mv),
                    mv.spec_dir(),
                    holding,
                );
                let (rb, rh, rl, rc) = spec_do_move(
                    board,
                    mv_dcol(mv),
                    mv_drow(mv),
                    mv.spec_dir(),
                    holding,
                );
                crate::position::lemma_move_cost_defined(board, mv, rl);
                crate::cost::lemma_throw_cost_defined(mv.spec_src().spec_inner(), rl as u8);
                crate::cost::lemma_throw_cost_min(mv.spec_src().spec_inner(), rl as u8);
                assert(tc >= 61);
                assert(hc >= 0);
                crate::block::lemma_occ_bounds(board);
                crate::block::lemma_occ_bounds(rb);
                assert(occ_count(rb) == occ_count(board) - rc && 1 <= rc <= 5);
                assert(spec_clear_cost(mode, occ_count(board), false) - spec_clear_cost(
                    mode,
                    occ_count(rb),
                    false,
                ) <= 11 * rc);
                assert(sol_value(cfg, mode, occ_count(rb), acc + hc + tc, tc) >= sol_value(
                    cfg,
                    mode,
                    occ_count(board),
                    acc,
                    lt,
                ));
                lemma_update_moves_ok(rb, ms);
                lemma_replay_bound(mode, cfg, pm2, ms2, rest.skip(1), acc + hc + tc, tc);
            },
        }
    }
}

/// Completeness of a search node: every play of the search from this
/// node that reaches an accepted terminal has a value of at least
/// `bound`.
pub open(crate) spec fn node_complete(
    cfg: SolverConfig,
    mode: GameMode,
    pm: (Seq<Option<Block>>, Block, int, int),
    ms: Seq<Move>,
    acc: int,
    lt: int,
    bound: int,
) -> bool {
    forall|tail: Seq<u8>|
        #[trigger] spec_search_plays(pm, ms, tail, cfg.forbid_five) ==> match spec_replay(
            pm,
            ms,
            tail,
            cfg.forbid_five,
            acc,
            lt,
        ) {
            Err(_) => true,
            Ok((pmf, msf, tot, ltf)) => spec_accepts(mode, cfg, pmf, msf) ==> bound <= sol_value(
                cfg,
                mode,
                occ_count(pmf.0),
                tot,
                ltf,
            ),
        }
}

/// A solution's replay ignores the cost ceiling: under two
/// configurations that differ only in `max_cost`, verification gives
/// the same outcome and the same cost.  A solution found under one
/// ceiling is therefore never made worse by raising it.
pub proof fn lemma_verify_ignores_cost_ceiling(
    mode: GameMode,
    cfg1: SolverConfig,
    cfg2: SolverConfig,
    pm0: (Seq<Option<Block>>, Block, int, int),
    ms0: Seq<Move>,
    srcs: Seq<u8>,
)
    requires
        cfg1.last_stage == cfg2.last_stage,
        cfg1.forbid_five == cfg2.forbid_five,
        cfg1.forbid_just == cfg2.forbid_just,
    ensures
        spec_verify(mode, cfg1, pm0, ms0, srcs) == spec_verify(mode, cfg2, pm0, ms0, srcs),
{
}

/// An ordered sequence of throw-origin rows.
#[derive(Debug)]
pub struct Solution {
    pub(crate) srcs: Vec<GroundRow>,
}

impl Solution {
    /// The origin rows, as plain numbers.
    pub open(crate) spec fn spec_srcs(self) -> Seq<u8> {
        self.srcs@.map(|i: int, r: GroundRow| r.spec_inner())
    }

    /// The solution that plays the given moves in order.
    pub fn from_moves(moves: &[Move]) -> (r: Solution)
        ensures
            r.spec_srcs() =~= moves@.map(|i: int, m: Move| m.spec_src().spec_inner()),
    {
        let mut srcs: Vec<GroundRow> = Vec::new();
        let mut i: usize = 0;
        while i < moves.len()
            invariant
                i <= moves@.len(),
                srcs@.len() == i,
                forall|j: int| 0 <= j < i ==> srcs@[j] == moves@[j].spec_src(),
            decreases moves@.len() - i,
        {
            srcs.push(moves[i].src());
            i += 1;
        }
        Solution { srcs }
    }

    pub fn len(&self) -> (r: usize)
        ensures
            r == self.spec_srcs().len(),
    {
        self.srcs.len()
    }

    pub fn is_empty(&self) -> (r: bool)
        ensures
            r == (self.spec_srcs().len() == 0),
    {
        self.srcs.is_empty()
    }

    /// The origin rows in order.
    pub fn srcs(&self) -> (r: &[GroundRow])
        ensures
            r@.map(|i: int, x: GroundRow| x.spec_inner()) == self.spec_srcs(),
    {
        self.srcs.as_slice()
    }

    /// Replays this solution against a solver argument and recomputes
    /// its total cost, failing exactly when some throw cannot be
    /// played or the final position is not a win.
    pub fn verify(&self, arg: &SolverArgument) -> (r: Result<Cost, GameError>)
        ensures
            ({
                let vr = spec_verify(
                    arg.spec_game_mode(),
                    arg.spec_config(),
                    pm_of(arg.spec_position()),
                    arg.spec_moves(),
                    self.spec_srcs(),
                );
                match (r, vr) {
                    (Ok(c), Ok(cs)) => c as int == cs,
                    (Err(e), Err(es)) => e == es,
                    _ => false,
                }
            }),
    {
        proof {
            use_type_invariant(arg);
        }
        let ghost pm0 = pm_of(arg.spec_position());
        let ghost ms0 = arg.spec_moves();
        let ghost srcs = self.spec_srcs();
        let ghost ff = arg.spec_config().forbid_five;

        let mut pos = arg.position().clone();
        let mut moves = moves_clone(arg.moves());
        let mut cost_total: u32 = 0;
        let mut cost_last_throw: u32 = 0;
        let ghost occ0 = occ_count(pos.spec_blocks()@);
        proof {
            use_type_invariant(&pos.blocks);
            crate::block::lemma_occ_bounds(pos.spec_blocks()@);
            assert(srcs.skip(0) =~= srcs);
        }

        let mut i: usize = 0;
        while i < self.srcs.len()
            invariant
                i <= srcs.len(),
                srcs == self.spec_srcs(),
                self.srcs@.len() == srcs.len(),
                ff == arg.spec_config().forbid_five,
                pm0 == pm_of(arg.spec_position()),
                ms0 == arg.spec_moves(),
                moves_ok(pos.spec_blocks()@, moves_view(moves)),
                0 <= occ_count(pos.spec_blocks()@) <= occ0 <= 64,
                pos.spec_blocks()@.len() == 64,
                cost_total as int <= 308 * (occ0 - occ_count(pos.spec_blocks()@)),
                cost_last_throw as int <= cost_total as int,
                spec_replay(pm0, ms0, srcs, ff, 0, 0) == spec_replay(
                    pm_of(pos),
                    moves_view(moves),
                    srcs.skip(i as int),
                    ff,
                    cost_total as int,
                    cost_last_throw as int,
                ),
            decreases srcs.len() - i,
        {
            let ghost rest = srcs.skip(i as int);
            proof {
                assert(rest.len() > 0);
                assert(rest[0] == srcs[i as int]);
            }
            let src_row = self.srcs[i];
            proof {
                use_type_invariant(src_row);
                assert(src_row.spec_inner() == srcs[i as int]);
            }
            let src = src_row.to_inner();

            if pos.move_count_remain() == 0 {
                proof {
                    assert(spec_step(pm_of(pos), moves_view(moves), rest[0]) == Err::<
                        ((Seq<Option<Block>>, Block, int, int), Seq<Move>, int, int, int),
                        GameError,
                    >(GameError::OutOfMoves));
                    assert(spec_replay(
                        pm_of(pos),
                        moves_view(moves),
                        rest,
                        ff,
                        cost_total as int,
                        cost_last_throw as int,
                    ) == Err::<
                        ((Seq<Option<Block>>, Block, int, int), Seq<Move>, int, int),
                        GameError,
                    >(GameError::OutOfMoves));
                }
                return Err(GameError::OutOfMoves);
            }

            // Look the origin row up among the candidates.
            let sl = moves_as_slice(&moves);
            proof {
                lemma_moves_as_slice_view(&moves, sl@);
            }
            let mut found: Option<Move> = None;
            let mut j: usize = 0;
            loop
                invariant_except_break
                    found is None,
                invariant
                    j <= sl@.len(),
                    moves_view(moves) =~= sl@,
                    forall|k: int|
                        0 <= k < j ==> (#[trigger] sl@[k]).spec_src().spec_inner() != src,
                ensures
                    ({
                        let f = spec_find_by_src(moves_view(moves), src);
                        match found {
                            None => f is None,
                            Some(m) => f == Some(m) && m.spec_src().spec_inner() == src
                                && exists|k: int|
                                0 <= k < moves_view(moves).len() && moves_view(moves)[k] == m,
                        }
                    }),
                decreases sl@.len() - j,
            {
                if j >= sl.len() {
                    proof {
                        lemma_find_by_src_skip(moves_view(moves), src, j as int);
                        assert(moves_view(moves).skip(j as int).len() == 0);
                    }
                    break ;
                }
                let mv = sl[j];
                if mv.src().to_inner() == src {
                    found = Some(mv);
                    proof {
                        lemma_find_by_src_skip(moves_view(moves), src, j as int);
                        assert(moves_view(moves).skip(j as int)[0] == sl@[j as int]);
                        assert(spec_find_by_src(moves_view(moves).skip(j as int), src) == Some(
                            sl@[j as int],
                        ));
                    }
                    break ;
                }
                j += 1;
            }

            let mv = match found {
                Some(mv) => mv,
                None => {
                    proof {
                        assert(spec_step(pm_of(pos), moves_view(moves), rest[0]) == Err::<
                            ((Seq<Option<Block>>, Block, int, int), Seq<Move>, int, int, int),
                            GameError,
                        >(GameError::IllegalMove));
                        assert(spec_replay(
                            pm_of(pos),
                            moves_view(moves),
                            rest,
                            ff,
                            cost_total as int,
                            cost_last_throw as int,
                        ) == Err::<
                            ((Seq<Option<Block>>, Block, int, int), Seq<Move>, int, int),
                            GameError,
                        >(GameError::IllegalMove));
                    }
                    return Err(GameError::IllegalMove);
                },
            };
            let ghost k = choose|k: int|
                0 <= k < moves_view(moves).len() && moves_view(moves)[k] == mv;

            if !pos.is_legal_move(mv) {
                proof {
                    assert(spec_step(pm_of(pos), moves_view(moves), rest[0]) == Err::<
                        ((Seq<Option<Block>>, Block, int, int), Seq<Move>, int, int, int),
                        GameError,
                    >(GameError::IllegalMove));
                    assert(spec_replay(
                        pm_of(pos),
                        moves_view(moves),
                        rest,
                        ff,
                        cost_total as int,
                        cost_last_throw as int,
                    ) == Err::<
                        ((Seq<Option<Block>>, Block, int, int), Seq<Move>, int, int),
                        GameError,
                    >(GameError::IllegalMove));
                }
                return Err(GameError::IllegalMove);
            }

            let ghost step = spec_step(pm_of(pos), moves_view(moves), rest[0]);
            let (pos_nxt, cost_hero_move, cost_throw, erase_count) = pos.do_move(mv);
            proof {
                assert(step == Ok::<
                    ((Seq<Option<Block>>, Block, int, int), Seq<Move>, int, int, int),
                    GameError,
                >(
                    (
                        pm_of(pos_nxt),
                        spec_update_moves(pos_nxt.spec_blocks()@, moves_view(moves)),
                        cost_hero_move as int,
                        cost_throw as int,
                        erase_count as int,
                    ),
                ));
            }
            if arg.config.forbid_five && erase_count >= 5 {
                proof {
                    assert(spec_replay(
                        pm_of(pos),
                        moves_view(moves),
                        rest,
                        ff,
                        cost_total as int,
                        cost_last_throw as int,
                    ) == Err::<
                        ((Seq<Option<Block>>, Block, int, int), Seq<Move>, int, int),
                        GameError,
                    >(GameError::FiveForbidden));
                }
                return Err(GameError::FiveForbidden);
            }

            let sl2 = moves_as_slice(&moves);
            proof {
                lemma_moves_as_slice_view(&moves, sl2@);
            }
            let moves_nxt = pos_nxt.update_moves(sl2);
            proof {
                use_type_invariant(&pos_nxt.blocks);
                lemma_update_moves_ok(pos_nxt.spec_blocks()@, moves_view(moves));
                assert(moves_view(moves_nxt) == spec_update_moves(
                    pos_nxt.spec_blocks()@,
                    moves_view(moves),
                ));
                crate::block::lemma_occ_bounds(pos_nxt.spec_blocks()@);
                use_type_invariant(&pos.hero_row);
            }
            pos = pos_nxt;
            moves = moves_nxt;
            let new_total = cost_total + cost_hero_move as u32 + cost_throw as u32;
            proof {
                assert(cost_hero_move as int <= 176);
                assert(cost_throw as int <= 132) by {
                    crate::cost::lemma_throw_cost_bound_all();
                }
            }
            cost_total = new_total;
            cost_last_throw = cost_throw as u32;
            proof {
                assert(rest.skip(1) =~= srcs.skip(i as int + 1));
            }
            i += 1;
        }

        proof {
            assert(srcs.skip(srcs.len() as int) =~= Seq::<u8>::empty());
            assert(spec_replay(pm0, ms0, srcs, ff, 0, 0) == Ok::<
                ((Seq<Option<Block>>, Block, int, int), Seq<Move>, int, int),
                GameError,
            >((pm_of(pos), moves_view(moves), cost_total as int, cost_last_throw as int)));
        }

        let sl = moves_as_slice(&moves);
        proof {
            lemma_moves_as_slice_view(&moves, sl@);
        }
        let legal = pos.legal_moves(sl);
        let legal_sl = moves_as_slice(&legal);
        proof {
            lemma_moves_as_slice_view(&legal, legal_sl@);
        }
        if legal_sl.len() != 0 {
            return Err(GameError::LegalMovesRemain);
        }

        let count = pos.block_count();
        let target = arg.game_mode.block_count_target();
        if arg.config.forbid_just && count == target {
            return Err(GameError::JustClearForbidden);
        }
        if count > target {
            return Err(GameError::NotSolved);
        }

        let mut total = cost_total;
        if arg.config.last_stage && self.srcs.len() >= 1 {
            total = total - cost_last_throw + 1;
        }
        let clear = calc_clear_cost(arg.game_mode, &pos, arg.config.last_stage);
        total = total + clear as u32;
        proof {
            assert(total as int <= 308 * 64 + 1 + 800);
        }
        Ok(total as u16)
    }
}

// ---------------------------------------------------------------------
// The branch-and-bound search.

/// The origin rows of a move sequence.
pub open(crate) spec fn srcs_of(ms: Seq<Move>) -> Seq<u8> {
    ms.map(|i: int, m: Move| m.spec_src().spec_inner())
}

/// Replaying one more throw after a prefix composes: the extended
/// replay runs the prefix and then the extra step.
pub proof fn lemma_replay_snoc(
    pm: (Seq<Option<Block>>, Block, int, int),
    ms: Seq<Move>,
    rest: Seq<u8>,
    s: u8,
    ff: bool,
    acc: int,
    lt: int,
)
    ensures
        spec_replay(pm, ms, rest.push(s), ff, acc, lt) == (match spec_replay(
            pm,
            ms,
            rest,
            ff,
            acc,
            lt,
        ) {
            Err(e) => Err(e),
            Ok((pmf, msf, a2, l2)) => match spec_step(pmf, msf, s) {
                Err(e) => Err(e),
                Ok((pm2, ms2, hc, tc, er)) => {
                    if ff && er >= 5 {
                        Err(GameError::FiveForbidden)
                    } else {
                        Ok((pm2, ms2, a2 + hc + tc, tc))
                    }
                },
            },
        }),
    decreases rest.len(),
{
    reveal_with_fuel(spec_replay, 3);
    if rest.len() == 0 {
        assert(rest.push(s)[0] == s);
        assert(rest.push(s).skip(1) =~= Seq::<u8>::empty());
    } else {
        assert(rest.push(s)[0] == rest[0]);
        assert(rest.push(s).skip(1) =~= rest.skip(1).push(s));
        match spec_step(pm, ms, rest[0]) {
            Err(e) => {},
            Ok((pm2, ms2, hc, tc, er)) => {
                if !(ff && er >= 5) {
                    lemma_replay_snoc(pm2, ms2, rest.skip(1), s, ff, acc + hc + tc, tc);
                }
            },
        }
    }
}

/// The search state: the best complete solution found so far and the
/// path to the node being explored.  The ghost fields remember the
/// root of the search, so that the best solution's replay can be
/// stated against it.
struct Solver {
    game_mode: GameMode,
    config: SolverConfig,
    best_solution: Option<Vec<Move>>,
    best_cost: u32,
    cur_solution: Vec<Move>,
    root_pm: Ghost<(Seq<Option<Block>>, Block, int, int)>,
    root_ms: Ghost<Seq<Move>>,
}

impl Solver {
    /// The solver's running guarantee: whenever a best solution is
    /// recorded, replaying it from the root yields exactly the
    /// recorded cost -- except for the empty solution of a last
    /// stage, whose replay yields one frame less, since the search
    /// still charges the single frame of a final throw that never
    /// happens.
    spec fn inv(self) -> bool {
        &&& self.best_cost as int <= self.config.max_cost as int + 1
        &&& match self.best_solution {
            None => true,
            Some(sol) => {
                let vr = spec_verify(
                    self.game_mode,
                    self.config,
                    self.root_pm@,
                    self.root_ms@,
                    srcs_of(sol@),
                );
                &&& self.best_cost as int <= self.config.max_cost as int
                &&& (vr == Ok::<int, GameError>(self.best_cost as int) || (sol@.len() == 0
                    && self.config.last_stage && vr == Ok::<int, GameError>(
                    self.best_cost as int - 1,
                )))
            },
        }
    }

    /// A fresh search: no solution yet, and a pruning bound one above
    /// the cost ceiling so that a solution at the ceiling is accepted.
    fn new(
        game_mode: GameMode,
        config: SolverConfig,
        root_pm: Ghost<(Seq<Option<Block>>, Block, int, int)>,
        root_ms: Ghost<Seq<Move>>,
    ) -> (r: Solver)
        ensures
            r.inv(),
            r.game_mode == game_mode,
            r.config == config,
            r.best_solution is None,
            r.best_cost as int == config.max_cost as int + 1,
            r.root_pm == root_pm,
            r.root_ms == root_ms,
            r.cur_solution@ =~= Seq::<Move>::empty(),
    {
        let best_cost = config.max_cost as u32 + 1;
        Solver {
            game_mode,
            config,
            best_solution: None,
            best_cost,
            cur_solution: Vec::new(),
            root_pm,
            root_ms,
        }
    }

    /// Explores the subtree under one node: prunes when even an
    /// immediate win cannot beat the best cost, records a terminal
    /// win, and otherwise recurses over the legal moves in order.
    fn solve(&mut self, pos: &Position, moves: &Moves, cost: u32, cost_last_throw: u32)
        requires
            old(self).inv(),
            moves_ok(pos.spec_blocks()@, moves_view(*moves)),
            spec_replay(
                old(self).root_pm@,
                old(self).root_ms@,
                srcs_of(old(self).cur_solution@),
                old(self).config.forbid_five,
                0,
                0,
            ) == Ok::<((Seq<Option<Block>>, Block, int, int), Seq<Move>, int, int), GameError>(
                (pm_of(*pos), moves_view(*moves), cost as int, cost_last_throw as int),
            ),
            cost as int <= 308 * (64 - occ_count(pos.spec_blocks()@)),
            cost_last_throw <= cost,
        ensures
            final(self).inv(),
            final(self).game_mode == old(self).game_mode,
            final(self).config == old(self).config,
            final(self).root_pm == old(self).root_pm,
            final(self).root_ms == old(self).root_ms,
            final(self).cur_solution@ == old(self).cur_solution@,
            final(self).best_cost <= old(self).best_cost,
            node_complete(
                old(self).config,
                old(self).game_mode,
                pm_of(*pos),
                moves_view(*moves),
                cost as int,
                cost_last_throw as int,
                final(self).best_cost as int,
            ),
            final(self).best_solution is None ==> old(self).best_solution is None
                && final(self).best_cost == old(self).best_cost,
        decreases occ_count(pos.spec_blocks()@),
    {
        proof {
            use_type_invariant(&pos.blocks);
            crate::block::lemma_occ_bounds(pos.spec_blocks()@);
        }
        let ghost srcs = srcs_of(self.cur_solution@);
        let ghost node_pm = pm_of(*pos);
        let ghost node_ms = moves_view(*moves);

        // The total cost if this node were already solved.
        let cost_solved: u32 = if self.config.last_stage {
            // The final throw costs a single frame, and there is no
            // clear animation to wait out.
            cost - cost_last_throw + 1
        } else {
            cost + calc_clear_cost(self.game_mode, pos, self.config.last_stage) as u32
        };

        // Prune: even solved on the spot, this branch cannot improve.
        // Soundness of the prune: along any play of the search the
        // node value only grows, so every accepted completion of this
        // node is worth at least `cost_solved`, which already fails to
        // beat the best.
        if cost_solved >= self.best_cost {
            proof {
                assert(sol_value(
                    self.config,
                    self.game_mode,
                    occ_count(node_pm.0),
                    cost as int,
                    cost_last_throw as int,
                ) == cost_solved as int);
                assert forall|tail: Seq<u8>|
                    #[trigger] spec_search_plays(
                        node_pm,
                        node_ms,
                        tail,
                        self.config.forbid_five,
                    ) implies match spec_replay(
                    node_pm,
                    node_ms,
                    tail,
                    self.config.forbid_five,
                    cost as int,
                    cost_last_throw as int,
                ) {
                    Err(_) => true,
                    Ok((pmf, msf, tot, ltf)) => spec_accepts(self.game_mode, self.config, pmf, msf)
                        ==> self.best_cost as int <= sol_value(
                        self.config,
                        self.game_mode,
                        occ_count(pmf.0),
                        tot,
                        ltf,
                    ),
                } by {
                    if spec_replay(
                        node_pm,
                        node_ms,
                        tail,
                        self.config.forbid_five,
                        cost as int,
                        cost_last_throw as int,
                    ) is Ok {
                        lemma_replay_bound(
                            self.game_mode,
                            self.config,
                            node_pm,
                            node_ms,
                            tail,
                            cost as int,
                            cost_last_throw as int,
                        );
                    }
                }
            }
            return ;
        }

        let sl = moves_as_slice(moves);
        proof {
            lemma_moves_as_slice_view(moves, sl@);
        }
        let moves_legal = pos.legal_moves(sl);
        let legal_sl = moves_as_slice(&moves_legal);
        proof {
            lemma_moves_as_slice_view(&moves_legal, legal_sl@);
        }

        // No legal move: the node is terminal; record it when it is a
        // win (an exact-target clear only counts when allowed).
        if legal_sl.len() == 0 {
            let count = pos.block_count();
            let target = self.game_mode.block_count_target();
            let solved = if self.config.forbid_just {
                count < target
            } else {
                count <= target
            };
            if solved {
                let mut path: Vec<Move> = Vec::new();
                let mut i: usize = 0;
                while i < self.cur_solution.len()
                    invariant
                        i <= self.cur_solution@.len(),
                        path@ =~= self.cur_solution@.take(i as int),
                    decreases self.cur_solution@.len() - i,
                {
                    path.push(self.cur_solution[i]);
                    i += 1;
                }
                proof {
                    assert(path@ =~= self.cur_solution@);
                }
                self.best_solution = Some(path);
                self.best_cost = cost_solved;
                proof {
                    let vr = spec_verify(
                        self.game_mode,
                        self.config,
                        self.root_pm@,
                        self.root_ms@,
                        srcs,
                    );
                    if self.config.last_stage {
                        if srcs.len() >= 1 {
                            assert(vr == Ok::<int, GameError>(cost_solved as int));
                        } else {
                            assert(cost == 0 && cost_last_throw == 0);
                            assert(vr == Ok::<int, GameError>(cost_solved as int - 1));
                        }
                    } else {
                        assert(vr == Ok::<int, GameError>(cost_solved as int));
                    }
                }
            }
            // Completeness at a terminal: no play leaves it (the legal
            // set is empty), and the empty play is either the terminal
            // just recorded or not a win at all.
            proof {
                assert(spec_legal_moves(node_pm.0, node_ms, node_pm.1).len() == 0);
                assert(sol_value(
                    self.config,
                    self.game_mode,
                    occ_count(node_pm.0),
                    cost as int,
                    cost_last_throw as int,
                ) == cost_solved as int);
                assert forall|tail: Seq<u8>|
                    #[trigger] spec_search_plays(
                        node_pm,
                        node_ms,
                        tail,
                        self.config.forbid_five,
                    ) implies match spec_replay(
                        node_pm,
                        node_ms,
                        tail,
                        self.config.forbid_five,
                        cost as int,
                        cost_last_throw as int,
                    ) {
                        Err(_) => true,
                        Ok((pmf, msf, tot, ltf)) => spec_accepts(self.game_mode, self.config, pmf, msf)
                            ==> self.best_cost as int <= sol_value(
                            self.config,
                            self.game_mode,
                            occ_count(pmf.0),
                            tot,
                            ltf,
                        ),
                    } by {
                    if tail.len() >= 1 {
                        assert(!spec_legal_moves(node_pm.0, node_ms, node_pm.1).contains(
                            spec_find_by_src(node_ms, tail[0]).unwrap(),
                        ));
                        assert(false);
                    }
                }
            }
            return ;
        }

        // Legal moves exist but the move budget is spent: a dead end.
        // No play leaves it either: the empty play is not a win (legal
        // moves remain) and any throw would overdraw the budget.
        if pos.move_count_remain() == 0 {
            proof {
                assert(spec_legal_moves(node_pm.0, node_ms, node_pm.1).len() != 0);
                assert forall|tail: Seq<u8>|
                    #[trigger] spec_search_plays(
                        node_pm,
                        node_ms,
                        tail,
                        self.config.forbid_five,
                    ) implies match spec_replay(
                        node_pm,
                        node_ms,
                        tail,
                        self.config.forbid_five,
                        cost as int,
                        cost_last_throw as int,
                    ) {
                        Err(_) => true,
                        Ok((pmf, msf, tot, ltf)) => spec_accepts(self.game_mode, self.config, pmf, msf)
                            ==> self.best_cost as int <= sol_value(
                            self.config,
                            self.game_mode,
                            occ_count(pmf.0),
                            tot,
                            ltf,
                        ),
                    } by {
                    if tail.len() >= 1 {
                        assert(spec_step(node_pm, node_ms, tail[0]) is Err);
                        assert(false);
                    }
                }
            }
            return ;
        }

        let ghost entry_best = self.best_cost;
        let ghost entry_cur = self.cur_solution@;
        let mut k: usize = 0;
        while k < legal_sl.len()
            invariant
                self.inv(),
                self.game_mode == old(self).game_mode,
                self.config == old(self).config,
                self.root_pm == old(self).root_pm,
                self.root_ms == old(self).root_ms,
                self.cur_solution@ == entry_cur,
                self.best_cost <= entry_best,
                entry_best <= old(self).best_cost,
                entry_cur == old(self).cur_solution@,
                srcs == srcs_of(entry_cur),
                k <= legal_sl@.len(),
                moves_ok(pos.spec_blocks()@, moves_view(*moves)),
                moves_view(*moves) =~= sl@,
                legal_sl@ =~= moves_view(moves_legal),
                moves_view(moves_legal) == spec_legal_moves(
                    pos.spec_blocks()@,
                    moves_view(*moves),
                    pos.spec_block_holding(),
                ),
                pos.spec_move_count_remain() >= 1,
                pos.spec_blocks()@.len() == 64,
                spec_replay(
                    self.root_pm@,
                    self.root_ms@,
                    srcs,
                    self.config.forbid_five,
                    0,
                    0,
                ) == Ok::<((Seq<Option<Block>>, Block, int, int), Seq<Move>, int, int), GameError>(
                    (pm_of(*pos), moves_view(*moves), cost as int, cost_last_throw as int),
                ),
                cost as int <= 308 * (64 - occ_count(pos.spec_blocks()@)),
                cost_last_throw <= cost,
                node_pm == pm_of(*pos),
                node_ms == moves_view(*moves),
                self.best_solution is None ==> old(self).best_solution is None
                    && self.best_cost == old(self).best_cost,
                forall|tail: Seq<u8>|
                    (#[trigger] spec_search_plays(
                        node_pm,
                        node_ms,
                        tail,
                        self.config.forbid_five,
                    )) && tail.len() >= 1 && (exists|k0: int|
                        0 <= k0 < k && legal_sl@[k0] == spec_find_by_src(
                            node_ms,
                            tail[0],
                        ).unwrap()) ==> match spec_replay(
                        node_pm,
                        node_ms,
                        tail,
                        self.config.forbid_five,
                        cost as int,
                        cost_last_throw as int,
                    ) {
                        Err(_) => true,
                        Ok((pmf, msf, tot, ltf)) => spec_accepts(self.game_mode, self.config, pmf, msf)
                            ==> self.best_cost as int <= sol_value(
                            self.config,
                            self.game_mode,
                            occ_count(pmf.0),
                            tot,
                            ltf,
                        ),
                    },
            decreases legal_sl@.len() - k,
        {
            let mv = legal_sl[k];
            proof {
                assert(spec_legal_moves(
                    pos.spec_blocks()@,
                    moves_view(*moves),
                    pos.spec_block_holding(),
                ) == spec_keep_legal(
                    pos.spec_blocks()@,
                    moves_view(*moves),
                    pos.spec_block_holding(),
                ));
                lemma_keep_legal_props(
                    pos.spec_blocks()@,
                    moves_view(*moves),
                    pos.spec_block_holding(),
                );
                assert(moves_view(moves_legal)[k as int] == mv);
            }
            let ghost j = choose|j: int|
                0 <= j < moves_view(*moves).len() && moves_view(*moves)[j] == mv;
            proof {
                lemma_find_by_src_hit(moves_view(*moves), j);
            }

            let (pos_nxt, cost_hero_move, cost_throw, erase_count) = pos.do_move(mv);
            proof {
                assert(spec_find_by_src(node_ms, mv.spec_src().spec_inner()) == Some(mv));
                assert(spec_step(node_pm, node_ms, mv.spec_src().spec_inner()) == Ok::<
                    ((Seq<Option<Block>>, Block, int, int), Seq<Move>, int, int, int),
                    GameError,
                >(
                    (
                        pm_of(pos_nxt),
                        spec_update_moves(pos_nxt.spec_blocks()@, node_ms),
                        cost_hero_move as int,
                        cost_throw as int,
                        erase_count as int,
                    ),
                ));
            }
            let ghost best_at_iter = self.best_cost;

            if self.config.forbid_five && erase_count >= 5 {
                // A five-block erase is forbidden: skip this child --
                // and a replay through it fails the same rule, so no
                // play of the search is lost.
                proof {
                    assert forall|tail: Seq<u8>|
                        (#[trigger] spec_search_plays(
                            node_pm,
                            node_ms,
                            tail,
                            self.config.forbid_five,
                        )) && tail.len() >= 1 && spec_find_by_src(node_ms, tail[0]).unwrap() == mv
                        implies match spec_replay(
                            node_pm,
                            node_ms,
                            tail,
                            self.config.forbid_five,
                            cost as int,
                            cost_last_throw as int,
                        ) {
                            Err(_) => true,
                            Ok((pmf, msf, tot, ltf)) => spec_accepts(self.game_mode, self.config, pmf, msf)
                                ==> self.best_cost as int <= sol_value(
                                self.config,
                                self.game_mode,
                                occ_count(pmf.0),
                                tot,
                                ltf,
                            ),
                        } by {
                        crate::block::lemma_find_by_src_member(node_ms, tail[0]);
                        assert(tail[0] == mv.spec_src().spec_inner());
                        assert(spec_replay(
                            node_pm,
                            node_ms,
                            tail,
                            self.config.forbid_five,
                            cost as int,
                            cost_last_throw as int,
                        ) is Err);
                    }
                }
            } else {
                let sl2 = moves_as_slice(moves);
                proof {
                    lemma_moves_as_slice_view(moves, sl2@);
                }
                let moves_nxt = pos_nxt.update_moves(sl2);
                proof {
                    use_type_invariant(&pos_nxt.blocks);
                    lemma_update_moves_ok(pos_nxt.spec_blocks()@, moves_view(*moves));
                    crate::block::lemma_occ_bounds(pos_nxt.spec_blocks()@);
                    use_type_invariant(&pos.hero_row);
                    crate::cost::lemma_throw_cost_bound_all();
                    assert(cost_hero_move as int <= 176);
                    assert(cost_throw as int <= 132);
                }
                let cost_nxt = cost + cost_hero_move as u32 + cost_throw as u32;

                self.cur_solution.push(mv);
                proof {
                    assert(srcs_of(self.cur_solution@) =~= srcs.push(
                        mv.spec_src().spec_inner(),
                    ));
                    lemma_replay_snoc(
                        self.root_pm@,
                        self.root_ms@,
                        srcs,
                        mv.spec_src().spec_inner(),
                        self.config.forbid_five,
                        0,
                        0,
                    );
                    assert(spec_step(pm_of(*pos), moves_view(*moves), mv.spec_src().spec_inner())
                        == Ok::<
                        ((Seq<Option<Block>>, Block, int, int), Seq<Move>, int, int, int),
                        GameError,
                    >(
                        (
                            pm_of(pos_nxt),
                            moves_view(moves_nxt),
                            cost_hero_move as int,
                            cost_throw as int,
                            erase_count as int,
                        ),
                    ));
                }
                self.solve(&pos_nxt, &moves_nxt, cost_nxt, cost_throw as u32);
                let popped = self.cur_solution.pop();
                proof {
                    assert(self.cur_solution@ =~= entry_cur);
                    // any play whose first throw is this child is
                    // covered by the child's completeness
                    assert forall|tail: Seq<u8>|
                        (#[trigger] spec_search_plays(
                            node_pm,
                            node_ms,
                            tail,
                            self.config.forbid_five,
                        )) && tail.len() >= 1 && spec_find_by_src(node_ms, tail[0]).unwrap() == mv
                        implies match spec_replay(
                            node_pm,
                            node_ms,
                            tail,
                            self.config.forbid_five,
                            cost as int,
                            cost_last_throw as int,
                        ) {
                            Err(_) => true,
                            Ok((pmf, msf, tot, ltf)) => spec_accepts(self.game_mode, self.config, pmf, msf)
                                ==> self.best_cost as int <= sol_value(
                                self.config,
                                self.game_mode,
                                occ_count(pmf.0),
                                tot,
                                ltf,
                            ),
                        } by {
                        crate::block::lemma_find_by_src_member(node_ms, tail[0]);
                        assert(tail[0] == mv.spec_src().spec_inner());
                        assert(spec_replay(
                            node_pm,
                            node_ms,
                            tail,
                            self.config.forbid_five,
                            cost as int,
                            cost_last_throw as int,
                        ) == spec_replay(
                            pm_of(pos_nxt),
                            moves_view(moves_nxt),
                            tail.skip(1),
                            self.config.forbid_five,
                            cost_nxt as int,
                            cost_throw as int,
                        ));
                        assert(spec_search_plays(
                            pm_of(pos_nxt),
                            moves_view(moves_nxt),
                            tail.skip(1),
                            self.config.forbid_five,
                        ));
                    }
                }
            }
            proof {
                // fold this child into the processed prefix
                assert forall|tail: Seq<u8>|
                    (#[trigger] spec_search_plays(
                        node_pm,
                        node_ms,
                        tail,
                        self.config.forbid_five,
                    )) && tail.len() >= 1 && (exists|k0: int|
                        0 <= k0 < k + 1 && legal_sl@[k0] == spec_find_by_src(
                            node_ms,
                            tail[0],
                        ).unwrap()) implies match spec_replay(
                        node_pm,
                        node_ms,
                        tail,
                        self.config.forbid_five,
                        cost as int,
                        cost_last_throw as int,
                    ) {
                        Err(_) => true,
                        Ok((pmf, msf, tot, ltf)) => spec_accepts(self.game_mode, self.config, pmf, msf)
                            ==> self.best_cost as int <= sol_value(
                            self.config,
                            self.game_mode,
                            occ_count(pmf.0),
                            tot,
                            ltf,
                        ),
                    } by {
                    let m0 = spec_find_by_src(node_ms, tail[0]).unwrap();
                    let k0 = choose|k0: int| 0 <= k0 < k + 1 && legal_sl@[k0] == m0;
                    if k0 < k {
                        assert(self.best_cost <= best_at_iter);
                    } else {
                        assert(m0 == mv);
                    }
                }
            }
            k += 1;
        }
    }
}

/// Searches for a minimum-cost solution under the argument's rules and
/// cost ceiling.
///
/// Soundness: a returned solution replays -- verifying it against the
/// same argument yields exactly the returned cost (for the empty
/// solution of a last stage, one frame less) -- and the cost never
/// exceeds the ceiling.
///
/// Completeness, over the plays of the search itself
/// (`spec_search_plays`: every throw drawn from the legal set of its
/// position and erasing at most five blocks): when nothing is
/// returned, no such play reaches an accepted win within the ceiling;
/// when a solution is returned, no such play reaches an accepted win
/// of smaller value.  Raising only the ceiling therefore never makes
/// a returned solution of that class worse.  Beyond that class the
/// search is genuinely incomplete, as the game's search always was: a
/// throw erasing ten or more blocks can save more clear-animation
/// frames than its own tabulated cost (erasing ten blocks saves 110
/// frames where the cheapest such throw is tabulated at 107), so the
/// pruning bound may overshoot such a line; and a direct wildcard hit
/// in an all-wildcard position replays but is a dead end to the
/// search by the game's own rule.
pub fn solve_problem(arg: &SolverArgument) -> (r: Option<(Solution, Cost)>)
    ensures
        match r {
            None => node_complete(
                arg.spec_config(),
                arg.spec_game_mode(),
                pm_of(arg.spec_position()),
                arg.spec_moves(),
                0,
                0,
                arg.spec_config().max_cost as int + 1,
            ),
            Some((sol, c)) => {
                let vr = spec_verify(
                    arg.spec_game_mode(),
                    arg.spec_config(),
                    pm_of(arg.spec_position()),
                    arg.spec_moves(),
                    sol.spec_srcs(),
                );
                &&& c <= arg.spec_config().max_cost
                &&& (vr == Ok::<int, GameError>(c as int) || (sol.spec_srcs().len() == 0
                    && arg.spec_config().last_stage && vr == Ok::<int, GameError>(c as int - 1)))
                &&& node_complete(
                    arg.spec_config(),
                    arg.spec_game_mode(),
                    pm_of(arg.spec_position()),
                    arg.spec_moves(),
                    0,
                    0,
                    c as int,
                )
            },
        },
{
    proof {
        use_type_invariant(arg);
        use_type_invariant(&arg.pos.blocks);
        crate::block::lemma_occ_bounds(arg.pos.spec_blocks()@);
    }
    let mut solver = Solver::new(
        arg.game_mode(),
        *arg.config(),
        Ghost(pm_of(arg.spec_position())),
        Ghost(arg.spec_moves()),
    );

    proof {
        assert(srcs_of(solver.cur_solution@) =~= Seq::<u8>::empty());
    }
    solver.solve(arg.position(), arg.moves(), 0, 0);

    let best_cost = solver.best_cost;
    match solver.best_solution {
        Some(path) => {
            let solution = Solution::from_moves(path.as_slice());
            proof {
                assert(solution.spec_srcs() =~= srcs_of(path@));
            }
            Some((solution, best_cost as u16))
        },
        None => None,
    }
}

} // verus!
