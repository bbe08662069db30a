//! Scenario tests: solver optimality on a tiny board, cost-ceiling
//! monotonicity, verification agreement, the full-row clear, the
//! candidate fall column, the wildcard dead end, and the cost
//! formulas.

use flipull_solver::{
    calc_hero_move_cost, calc_throw_cost, solve_problem, Block, Blocks, BlocksCol, BlocksRow,
    BlocksSquare, GameError, GroundRow, Move, MoveDirection, Problem, Solution, SolverArgument,
    SolverConfig, COST_INF,
};

fn qsq(c: u8, r: u8) -> BlocksSquare {
    BlocksSquare::new(BlocksCol::from_inner(c).unwrap(), BlocksRow::from_inner(r).unwrap())
}

fn qgrow(r: u8) -> GroundRow {
    GroundRow::from_inner(r).unwrap()
}

/// A `Normal`-mode problem with an empty ground map and the given
/// bottom-left board rows.
fn normal_problem(target: u8, board_rows: [&str; 6]) -> Problem {
    let mut full = String::new();
    full.push_str("normal\n");
    full.push_str(&target.to_string());
    full.push('\n');
    for _ in 0..6 {
        full.push_str("........\n");
    }
    for row in board_rows {
        full.push_str(row);
        full.push_str("..\n");
    }
    Problem::from_text(&full).unwrap()
}

fn advance_problem(holding: u8, remain: u8, board_rows: [&str; 6]) -> Problem {
    let mut full = String::new();
    full.push_str("advance\n");
    full.push_str(&holding.to_string());
    full.push(' ');
    full.push_str(&remain.to_string());
    full.push('\n');
    for _ in 0..6 {
        full.push_str("........\n");
    }
    for row in board_rows {
        full.push_str(row);
        full.push_str("..\n");
    }
    Problem::from_text(&full).unwrap()
}

/// The full bottom row clears with one horizontal throw: the board
/// empties and six blocks are erased.
#[test]
fn full_row_clears_in_one_throw() {
    let problem = normal_problem(0, ["......", "......", "......", "......", "......", "333333"]);
    let config = SolverConfig::default();
    let arg = SolverArgument::new(&problem, &config);

    let mv = arg
        .moves()
        .iter()
        .copied()
        .find(|m| m.src().to_inner() == 12)
        .expect("a throw from the bottom row must be a candidate");
    assert!(arg.position().is_legal_move(mv));
    assert_eq!(mv.direction(), MoveDirection::Horizontal);

    let (pos, _cost_move, _cost_throw, erase_count) = arg.position().do_move(mv);
    assert_eq!(erase_count, 6);
    assert_eq!(pos.block_count(), 0);
    assert_eq!(pos.blocks().to_text(), "......\n......\n......\n......\n......\n......\n");
}

/// Solver optimality on a hand-checkable board: a single row of three
/// same-colored blocks, cleared to zero.  The solver's answer is no
/// worse than the obvious one-throw solution.
#[test]
fn solver_beats_enumerated_alternative() {
    let problem = normal_problem(0, ["......", "......", "......", "......", "......", "333..."]);
    let config = SolverConfig::default();
    let arg = SolverArgument::new(&problem, &config);

    let (solution, cost) = solve_problem(&arg).expect("the board is clearly solvable");
    assert!(!solution.is_empty());

    // the obvious alternative: one horizontal throw from the bottom
    let alternative = Solution::from_text("12").unwrap();
    let alt_cost = alternative.verify(&arg).expect("the one-throw solution must replay");
    assert!(cost <= alt_cost);
}

/// Verification agreement: replaying what the solver returns yields
/// exactly the cost the solver reported.
#[test]
fn solver_and_verify_agree() {
    let problem = normal_problem(2, ["......", "......", "2.....", "23....", "23....", "332..."]);
    let config = SolverConfig::default();
    let arg = SolverArgument::new(&problem, &config);

    if let Some((solution, cost)) = solve_problem(&arg) {
        let replayed = solution.verify(&arg).expect("a returned solution must replay");
        assert_eq!(replayed, cost);
    } else {
        panic!("the board should be solvable");
    }
}

/// Raising the cost ceiling never makes the found solution worse.
#[test]
fn higher_cost_ceiling_never_worse() {
    let problem = normal_problem(0, ["......", "......", "......", "......", "......", "333..."]);

    let tight = SolverConfig { max_cost: 400, ..SolverConfig::default() };
    let loose = SolverConfig { max_cost: COST_INF, ..SolverConfig::default() };

    let arg_tight = SolverArgument::new(&problem, &tight);
    let arg_loose = SolverArgument::new(&problem, &loose);

    let (_, cost_tight) = solve_problem(&arg_tight).expect("solvable under the tight ceiling");
    let (_, cost_loose) = solve_problem(&arg_loose).expect("solvable under the loose ceiling");
    assert!(cost_loose <= cost_tight);
    assert!(cost_tight <= 400);
}

/// With nothing obstructing the upper rows, every drop candidate falls
/// into the leftmost column.
#[test]
fn unobstructed_drops_land_in_leftmost_column() {
    let problem = normal_problem(0, ["1.....", "1.....", "1.....", "1.....", "1.....", "1....."]);
    let config = SolverConfig::default();
    let arg = SolverArgument::new(&problem, &config);

    let mut seen_drop = false;
    for mv in arg.moves().iter() {
        if mv.src().to_inner() <= 6 {
            seen_drop = true;
            assert_eq!(mv.direction(), MoveDirection::Vertical);
            assert_eq!(mv.dst().col().to_inner(), 1);
        }
    }
    assert!(seen_drop);
}

/// A position whose only erasable destinations are wildcards offers no
/// legal move, although hitting a wildcard directly is legal in
/// itself.
#[test]
fn all_wild_destinations_are_a_dead_end() {
    let blocks = Blocks::from_text("......\n......\n......\n......\n......\n5.....\n").unwrap();
    let mv = Move::new(qgrow(6), qsq(1, 6), MoveDirection::Vertical);

    // the single reachable destination is the wildcard: no legal move
    assert!(blocks.is_legal_move(mv, Block::Normal1));
    let legal = blocks.legal_moves(&[mv], Block::Normal1);
    assert!(legal.is_empty());

    // beside a normal destination the direct wildcard hit is legal
    let blocks2 = Blocks::from_text("......\n......\n......\n......\n......\n5.1...\n").unwrap();
    let mv2 = Move::new(qgrow(5), qsq(3, 6), MoveDirection::Vertical);
    let legal2 = blocks2.legal_moves(&[mv, mv2], Block::Normal1);
    assert_eq!(legal2.len(), 2);
}

/// Replay failures: each rule violation is reported as its own error.
#[test]
fn verify_reports_each_failure() {
    // out of moves
    let p = advance_problem(3, 0, ["......", "......", "......", "......", "......", "333..."]);
    let arg = SolverArgument::new(&p, &SolverConfig::default());
    let sol = Solution::from_text("12").unwrap();
    assert_eq!(sol.verify(&arg).unwrap_err(), GameError::OutOfMoves);

    // a row with no candidate move
    let p = normal_problem(0, ["......", "......", "......", "......", "......", "333333"]);
    let arg = SolverArgument::new(&p, &SolverConfig::default());
    let sol = Solution::from_text("12,12").unwrap();
    assert_eq!(sol.verify(&arg).unwrap_err(), GameError::IllegalMove);

    // a five-block erase under the forbid-five rule
    let config = SolverConfig { forbid_five: true, ..SolverConfig::default() };
    let arg = SolverArgument::new(&p, &config);
    let sol = Solution::from_text("12").unwrap();
    assert_eq!(sol.verify(&arg).unwrap_err(), GameError::FiveForbidden);

    // stopping while legal moves remain
    let arg = SolverArgument::new(&p, &SolverConfig::default());
    let sol = Solution::from_text("1").unwrap();
    assert_eq!(sol.verify(&arg).unwrap_err(), GameError::LegalMovesRemain);

    // an exact-target clear under the forbid-just rule
    let p = advance_problem(1, 10, ["......", "......", "......", "......", "......", "222..."]);
    let config = SolverConfig { forbid_just: true, ..SolverConfig::default() };
    let arg = SolverArgument::new(&p, &config);
    let sol = Solution::from_moves(&[]);
    assert_eq!(sol.verify(&arg).unwrap_err(), GameError::JustClearForbidden);

    // ending above the target
    let p = advance_problem(1, 10, ["......", "......", "......", "......", "2.....", "222..."]);
    let arg = SolverArgument::new(&p, &SolverConfig::default());
    let sol = Solution::from_moves(&[]);
    assert_eq!(sol.verify(&arg).unwrap_err(), GameError::NotSolved);
}

/// The exact frame formulas: thrower movement, throw table entries,
/// and the stage-clear animation.
#[test]
fn cost_formulas() {
    assert_eq!(calc_hero_move_cost(qgrow(12), qgrow(7)), 80);
    assert_eq!(calc_hero_move_cost(qgrow(3), qgrow(3)), 0);

    assert_eq!(calc_throw_cost(qgrow(1), qsq(1, 1)), 107);
    assert_eq!(calc_throw_cost(qgrow(1), qsq(6, 6)), 112);
    assert_eq!(calc_throw_cost(qgrow(12), qsq(6, 6)), 71);
    assert_eq!(calc_throw_cost(qgrow(7), qsq(1, 6)), 108);
}

/// The clear cost of the one-throw clear: the fireworks bonus of a
/// perfect `Normal`-mode clear plus nothing per block, on top of the
/// tabulated throw cost.
#[test]
fn clear_cost_formula() {
    let problem = normal_problem(0, ["......", "......", "......", "......", "......", "333..."]);
    let config = SolverConfig::default();
    let arg = SolverArgument::new(&problem, &config);
    // one throw from row 12: no thrower movement, throw cost 88
    // (last square passed is the bottom-left corner), perfect-clear
    // fireworks 96
    let alternative = Solution::from_text("12").unwrap();
    assert_eq!(alternative.verify(&arg).unwrap(), 88 + 96);
}
