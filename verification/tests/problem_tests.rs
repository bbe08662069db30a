//! Tests of problems: text round trip and construction invariants.

use flipull_solver::{GameError, Problem};

fn parse_problem(s: &str) -> Problem {
    Problem::from_text(s).unwrap()
}

#[test]
fn problem_test_io() {
    let cases = [
        "advance\n2 33\n#####...\n##......\n#.......\n........\n........\n........\n311432..\n222242|.\n334422..\n422224|.\n344244..\n133344..\n",
        "normal\n7\n#####...\n##......\n#.......\n........\n........\n........\n311432..\n222242|.\n334422..\n422224|.\n344244..\n133344..\n",
        "normal\n8\n####....\n###.....\n##......\n#.......\n........\n........\n13224...\n11144...\n32411...\n12223...\n32333|..\n34444...\n",
    ];

    for case in cases {
        let problem = parse_problem(case);
        assert_eq!(problem.to_text(), case);
    }
}

#[test]
fn problem_rejects_floating_wall() {
    let text = "normal\n0\n........\n#.......\n........\n........\n........\n........\n........\n........\n........\n........\n........\n........\n";
    assert_eq!(Problem::from_text(text).unwrap_err(), GameError::FloatingWall);
}

#[test]
fn problem_rejects_wall_in_blocks_area() {
    let text = "normal\n0\n#.......\n#.......\n#.......\n#.......\n#.......\n#.......\n#.......\n........\n........\n........\n........\n........\n";
    assert_eq!(Problem::from_text(text).unwrap_err(), GameError::WallInBlocksArea);
}

#[test]
fn problem_rejects_wildcard_in_advance() {
    let text = "advance\n2 33\n........\n........\n........\n........\n........\n........\n5.......\n........\n........\n........\n........\n........\n";
    assert_eq!(Problem::from_text(text).unwrap_err(), GameError::WildcardInAdvance);
}

#[test]
fn problem_rejects_bad_mode() {
    let text = "bogus\n7\n........\n........\n........\n........\n........\n........\n........\n........\n........\n........\n........\n........\n";
    assert_eq!(Problem::from_text(text).unwrap_err(), GameError::BadGameMode);
}

#[test]
fn problem_rejects_bad_params() {
    let text = "advance\n2x33\n........\n........\n........\n........\n........\n........\n........\n........\n........\n........\n........\n........\n";
    assert_eq!(Problem::from_text(text).unwrap_err(), GameError::BadModeParams);
}
