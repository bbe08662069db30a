//! Tests of the text forms: solutions, rejected inputs, and helper
//! predicates.

use flipull_solver::{is_block_char, Blocks, GameError, Position, Solution};

#[test]
fn solution_text_round_trip() {
    let sol = Solution::from_text("3,12,1").unwrap();
    assert_eq!(sol.len(), 3);
    assert!(!sol.is_empty());
    assert_eq!(sol.srcs()[1].to_inner(), 12);
    assert_eq!(sol.to_text(), "3,12,1");
}

#[test]
fn solution_rejects_bad_rows() {
    assert_eq!(Solution::from_text("").unwrap_err(), GameError::BadNumber);
    assert_eq!(Solution::from_text("3,x").unwrap_err(), GameError::BadNumber);
    assert_eq!(Solution::from_text("13").unwrap_err(), GameError::BadRowValue);
    assert_eq!(Solution::from_text("0").unwrap_err(), GameError::BadRowValue);
    assert_eq!(Solution::from_text("03").unwrap_err(), GameError::BadNumber);
}

#[test]
fn blocks_text_rejects_bad_input() {
    assert_eq!(
        Blocks::from_text("......\n......\n......\n......\n......\n.....\n").unwrap_err(),
        GameError::BadLineCount
    );
    assert_eq!(
        Blocks::from_text("x.....\n......\n......\n......\n......\n......\n").unwrap_err(),
        GameError::BadBlockChar
    );
    assert_eq!(
        Blocks::from_text(".......\n......\n......\n......\n......\n.....\n").unwrap_err(),
        GameError::BadLineLength
    );
}

#[test]
fn position_text_rejects_bad_input() {
    let board = "......\n......\n......\n......\n......\n......\n";
    assert_eq!(
        Position::from_text(&format!("x 1 5\n{board}")).unwrap_err(),
        GameError::BadNumber
    );
    assert_eq!(
        Position::from_text(&format!("13 1 5\n{board}")).unwrap_err(),
        GameError::BadRowValue
    );
    assert_eq!(
        Position::from_text(&format!("1 9 5\n{board}")).unwrap_err(),
        GameError::BadBlockValue
    );
    assert_eq!(Position::from_text("1 1 5").unwrap_err(), GameError::MissingLine);
}

#[test]
fn block_char_predicate() {
    assert!(is_block_char('1'));
    assert!(is_block_char('5'));
    assert!(!is_block_char('.'));
    assert!(!is_block_char('6'));
    assert!(!is_block_char('#'));
}

#[test]
fn error_messages_are_stable() {
    assert_eq!(GameError::BadNumber.message(), "invalid number");
    assert_eq!(GameError::NotSolved.message(), "final board is not solved");
}
