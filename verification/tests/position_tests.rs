//! Tests of positions: text round trip and the single-throw
//! transition.

use flipull_solver::{BlocksCol, BlocksRow, BlocksSquare, GroundRow, Move, MoveDirection,
    Position};

fn psq(c: u8, r: u8) -> BlocksSquare {
    BlocksSquare::new(BlocksCol::from_inner(c).unwrap(), BlocksRow::from_inner(r).unwrap())
}

fn pgrow(r: u8) -> GroundRow {
    GroundRow::from_inner(r).unwrap()
}

fn parse_position(s: &str) -> Position {
    Position::from_text(s).unwrap()
}

#[test]
fn position_test_io() {
    let cases = [
        "1 1 10\n......\n......\n......\n......\n......\n......\n",
        "12 5 255\n1.1.1.\n111111\n222222\n333333\n444444\n444444\n",
    ];

    for case in cases {
        let pos = parse_position(case);
        assert_eq!(pos.to_text(), case);
    }
}

#[test]
fn test_do_move() {
    let cases = [
        (
            "11 3 5\n......\n......\n222222\n333333\n344444\n311111\n",
            Move::new(pgrow(10), psq(6, 4), MoveDirection::Horizontal),
            "10 3 4\n......\n......\n......\n.22222\n.44444\n211111\n",
        ),
        (
            "1 1 5\n......\n11....\n11....\n11....\n11222.\n312223\n",
            Move::new(pgrow(6), psq(1, 2), MoveDirection::Vertical),
            "6 3 4\n......\n.1....\n.1....\n.1....\n.1222.\n112223\n",
        ),
    ];

    for (before, mv, after) in cases {
        let before = parse_position(before);
        let after = parse_position(after);
        let (after_actual, _, _, _) = before.do_move(mv);
        assert_eq!(after_actual, after);
    }
}
