//! Tests of the block grid: squares, text round trips, move updates
//! and throws.

use flipull_solver::{Block, Blocks, BlocksCol, BlocksRow, BlocksSquare, GroundRow, Move,
    MoveDirection, Moves};

fn col(c: u8) -> BlocksCol {
    BlocksCol::from_inner(c).unwrap()
}

fn row(r: u8) -> BlocksRow {
    BlocksRow::from_inner(r).unwrap()
}

fn sq(c: u8, r: u8) -> BlocksSquare {
    BlocksSquare::new(col(c), row(r))
}

fn grow(r: u8) -> GroundRow {
    GroundRow::from_inner(r).unwrap()
}

fn parse_blocks(s: &str) -> Blocks {
    Blocks::from_text(s).unwrap()
}

fn make_moves(moves: impl IntoIterator<Item = Move>) -> Moves {
    moves.into_iter().collect()
}

#[test]
fn test_square_new() {
    for r in BlocksRow::all() {
        for c in BlocksCol::all() {
            let s = BlocksSquare::new(c, r);
            assert_eq!(s.col(), c);
            assert_eq!(s.row(), r);
        }
    }
}

#[test]
fn test_blocks_io() {
    let cases = [
        "......\n......\n......\n......\n......\n......\n",
        "1.1.1.\n111111\n222222\n333333\n445444\n444444\n",
    ];

    for case in cases {
        let blocks = parse_blocks(case);
        assert_eq!(blocks.to_text(), case);
    }
}

#[test]
fn test_blocks_update_moves() {
    let cases = [(
        "......\n1.....\n1.....\n1..3..\n12.34.\n12.344\n",
        [
            Move::new(grow(1), sq(6, 1), MoveDirection::Vertical),
            Move::new(grow(2), sq(5, 1), MoveDirection::Vertical),
            Move::new(grow(3), sq(4, 1), MoveDirection::Vertical),
            Move::new(grow(4), sq(3, 1), MoveDirection::Vertical),
            Move::new(grow(5), sq(2, 1), MoveDirection::Vertical),
            Move::new(grow(6), sq(1, 1), MoveDirection::Vertical),
            Move::new(grow(7), sq(6, 1), MoveDirection::Horizontal),
            Move::new(grow(8), sq(6, 2), MoveDirection::Horizontal),
            Move::new(grow(9), sq(6, 3), MoveDirection::Horizontal),
            Move::new(grow(10), sq(6, 4), MoveDirection::Horizontal),
            Move::new(grow(11), sq(6, 5), MoveDirection::Horizontal),
            Move::new(grow(12), sq(6, 6), MoveDirection::Horizontal),
        ],
        make_moves([
            Move::new(grow(1), sq(6, 6), MoveDirection::Vertical),
            Move::new(grow(2), sq(5, 5), MoveDirection::Vertical),
            Move::new(grow(3), sq(4, 4), MoveDirection::Vertical),
            Move::new(grow(5), sq(2, 5), MoveDirection::Vertical),
            Move::new(grow(6), sq(1, 2), MoveDirection::Vertical),
            Move::new(grow(7), sq(1, 2), MoveDirection::Vertical),
            Move::new(grow(8), sq(1, 2), MoveDirection::Horizontal),
            Move::new(grow(9), sq(1, 3), MoveDirection::Horizontal),
            Move::new(grow(10), sq(4, 4), MoveDirection::Horizontal),
            Move::new(grow(11), sq(5, 5), MoveDirection::Horizontal),
            Move::new(grow(12), sq(6, 6), MoveDirection::Horizontal),
        ]),
    )];

    for (blocks, moves_before, moves_after) in cases {
        let blocks = parse_blocks(blocks);
        assert_eq!(blocks.update_moves(&moves_before), moves_after);
    }
}

#[test]
fn test_blocks_do_move_horizontal() {
    const HORI: MoveDirection = MoveDirection::Horizontal;

    let cases = [
        (
            "2.1111\n333311\n222222\n333333\n444444\n333333\n",
            Move::new(grow(7), sq(6, 1), HORI),
            Block::Normal1,
            "1.....\n333311\n222222\n333333\n444444\n333333\n",
            Block::Normal2,
            sq(2, 1),
            4,
        ),
        (
            "211111\n333311\n222222\n333333\n444444\n333333\n",
            Move::new(grow(12), sq(6, 6), HORI),
            Block::Wild,
            "......\n211111\n333311\n222222\n333333\n444444\n",
            Block::Normal3,
            sq(1, 6),
            6,
        ),
        (
            "......\n......\n22222.\n33333.\n344444\n411111\n",
            Move::new(grow(10), sq(5, 4), HORI),
            Block::Normal3,
            "......\n......\n......\n.2222.\n244444\n311111\n",
            Block::Normal4,
            sq(1, 5),
            6,
        ),
        (
            "......\n......\n222225\n333333\n344444\n411111\n",
            Move::new(grow(9), sq(6, 3), HORI),
            Block::Normal3,
            "......\n......\n22223.\n333333\n344444\n411111\n",
            Block::Normal2,
            sq(6, 3),
            1,
        ),
        (
            "......\n......\n222222\n333335\n344444\n411111\n",
            Move::new(grow(10), sq(6, 4), HORI),
            Block::Normal3,
            "......\n......\n......\n.22222\n244444\n311111\n",
            Block::Normal4,
            sq(1, 5),
            7,
        ),
        (
            "......\n......\n222222\n335333\n344444\n411111\n",
            Move::new(grow(10), sq(6, 4), HORI),
            Block::Normal3,
            "......\n......\n......\n.22222\n244444\n311111\n",
            Block::Normal4,
            sq(1, 5),
            7,
        ),
        (
            "......\n.5....\n.22222\n.35333\n.44444\n.11111\n",
            Move::new(grow(8), sq(2, 2), HORI),
            Block::Normal1,
            "......\n......\n.22222\n.35333\n.44444\n.11111\n",
            Block::Normal1,
            sq(1, 6),
            1,
        ),
    ];

    for (before, mv, block, after, block_res, sq_res, erase_count) in cases {
        let before = parse_blocks(before);
        let after = parse_blocks(after);
        assert_eq!(before.do_move(mv, block), (after, block_res, sq_res, erase_count));
    }
}

#[test]
fn test_blocks_do_move_vertical() {
    const VERT: MoveDirection = MoveDirection::Vertical;

    let cases = [
        (
            ".....1\n....21\n...322\n..4322\n..4322\n..4322\n",
            Move::new(grow(1), sq(6, 1), VERT),
            Block::Normal1,
            "......\n....2.\n...321\n..4322\n..4322\n..4322\n",
            Block::Normal2,
            sq(6, 2),
            2,
        ),
        (
            "......\n11....\n11....\n11....\n11222.\n112223\n",
            Move::new(grow(1), sq(1, 2), VERT),
            Block::Wild,
            "......\n.1....\n.1....\n.1....\n.1222.\n.12223\n",
            Block::Normal1,
            sq(1, 6),
            5,
        ),
        (
            "......\n15....\n12....\n11....\n11222.\n112223\n",
            Move::new(grow(1), sq(2, 2), VERT),
            Block::Normal1,
            "......\n1.....\n11....\n11....\n11222.\n112223\n",
            Block::Normal2,
            sq(2, 2),
            1,
        ),
        (
            "......\n15....\n11....\n11....\n11222.\n122223\n",
            Move::new(grow(1), sq(2, 2), VERT),
            Block::Normal1,
            "......\n1.....\n1.....\n1.....\n1.222.\n112223\n",
            Block::Normal2,
            sq(2, 5),
            4,
        ),
        (
            "......\n11....\n11....\n15....\n11222.\n112223\n",
            Move::new(grow(1), sq(2, 2), VERT),
            Block::Normal1,
            "......\n1.....\n1.....\n1.....\n1.222.\n1.2223\n",
            Block::Normal1,
            sq(2, 6),
            5,
        ),
        (
            "......\n1.....\n1.....\n1.....\n1.222.\n152223\n",
            Move::new(grow(1), sq(2, 6), VERT),
            Block::Normal1,
            "......\n1.....\n1.....\n1.....\n1.222.\n1.2223\n",
            Block::Normal1,
            sq(2, 6),
            1,
        ),
    ];

    for (before, mv, block, after, block_res, sq_res, erase_count) in cases {
        let before = parse_blocks(before);
        let after = parse_blocks(after);
        assert_eq!(before.do_move(mv, block), (after, block_res, sq_res, erase_count));
    }
}
