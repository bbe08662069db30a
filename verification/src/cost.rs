//! Frame costs: thrower movement, block throws, and stage-clear
//! animation.

use vstd::prelude::*;

use crate::block::BlocksSquare;
use crate::block::occ_count;
use crate::game_mode::GameMode;
use crate::ground::GroundRow;
use crate::position::Position;

verus! {

/// A duration in frames.
pub type Cost = u16;

/// Stands in for an unreachable cost; no solution this library searches
/// for comes near it.
pub const COST_INF: u16 = 30000;

/// Frames the thrower needs to move one row.
pub const COST_HERO_STEP: u16 = 16;

/// Frames of the stage-clear animation per remaining block.
pub const COST_CLEAR_ERASE_BLOCK: u16 = 11;

/// Frames of the fireworks shown for a perfect clear in `Normal` mode.
pub const COST_CLEAR_FIREWORKS: u16 = 96;

/// Remaining block count at or under which a `Normal`-mode clear is
/// perfect.
pub const BLOCK_COUNT_PERFECT: u8 = 3;

/// Frames to move the thrower between two ground rows: one step per
/// row of distance.
pub open spec fn spec_hero_move_cost(from: int, to: int) -> int {
    if from >= to {
        16 * (from - to)
    } else {
        16 * (to - from)
    }
}

/// Frames a throw from ground row `src` takes when the thrown block
/// last passes the square with packed index `sq`.  The values are the
/// exact frame timings of the game's throw animation, tabulated
/// empirically; they follow no closed form.  Zero marks a pair no
/// legal trajectory can produce.
pub open spec fn spec_throw_cost(src: u8, sq: u8) -> u16 {
    match (src, sq) {
        (1, 9) => 107,
        (1, 17) => 113,
        (1, 25) => 119,
        (1, 33) => 125,
        (1, 41) => 131,
        (1, 49) => 132,
        (1, 10) => 103,
        (1, 18) => 109,
        (1, 26) => 115,
        (1, 34) => 121,
        (1, 42) => 127,
        (1, 50) => 128,
        (1, 11) => 99,
        (1, 19) => 105,
        (1, 27) => 111,
        (1, 35) => 117,
        (1, 43) => 123,
        (1, 51) => 124,
        (1, 12) => 95,
        (1, 20) => 101,
        (1, 28) => 107,
        (1, 36) => 113,
        (1, 44) => 119,
        (1, 52) => 120,
        (1, 13) => 91,
        (1, 21) => 97,
        (1, 29) => 103,
        (1, 37) => 109,
        (1, 45) => 115,
        (1, 53) => 116,
        (1, 14) => 87,
        (1, 22) => 93,
        (1, 30) => 99,
        (1, 38) => 105,
        (1, 46) => 111,
        (1, 54) => 112,
        (2, 9) => 104,
        (2, 17) => 110,
        (2, 25) => 116,
        (2, 33) => 122,
        (2, 41) => 128,
        (2, 49) => 129,
        (2, 10) => 100,
        (2, 18) => 106,
        (2, 26) => 112,
        (2, 34) => 118,
        (2, 42) => 124,
        (2, 50) => 125,
        (2, 11) => 96,
        (2, 19) => 102,
        (2, 27) => 108,
        (2, 35) => 114,
        (2, 43) => 120,
        (2, 51) => 121,
        (2, 12) => 92,
        (2, 20) => 98,
        (2, 28) => 104,
        (2, 36) => 110,
        (2, 44) => 116,
        (2, 52) => 117,
        (2, 13) => 88,
        (2, 21) => 94,
        (2, 29) => 100,
        (2, 37) => 106,
        (2, 45) => 112,
        (2, 53) => 113,
        (2, 14) => 84,
        (2, 22) => 90,
        (2, 30) => 96,
        (2, 38) => 102,
        (2, 46) => 108,
        (2, 54) => 109,
        (3, 9) => 100,
        (3, 17) => 106,
        (3, 25) => 112,
        (3, 33) => 118,
        (3, 41) => 124,
        (3, 49) => 125,
        (3, 10) => 96,
        (3, 18) => 102,
        (3, 26) => 108,
        (3, 34) => 114,
        (3, 42) => 120,
        (3, 50) => 121,
        (3, 11) => 92,
        (3, 19) => 98,
        (3, 27) => 104,
        (3, 35) => 110,
        (3, 43) => 116,
        (3, 51) => 117,
        (3, 12) => 88,
        (3, 20) => 94,
        (3, 28) => 100,
        (3, 36) => 106,
        (3, 44) => 112,
        (3, 52) => 113,
        (3, 13) => 84,
        (3, 21) => 90,
        (3, 29) => 96,
        (3, 37) => 102,
        (3, 45) => 108,
        (3, 53) => 109,
        (3, 14) => 80,
        (3, 22) => 86,
        (3, 30) => 92,
        (3, 38) => 98,
        (3, 46) => 104,
        (3, 54) => 105,
        (4, 9) => 96,
        (4, 17) => 102,
        (4, 25) => 108,
        (4, 33) => 114,
        (4, 41) => 120,
        (4, 49) => 121,
        (4, 10) => 92,
        (4, 18) => 98,
        (4, 26) => 104,
        (4, 34) => 110,
        (4, 42) => 116,
        (4, 50) => 117,
        (4, 11) => 88,
        (4, 19) => 94,
        (4, 27) => 100,
        (4, 35) => 106,
        (4, 43) => 112,
        (4, 51) => 113,
        (4, 12) => 84,
        (4, 20) => 90,
        (4, 28) => 96,
        (4, 36) => 102,
        (4, 44) => 108,
        (4, 52) => 109,
        (4, 13) => 80,
        (4, 21) => 86,
        (4, 29) => 92,
        (4, 37) => 98,
        (4, 45) => 104,
        (4, 53) => 105,
        (4, 14) => 76,
        (4, 22) => 82,
        (4, 30) => 88,
        (4, 38) => 94,
        (4, 46) => 100,
        (4, 54) => 101,
        (5, 9) => 92,
        (5, 17) => 98,
        (5, 25) => 104,
        (5, 33) => 110,
        (5, 41) => 116,
        (5, 49) => 117,
        (5, 10) => 88,
        (5, 18) => 94,
        (5, 26) => 100,
        (5, 34) => 106,
        (5, 42) => 112,
        (5, 50) => 113,
        (5, 11) => 84,
        (5, 19) => 90,
        (5, 27) => 96,
        (5, 35) => 102,
        (5, 43) => 108,
        (5, 51) => 109,
        (5, 12) => 80,
        (5, 20) => 86,
        (5, 28) => 92,
        (5, 36) => 98,
        (5, 44) => 104,
        (5, 52) => 105,
        (5, 13) => 76,
        (5, 21) => 82,
        (5, 29) => 88,
        (5, 37) => 94,
        (5, 45) => 100,
        (5, 53) => 101,
        (5, 14) => 72,
        (5, 22) => 78,
        (5, 30) => 84,
        (5, 38) => 90,
        (5, 46) => 96,
        (5, 54) => 97,
        (6, 9) => 87,
        (6, 17) => 93,
        (6, 25) => 99,
        (6, 33) => 105,
        (6, 41) => 111,
        (6, 49) => 112,
        (6, 10) => 83,
        (6, 18) => 89,
        (6, 26) => 95,
        (6, 34) => 101,
        (6, 42) => 107,
        (6, 50) => 108,
        (6, 11) => 79,
        (6, 19) => 85,
        (6, 27) => 91,
        (6, 35) => 97,
        (6, 43) => 103,
        (6, 51) => 104,
        (6, 12) => 75,
        (6, 20) => 81,
        (6, 28) => 87,
        (6, 36) => 93,
        (6, 44) => 99,
        (6, 52) => 100,
        (6, 13) => 71,
        (6, 21) => 77,
        (6, 29) => 83,
        (6, 37) => 89,
        (6, 45) => 95,
        (6, 53) => 96,
        (6, 14) => 67,
        (6, 22) => 73,
        (6, 30) => 79,
        (6, 38) => 85,
        (6, 46) => 91,
        (6, 54) => 92,
        (7, 9) => 83,
        (7, 17) => 89,
        (7, 25) => 95,
        (7, 33) => 101,
        (7, 41) => 107,
        (7, 49) => 108,
        (7, 10) => 77,
        (7, 11) => 73,
        (7, 12) => 69,
        (7, 13) => 65,
        (7, 14) => 61,
        (8, 17) => 85,
        (8, 25) => 91,
        (8, 33) => 97,
        (8, 41) => 103,
        (8, 49) => 104,
        (8, 18) => 79,
        (8, 19) => 75,
        (8, 20) => 71,
        (8, 21) => 67,
        (8, 22) => 63,
        (9, 25) => 87,
        (9, 33) => 93,
        (9, 41) => 99,
        (9, 49) => 100,
        (9, 26) => 81,
        (9, 27) => 77,
        (9, 28) => 73,
        (9, 29) => 69,
        (9, 30) => 65,
        (10, 33) => 89,
        (10, 41) => 95,
        (10, 49) => 96,
        (10, 34) => 83,
        (10, 35) => 79,
        (10, 36) => 75,
        (10, 37) => 71,
        (10, 38) => 67,
        (11, 41) => 91,
        (11, 49) => 92,
        (11, 42) => 85,
        (11, 43) => 81,
        (11, 44) => 77,
        (11, 45) => 73,
        (11, 46) => 69,
        (12, 49) => 88,
        (12, 50) => 87,
        (12, 51) => 83,
        (12, 52) => 79,
        (12, 53) => 75,
        (12, 54) => 71,
        _ => 0,
    }
}

/// The `(origin row, last square)` pairs a legal trajectory can
/// produce: a throw from the six upper rows can end anywhere on the
/// grid, while a throw from row `6 + r` travels along grid row `r` and
/// then down the leftmost column.
pub open spec fn spec_throw_cost_defined(src: u8, sq: u8) -> bool {
    &&& sq_ok_u8(sq)
    &&& 1 <= src <= 12
    &&& (src >= 7 ==> sq as int / 8 == src - 6 || (sq as int % 8 == 1 && sq as int / 8 >= src
        - 6))
}

/// True when `sq` packs a square of the 6x6 grid.
pub open spec fn sq_ok_u8(sq: u8) -> bool {
    &&& 1 <= sq as int % 8 <= 6
    &&& 1 <= sq as int / 8 <= 6
}

/// Every pair a legal trajectory can produce has a tabulated, nonzero
/// throw cost.
#[verifier::rlimit(100)]
pub proof fn lemma_throw_cost_defined(src: u8, sq: u8)
    requires
        spec_throw_cost_defined(src, sq),
    ensures
        1 <= spec_throw_cost(src, sq),
{
}

/// No tabulated throw cost is below the smallest table entry.
#[verifier::rlimit(100)]
pub proof fn lemma_throw_cost_min(src: u8, sq: u8)
    ensures
        spec_throw_cost(src, sq) != 0 ==> spec_throw_cost(src, sq) >= 61,
{
}

/// No tabulated throw cost exceeds the largest table entry.
pub proof fn lemma_throw_cost_bound(src: u8, sq: u8)
    ensures
        spec_throw_cost(src, sq) <= 132,
{
}

/// No tabulated throw cost exceeds the largest table entry, for any
/// pair at all.
pub proof fn lemma_throw_cost_bound_all()
    ensures
        forall|src: u8, sq: u8| #[trigger] spec_throw_cost(src, sq) <= 132,
{
    assert forall|src: u8, sq: u8| #[trigger] spec_throw_cost(src, sq) <= 132 by {
        lemma_throw_cost_bound(src, sq);
    }
}

/// Frames to move the thrower from row `from` to row `to`.
pub fn calc_hero_move_cost(from: GroundRow, to: GroundRow) -> (r: Cost)
    ensures
        r as int == spec_hero_move_cost(from.spec_inner() as int, to.spec_inner() as int),
{
    let f = from.to_inner();
    let t = to.to_inner();
    let d: u16 = if f >= t {
        (f - t) as u16
    } else {
        (t - f) as u16
    };
    COST_HERO_STEP * d
}

/// Frames of the throw from `src` whose block last passed `sq_last`.
/// The pair must be one a legal trajectory can produce.
#[verifier::rlimit(100)]
pub fn calc_throw_cost(src: GroundRow, sq_last: BlocksSquare) -> (r: Cost)
    requires
        spec_throw_cost(src.spec_inner(), sq_last.spec_inner()) >= 1,
    ensures
        r == spec_throw_cost(src.spec_inner(), sq_last.spec_inner()),
        1 <= r,
{
    let s = src.to_inner();
    let q = sq_last.to_inner();
    match (s, q) {
        (1, 9) => 107,
        (1, 17) => 113,
        (1, 25) => 119,
        (1, 33) => 125,
        (1, 41) => 131,
        (1, 49) => 132,
        (1, 10) => 103,
        (1, 18) => 109,
        (1, 26) => 115,
        (1, 34) => 121,
        (1, 42) => 127,
        (1, 50) => 128,
        (1, 11) => 99,
        (1, 19) => 105,
        (1, 27) => 111,
        (1, 35) => 117,
        (1, 43) => 123,
        (1, 51) => 124,
        (1, 12) => 95,
        (1, 20) => 101,
        (1, 28) => 107,
        (1, 36) => 113,
        (1, 44) => 119,
        (1, 52) => 120,
        (1, 13) => 91,
        (1, 21) => 97,
        (1, 29) => 103,
        (1, 37) => 109,
        (1, 45) => 115,
        (1, 53) => 116,
        (1, 14) => 87,
        (1, 22) => 93,
        (1, 30) => 99,
        (1, 38) => 105,
        (1, 46) => 111,
        (1, 54) => 112,
        (2, 9) => 104,
        (2, 17) => 110,
        (2, 25) => 116,
        (2, 33) => 122,
        (2, 41) => 128,
        (2, 49) => 129,
        (2, 10) => 100,
        (2, 18) => 106,
        (2, 26) => 112,
        (2, 34) => 118,
        (2, 42) => 124,
        (2, 50) => 125,
        (2, 11) => 96,
        (2, 19) => 102,
        (2, 27) => 108,
        (2, 35) => 114,
        (2, 43) => 120,
        (2, 51) => 121,
        (2, 12) => 92,
        (2, 20) => 98,
        (2, 28) => 104,
        (2, 36) => 110,
        (2, 44) => 116,
        (2, 52) => 117,
        (2, 13) => 88,
        (2, 21) => 94,
        (2, 29) => 100,
        (2, 37) => 106,
        (2, 45) => 112,
        (2, 53) => 113,
        (2, 14) => 84,
        (2, 22) => 90,
        (2, 30) => 96,
        (2, 38) => 102,
        (2, 46) => 108,
        (2, 54) => 109,
        (3, 9) => 100,
        (3, 17) => 106,
        (3, 25) => 112,
        (3, 33) => 118,
        (3, 41) => 124,
        (3, 49) => 125,
        (3, 10) => 96,
        (3, 18) => 102,
        (3, 26) => 108,
        (3, 34) => 114,
        (3, 42) => 120,
        (3, 50) => 121,
        (3, 11) => 92,
        (3, 19) => 98,
        (3, 27) => 104,
        (3, 35) => 110,
        (3, 43) => 116,
        (3, 51) => 117,
        (3, 12) => 88,
        (3, 20) => 94,
        (3, 28) => 100,
        (3, 36) => 106,
        (3, 44) => 112,
        (3, 52) => 113,
        (3, 13) => 84,
        (3, 21) => 90,
        (3, 29) => 96,
        (3, 37) => 102,
        (3, 45) => 108,
        (3, 53) => 109,
        (3, 14) => 80,
        (3, 22) => 86,
        (3, 30) => 92,
        (3, 38) => 98,
        (3, 46) => 104,
        (3, 54) => 105,
        (4, 9) => 96,
        (4, 17) => 102,
        (4, 25) => 108,
        (4, 33) => 114,
        (4, 41) => 120,
        (4, 49) => 121,
        (4, 10) => 92,
        (4, 18) => 98,
        (4, 26) => 104,
        (4, 34) => 110,
        (4, 42) => 116,
        (4, 50) => 117,
        (4, 11) => 88,
        (4, 19) => 94,
        (4, 27) => 100,
        (4, 35) => 106,
        (4, 43) => 112,
        (4, 51) => 113,
        (4, 12) => 84,
        (4, 20) => 90,
        (4, 28) => 96,
        (4, 36) => 102,
        (4, 44) => 108,
        (4, 52) => 109,
        (4, 13) => 80,
        (4, 21) => 86,
        (4, 29) => 92,
        (4, 37) => 98,
        (4, 45) => 104,
        (4, 53) => 105,
        (4, 14) => 76,
        (4, 22) => 82,
        (4, 30) => 88,
        (4, 38) => 94,
        (4, 46) => 100,
        (4, 54) => 101,
        (5, 9) => 92,
        (5, 17) => 98,
        (5, 25) => 104,
        (5, 33) => 110,
        (5, 41) => 116,
        (5, 49) => 117,
        (5, 10) => 88,
        (5, 18) => 94,
        (5, 26) => 100,
        (5, 34) => 106,
        (5, 42) => 112,
        (5, 50) => 113,
        (5, 11) => 84,
        (5, 19) => 90,
        (5, 27) => 96,
        (5, 35) => 102,
        (5, 43) => 108,
        (5, 51) => 109,
        (5, 12) => 80,
        (5, 20) => 86,
        (5, 28) => 92,
        (5, 36) => 98,
        (5, 44) => 104,
        (5, 52) => 105,
        (5, 13) => 76,
        (5, 21) => 82,
        (5, 29) => 88,
        (5, 37) => 94,
        (5, 45) => 100,
        (5, 53) => 101,
        (5, 14) => 72,
        (5, 22) => 78,
        (5, 30) => 84,
        (5, 38) => 90,
        (5, 46) => 96,
        (5, 54) => 97,
        (6, 9) => 87,
        (6, 17) => 93,
        (6, 25) => 99,
        (6, 33) => 105,
        (6, 41) => 111,
        (6, 49) => 112,
        (6, 10) => 83,
        (6, 18) => 89,
        (6, 26) => 95,
        (6, 34) => 101,
        (6, 42) => 107,
        (6, 50) => 108,
        (6, 11) => 79,
        (6, 19) => 85,
        (6, 27) => 91,
        (6, 35) => 97,
        (6, 43) => 103,
        (6, 51) => 104,
        (6, 12) => 75,
        (6, 20) => 81,
        (6, 28) => 87,
        (6, 36) => 93,
        (6, 44) => 99,
        (6, 52) => 100,
        (6, 13) => 71,
        (6, 21) => 77,
        (6, 29) => 83,
        (6, 37) => 89,
        (6, 45) => 95,
        (6, 53) => 96,
        (6, 14) => 67,
        (6, 22) => 73,
        (6, 30) => 79,
        (6, 38) => 85,
        (6, 46) => 91,
        (6, 54) => 92,
        (7, 9) => 83,
        (7, 17) => 89,
        (7, 25) => 95,
        (7, 33) => 101,
        (7, 41) => 107,
        (7, 49) => 108,
        (7, 10) => 77,
        (7, 11) => 73,
        (7, 12) => 69,
        (7, 13) => 65,
        (7, 14) => 61,
        (8, 17) => 85,
        (8, 25) => 91,
        (8, 33) => 97,
        (8, 41) => 103,
        (8, 49) => 104,
        (8, 18) => 79,
        (8, 19) => 75,
        (8, 20) => 71,
        (8, 21) => 67,
        (8, 22) => 63,
        (9, 25) => 87,
        (9, 33) => 93,
        (9, 41) => 99,
        (9, 49) => 100,
        (9, 26) => 81,
        (9, 27) => 77,
        (9, 28) => 73,
        (9, 29) => 69,
        (9, 30) => 65,
        (10, 33) => 89,
        (10, 41) => 95,
        (10, 49) => 96,
        (10, 34) => 83,
        (10, 35) => 79,
        (10, 36) => 75,
        (10, 37) => 71,
        (10, 38) => 67,
        (11, 41) => 91,
        (11, 49) => 92,
        (11, 42) => 85,
        (11, 43) => 81,
        (11, 44) => 77,
        (11, 45) => 73,
        (11, 46) => 69,
        (12, 49) => 88,
        (12, 50) => 87,
        (12, 51) => 83,
        (12, 52) => 79,
        (12, 53) => 75,
        (12, 54) => 71,
        _ => 0,
    }
}

/// Frames of the stage-clear animation: nothing on the last stage,
/// else the per-block animation for each remaining block, plus the
/// fireworks when a `Normal`-mode stage ends at or under the
/// perfection threshold.
pub open spec fn spec_clear_cost(mode: GameMode, count: int, last_stage: bool) -> int {
    if last_stage {
        0
    } else {
        11 * count + if mode is Normal && count <= 3 {
            96int
        } else {
            0int
        }
    }
}

/// Frames charged when the stage clears at `pos`.
pub fn calc_clear_cost(game_mode: GameMode, pos: &Position, last_stage: bool) -> (r: Cost)
    ensures
        r as int == spec_clear_cost(game_mode, occ_count(pos.spec_blocks()@), last_stage),
{
    if last_stage {
        0
    } else {
        let count = pos.block_count();
        proof {
            use_type_invariant(&pos.blocks);
            crate::block::lemma_occ_bounds(pos.spec_blocks()@);
        }
        let cost_erase = COST_CLEAR_ERASE_BLOCK * (count as u16);
        let cost_fireworks: u16 = if game_mode.is_normal() && count <= BLOCK_COUNT_PERFECT {
            COST_CLEAR_FIREWORKS
        } else {
            0
        };
        cost_erase + cost_fireworks
    }
}

} // verus!
