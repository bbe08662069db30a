//! Block colors and the 6x6 block grid.

use vstd::prelude::*;

use crate::move_::{
    Move, MoveDirection, Moves, moves_new, moves_push, moves_seq, moves_view, lemma_move_dec_enc,
};

verus! {

/// A block color: four normal colors plus the wildcard.
#[derive(Clone, Copy, Debug, PartialEq, Eq, Structural)]
pub enum Block {
    Normal1,
    Normal2,
    Normal3,
    Normal4,
    Wild,
}

impl Block {
    /// Numeric code of this block, as used by the text format and the ROM.
    pub open(crate) spec fn spec_inner(self) -> u8 {
        match self {
            Block::Normal1 => 1,
            Block::Normal2 => 2,
            Block::Normal3 => 3,
            Block::Normal4 => 4,
            Block::Wild => 5,
        }
    }

    /// True when `inner` encodes some block.
    pub open spec fn spec_is_valid(inner: u8) -> bool {
        1 <= inner <= 5
    }

    /// The block encoded by `inner`, if any.
    pub open spec fn spec_from_inner(inner: u8) -> Option<Block> {
        if inner == 1 {
            Some(Block::Normal1)
        } else if inner == 2 {
            Some(Block::Normal2)
        } else if inner == 3 {
            Some(Block::Normal3)
        } else if inner == 4 {
            Some(Block::Normal4)
        } else if inner == 5 {
            Some(Block::Wild)
        } else {
            None
        }
    }

    /// Two blocks erase each other when either is the wildcard or both
    /// share the same color.
    pub open spec fn spec_can_erase(self, other: Block) -> bool {
        self == Block::Wild || other == Block::Wild || self == other
    }

    pub fn from_inner(inner: u8) -> (r: Option<Block>)
        ensures
            r == Block::spec_from_inner(inner),
            r is Some <==> Block::spec_is_valid(inner),
    {
        match inner {
            1 => Some(Block::Normal1),
            2 => Some(Block::Normal2),
            3 => Some(Block::Normal3),
            4 => Some(Block::Normal4),
            5 => Some(Block::Wild),
            _ => None,
        }
    }

    pub fn to_inner(self) -> (r: u8)
        ensures
            r == self.spec_inner(),
    {
        match self {
            Block::Normal1 => 1,
            Block::Normal2 => 2,
            Block::Normal3 => 3,
            Block::Normal4 => 4,
            Block::Wild => 5,
        }
    }

    pub fn is_normal(self) -> (r: bool)
        ensures
            r == (self != Block::Wild),
    {
        !self.is_wild()
    }

    pub fn is_wild(self) -> (r: bool)
        ensures
            r == (self == Block::Wild),
    {
        matches!(self, Block::Wild)
    }

    pub fn can_erase(self, other: Block) -> (r: bool)
        ensures
            r == self.spec_can_erase(other),
    {
        match (self, other) {
            (Block::Wild, _) => true,
            (_, Block::Wild) => true,
            _ => self.to_inner() == other.to_inner(),
        }
    }

    pub fn is_valid(inner: u8) -> (r: bool)
        ensures
            r == Block::spec_is_valid(inner),
    {
        1 <= inner && inner <= 5
    }
}

/// A column of the block grid, `A` (1) through `F` (6).
#[derive(Clone, Copy, Debug, PartialEq, Eq, Structural)]
pub struct BlocksCol {
    pub(crate) v: u8,
}

impl BlocksCol {
    #[verifier::type_invariant]
    pub(crate) open(crate) spec fn type_inv(self) -> bool {
        BlocksCol::spec_is_valid(self.v)
    }

    /// The 1-based column number.
    pub open(crate) spec fn spec_inner(self) -> u8 {
        self.v
    }

    pub open spec fn spec_is_valid(inner: u8) -> bool {
        1 <= inner <= 6
    }

    pub fn from_inner(inner: u8) -> (r: Option<BlocksCol>)
        ensures
            r is Some <==> BlocksCol::spec_is_valid(inner),
            r is Some ==> r.unwrap().spec_inner() == inner,
    {
        if BlocksCol::is_valid(inner) {
            Some(BlocksCol { v: inner })
        } else {
            None
        }
    }

    pub fn to_inner(self) -> (r: u8)
        ensures
            r == self.spec_inner(),
            BlocksCol::spec_is_valid(r),
    {
        proof {
            use_type_invariant(self);
        }
        self.v
    }

    pub fn is_valid(inner: u8) -> (r: bool)
        ensures
            r == BlocksCol::spec_is_valid(inner),
    {
        1 <= inner && inner <= 6
    }

    /// All six columns, leftmost first.
    pub fn all() -> (r: [BlocksCol; 6])
        ensures
            forall|i: int| 0 <= i < 6 ==> #[trigger] r[i].spec_inner() == i + 1,
    {
        [
            BlocksCol { v: 1 },
            BlocksCol { v: 2 },
            BlocksCol { v: 3 },
            BlocksCol { v: 4 },
            BlocksCol { v: 5 },
            BlocksCol { v: 6 },
        ]
    }
}

/// A row of the block grid, 1 (top) through 6 (bottom).
#[derive(Clone, Copy, Debug, PartialEq, Eq, Structural)]
pub struct BlocksRow {
    pub(crate) v: u8,
}

impl BlocksRow {
    #[verifier::type_invariant]
    pub(crate) open(crate) spec fn type_inv(self) -> bool {
        BlocksRow::spec_is_valid(self.v)
    }

    /// The 1-based row number; row 1 is the top of the grid.
    pub open(crate) spec fn spec_inner(self) -> u8 {
        self.v
    }

    pub open spec fn spec_is_valid(inner: u8) -> bool {
        1 <= inner <= 6
    }

    pub fn from_inner(inner: u8) -> (r: Option<BlocksRow>)
        ensures
            r is Some <==> BlocksRow::spec_is_valid(inner),
            r is Some ==> r.unwrap().spec_inner() == inner,
    {
        if BlocksRow::is_valid(inner) {
            Some(BlocksRow { v: inner })
        } else {
            None
        }
    }

    pub fn to_inner(self) -> (r: u8)
        ensures
            r == self.spec_inner(),
            BlocksRow::spec_is_valid(r),
    {
        proof {
            use_type_invariant(self);
        }
        self.v
    }

    pub fn is_valid(inner: u8) -> (r: bool)
        ensures
            r == BlocksRow::spec_is_valid(inner),
    {
        1 <= inner && inner <= 6
    }

    /// All six rows, top first.
    pub fn all() -> (r: [BlocksRow; 6])
        ensures
            forall|i: int| 0 <= i < 6 ==> #[trigger] r[i].spec_inner() == i + 1,
    {
        [
            BlocksRow { v: 1 },
            BlocksRow { v: 2 },
            BlocksRow { v: 3 },
            BlocksRow { v: 4 },
            BlocksRow { v: 5 },
            BlocksRow { v: 6 },
        ]
    }
}

/// True when `v` is the packed index of a block-grid square: the grid is
/// embedded in an 8x8 buffer whose border acts as a sentinel, so a square
/// index is `8 * row + col` with both coordinates in `1..=6`.
pub open spec fn sq_index_valid(v: int) -> bool {
    &&& 1 <= v % 8 <= 6
    &&& 1 <= v / 8 <= 6
}

/// A square of the block grid, stored as the packed index `8 * row + col`.
#[derive(Clone, Copy, Debug, PartialEq, Eq, Structural)]
pub struct BlocksSquare {
    pub(crate) v: u8,
}

impl BlocksSquare {
    #[verifier::type_invariant]
    pub(crate) open(crate) spec fn type_inv(self) -> bool {
        sq_index_valid(self.v as int)
    }

    /// The packed index of this square.
    pub open(crate) spec fn spec_inner(self) -> u8 {
        self.v
    }

    pub open spec fn spec_is_valid(inner: u8) -> bool {
        sq_index_valid(inner as int)
    }

    pub fn from_inner(inner: u8) -> (r: Option<BlocksSquare>)
        ensures
            r is Some <==> BlocksSquare::spec_is_valid(inner),
            r is Some ==> r.unwrap().spec_inner() == inner,
    {
        if BlocksSquare::is_valid(inner) {
            Some(BlocksSquare { v: inner })
        } else {
            None
        }
    }

    pub fn new(col: BlocksCol, row: BlocksRow) -> (r: BlocksSquare)
        ensures
            r.spec_inner() == 8 * row.spec_inner() + col.spec_inner(),
    {
        proof {
            use_type_invariant(col);
            use_type_invariant(row);
        }
        BlocksSquare { v: 8 * row.to_inner() + col.to_inner() }
    }

    pub fn to_inner(self) -> (r: u8)
        ensures
            r == self.spec_inner(),
            BlocksSquare::spec_is_valid(r),
    {
        proof {
            use_type_invariant(self);
        }
        self.v
    }

    pub fn to_index(self) -> (r: usize)
        ensures
            r == self.spec_inner() as usize,
    {
        self.v as usize
    }

    /// The column this square lies in.
    pub fn col(self) -> (r: BlocksCol)
        ensures
            r.spec_inner() == self.spec_inner() % 8,
    {
        proof {
            use_type_invariant(self);
        }
        BlocksCol { v: self.v % 8 }
    }

    /// The row this square lies in.
    pub fn row(self) -> (r: BlocksRow)
        ensures
            r.spec_inner() == self.spec_inner() / 8,
    {
        proof {
            use_type_invariant(self);
        }
        BlocksRow { v: self.v / 8 }
    }

    pub fn is_valid(inner: u8) -> (r: bool)
        ensures
            r == BlocksSquare::spec_is_valid(inner),
    {
        let col = inner % 8;
        let row = inner / 8;
        1 <= col && col <= 6 && 1 <= row && row <= 6
    }
}

// ---------------------------------------------------------------------
// Trajectory of a thrown block.
//
// A throw enters the grid travelling left (horizontal, from the right
// edge) or down (vertical, from the top edge).  A horizontal trajectory
// that reaches the left edge continues by falling down that column; a
// vertical trajectory ends at the bottom edge.

/// True when `(col, row)` is a square of the 6x6 grid.
pub open spec fn bs_valid(col: int, row: int) -> bool {
    &&& 1 <= col <= 6
    &&& 1 <= row <= 6
}

/// Packed index of `(col, row)` in the 8x8 cell buffer.
pub open spec fn bs_idx(col: int, row: int) -> int {
    8 * row + col
}

/// The square after `(col, row)` on a trajectory travelling in `dir`,
/// with the direction it travels from there, or `None` when the
/// trajectory leaves the grid.
pub open spec fn traj_next(col: int, row: int, dir: MoveDirection) -> Option<
    (int, int, MoveDirection),
> {
    if !bs_valid(col, row) {
        None
    } else if dir == MoveDirection::Horizontal {
        if col >= 2 {
            Some((col - 1, row, MoveDirection::Horizontal))
        } else if row <= 5 {
            Some((col, row + 1, MoveDirection::Vertical))
        } else {
            None
        }
    } else {
        if row <= 5 {
            Some((col, row + 1, MoveDirection::Vertical))
        } else {
            None
        }
    }
}

/// Number of squares still ahead of `(col, row)` on the trajectory.
pub open spec fn traj_measure(col: int, row: int, dir: MoveDirection) -> int {
    if dir == MoveDirection::Horizontal {
        (col - 1) + (6 - row)
    } else {
        6 - row
    }
}

/// Termination measure for recursion over an optional trajectory point.
pub open spec fn cur_measure(cur: Option<(int, int, MoveDirection)>) -> int {
    match cur {
        None => 0,
        Some((c, r, d)) => if bs_valid(c, r) {
            traj_measure(c, r, d) + 2
        } else {
            1
        },
    }
}

/// True when `(c2, r2)` is `cur`'s square or lies further along the
/// trajectory starting at `cur`.
pub open spec fn on_future(cur: Option<(int, int, MoveDirection)>, c2: int, r2: int) -> bool
    decreases cur_measure(cur),
{
    match cur {
        None => false,
        Some((c, r, d)) => (c == c2 && r == r2) || on_future(traj_next(c, r, d), c2, r2),
    }
}

// ---------------------------------------------------------------------
// The board as a sequence of 64 cells.

/// 1 when the cell holds a block, else 0.
pub open spec fn occ1(x: Option<Block>) -> int {
    if x is Some {
        1
    } else {
        0
    }
}

/// Number of occupied cells in `s`.
pub open spec fn occ_count(s: Seq<Option<Block>>) -> int
    decreases s.len(),
{
    if s.len() == 0 {
        0
    } else {
        occ_count(s.drop_last()) + occ1(s.last())
    }
}

/// A well-formed cell buffer: 64 cells with an empty sentinel border.
pub open spec fn board_ok(s: Seq<Option<Block>>) -> bool {
    &&& s.len() == 64
    &&& forall|i: int| 0 <= i < 64 && !sq_index_valid(i) ==> s[i] is None
}

// ---------------------------------------------------------------------
// Erasing a square.
//
// A vertical throw simply clears the square it erases; a horizontal
// throw lets every block above the erased square fall one row, the top
// cell of the column becoming empty.

/// The board after the column above `(col, row)` has shifted down one
/// step onto `(col, row)`.
pub open spec fn spec_erase_shift(s: Seq<Option<Block>>, col: int, row: int) -> Seq<
    Option<Block>,
>
    decreases row,
{
    if row <= 1 {
        s.update(bs_idx(col, row), None)
    } else {
        spec_erase_shift(s.update(bs_idx(col, row), s[bs_idx(col, row - 1)]), col, row - 1)
    }
}

/// The board after erasing `(col, row)` for a throw of direction
/// `dir0`.
pub open spec fn spec_erase(
    s: Seq<Option<Block>>,
    col: int,
    row: int,
    dir0: MoveDirection,
) -> Seq<Option<Block>> {
    if dir0 == MoveDirection::Vertical {
        s.update(bs_idx(col, row), None)
    } else {
        spec_erase_shift(s, col, row)
    }
}

// ---------------------------------------------------------------------
// The chain walk of a throw.

/// Walks the trajectory from `cur` onward.  Occupancy is tested against
/// `orig`, the board as it stood before the throw; erasures accumulate
/// in `res`.  An occupied square compatible with `color` is erased; the
/// first incompatible one is replaced by `color` and its block becomes
/// the next held block.  Returns the final board, the next held block,
/// the last square the block passed before stopping, and the number of
/// erased squares.
pub open spec fn spec_walk(
    orig: Seq<Option<Block>>,
    res: Seq<Option<Block>>,
    cur: Option<(int, int, MoveDirection)>,
    color: Block,
    dir0: MoveDirection,
    last: int,
    cnt: int,
) -> (Seq<Option<Block>>, Block, int, int)
    decreases cur_measure(cur),
{
    match cur {
        None => (res, color, last, cnt),
        Some((c, r, d)) => if !bs_valid(c, r) {
            (res, color, last, cnt)
        } else {
            match orig[bs_idx(c, r)] {
                None => spec_walk(orig, res, traj_next(c, r, d), color, dir0, bs_idx(c, r), cnt),
                Some(b2) => if color.spec_can_erase(b2) {
                    spec_walk(
                        orig,
                        spec_erase(res, c, r, dir0),
                        traj_next(c, r, d),
                        color,
                        dir0,
                        bs_idx(c, r),
                        cnt + 1,
                    )
                } else {
                    (res.update(bs_idx(c, r), Some(color)), b2, last, cnt)
                },
            }
        },
    }
}

/// The full effect of a throw whose first hit is at `(dcol, drow)`
/// travelling in `dir`, thrown while holding `holding`: final board,
/// next held block, last square passed, and erase count.
pub open spec fn spec_do_move(
    s: Seq<Option<Block>>,
    dcol: int,
    drow: int,
    dir: MoveDirection,
    holding: Block,
) -> (Seq<Option<Block>>, Block, int, int) {
    let first = s[bs_idx(dcol, drow)].unwrap();
    let color = if first == Block::Wild {
        holding
    } else {
        first
    };
    spec_walk(
        s,
        spec_erase(s, dcol, drow, dir),
        traj_next(dcol, drow, dir),
        color,
        dir,
        bs_idx(dcol, drow),
        1,
    )
}

// ---------------------------------------------------------------------
// Rebinding and filtering candidate moves.

/// The first occupied square at or after `cur` on the trajectory,
/// together with the direction of travel there.
pub open spec fn spec_find_dest(s: Seq<Option<Block>>, cur: Option<(int, int, MoveDirection)>) -> Option<
    (int, int, MoveDirection),
>
    decreases cur_measure(cur),
{
    match cur {
        None => None,
        Some((c, r, d)) => if !bs_valid(c, r) {
            None
        } else if s[bs_idx(c, r)] is Some {
            Some((c, r, d))
        } else {
            spec_find_dest(s, traj_next(c, r, d))
        },
    }
}

/// Column of a move's destination square.
pub open(crate) spec fn mv_dcol(mv: Move) -> int {
    mv.spec_dst().spec_inner() as int % 8
}

/// Row of a move's destination square.
pub open(crate) spec fn mv_drow(mv: Move) -> int {
    mv.spec_dst().spec_inner() as int / 8
}

/// Packed index of a move's destination square.
pub open(crate) spec fn mv_didx(mv: Move) -> int {
    mv.spec_dst().spec_inner() as int
}

/// `mv` rebound to the first occupied square on its trajectory, or
/// `None` when the trajectory hits no block.
pub open(crate) spec fn spec_update_one(s: Seq<Option<Block>>, mv: Move) -> Option<Move> {
    match spec_find_dest(s, Some((mv_dcol(mv), mv_drow(mv), mv.spec_dir()))) {
        Some((c, r, d)) => Some(
            Move { src: mv.spec_src(), dst: BlocksSquare { v: bs_idx(c, r) as u8 }, dir: d },
        ),
        None => None,
    }
}

/// Every move of `ms` rebound by `spec_update_one`, dropped when its
/// trajectory hits no block.
pub open(crate) spec fn spec_update_moves(s: Seq<Option<Block>>, ms: Seq<Move>) -> Seq<Move>
    decreases ms.len(),
{
    if ms.len() == 0 {
        Seq::empty()
    } else {
        spec_update_moves(s, ms.drop_last()) + match spec_update_one(s, ms.last()) {
            Some(m) => seq![m],
            None => Seq::empty(),
        }
    }
}

/// The moves of `ms` whose destination block can be erased while
/// holding `holding`.
pub open(crate) spec fn spec_keep_legal(s: Seq<Option<Block>>, ms: Seq<Move>, holding: Block) -> Seq<
    Move,
>
    decreases ms.len(),
{
    if ms.len() == 0 {
        Seq::empty()
    } else {
        spec_keep_legal(s, ms.drop_last(), holding) + if holding.spec_can_erase(
            s[mv_didx(ms.last())].unwrap(),
        ) {
            seq![ms.last()]
        } else {
            Seq::empty()
        }
    }
}

/// True when some move of `ms` can erase a destination block that is
/// not the wildcard.
pub open(crate) spec fn spec_has_normal_dest(s: Seq<Option<Block>>, ms: Seq<Move>, holding: Block) -> bool {
    exists|i: int|
        0 <= i < ms.len() && holding.spec_can_erase(#[trigger] s[mv_didx(ms[i])].unwrap())
            && s[mv_didx(ms[i])] != Some(Block::Wild)
}

/// The legal moves of `ms`: the erasable destinations, except that a
/// position whose only erasable destinations are wildcards is a dead
/// end and offers no legal move at all.
pub open(crate) spec fn spec_legal_moves(s: Seq<Option<Block>>, ms: Seq<Move>, holding: Block) -> Seq<
    Move,
> {
    if spec_has_normal_dest(s, ms, holding) {
        spec_keep_legal(s, ms, holding)
    } else {
        Seq::empty()
    }
}

// ---------------------------------------------------------------------
// Lemmas about the board model.

/// Decomposing a packed square index recovers its column and row.
pub proof fn lemma_bs_idx_decompose(c: int, r: int)
    requires
        0 <= c < 8,
        0 <= r,
    ensures
        bs_idx(c, r) % 8 == c,
        bs_idx(c, r) / 8 == r,
{
    assert(bs_idx(c, r) % 8 == c && bs_idx(c, r) / 8 == r) by (nonlinear_arith)
        requires
            0 <= c < 8,
            0 <= r,
    {}
}

/// A cell count lies between zero and the number of cells.
pub proof fn lemma_occ_bounds(s: Seq<Option<Block>>)
    ensures
        0 <= occ_count(s) <= s.len(),
    decreases s.len(),
{
    if s.len() > 0 {
        lemma_occ_bounds(s.drop_last());
    }
}

/// Updating one cell changes the count by the difference in occupancy.
pub proof fn lemma_occ_update(s: Seq<Option<Block>>, i: int, x: Option<Block>)
    requires
        0 <= i < s.len(),
    ensures
        occ_count(s.update(i, x)) == occ_count(s) - occ1(s[i]) + occ1(x),
    decreases s.len(),
{
    let t = s.update(i, x);
    if i == s.len() - 1 {
        assert(t.drop_last() =~= s.drop_last());
    } else {
        assert(t.drop_last() =~= s.drop_last().update(i, x));
        lemma_occ_update(s.drop_last(), i, x);
    }
}

/// An erase-shift keeps the buffer size, lowers the count by the
/// occupancy of the erased square, and touches only the column cells at
/// or above it.
pub proof fn lemma_erase_shift_props(s: Seq<Option<Block>>, col: int, row: int)
    requires
        s.len() == 64,
        1 <= col <= 6,
        1 <= row <= 6,
    ensures
        spec_erase_shift(s, col, row).len() == 64,
        occ_count(spec_erase_shift(s, col, row)) == occ_count(s) - occ1(s[bs_idx(col, row)]),
        forall|i: int|
            0 <= i < 64 && !(i % 8 == col && 1 <= i / 8 <= row) ==> spec_erase_shift(
                s,
                col,
                row,
            )[i] == s[i],
    decreases row,
{
    lemma_bs_idx_decompose(col, row);
    if row <= 1 {
        lemma_occ_update(s, bs_idx(col, row), None);
    } else {
        let s2 = s.update(bs_idx(col, row), s[bs_idx(col, row - 1)]);
        lemma_occ_update(s, bs_idx(col, row), s[bs_idx(col, row - 1)]);
        lemma_bs_idx_decompose(col, row - 1);
        lemma_erase_shift_props(s2, col, row - 1);
        assert forall|i: int|
            0 <= i < 64 && !(i % 8 == col && 1 <= i / 8 <= row) implies spec_erase_shift(
            s,
            col,
            row,
        )[i] == s[i] by {
            assert(spec_erase_shift(s, col, row) == spec_erase_shift(s2, col, row - 1));
            assert(i != bs_idx(col, row));
            assert(s2[i] == s[i]);
        }
    }
}

/// Every square on the trajectory from `(c, r)` travelling `d` lies on
/// the straight segment through `(c, r)` or on the fall line down the
/// leftmost column.
pub proof fn lemma_on_future_bound(c: int, r: int, d: MoveDirection, c2: int, r2: int)
    requires
        bs_valid(c, r),
        on_future(Some((c, r, d)), c2, r2),
    ensures
        d == MoveDirection::Horizontal ==> (r2 == r && 1 <= c2 <= c) || (c2 == 1 && r <= r2
            <= 6),
        d == MoveDirection::Vertical ==> c2 == c && r <= r2 <= 6,
    decreases traj_measure(c, r, d),
{
    if c == c2 && r == r2 {
    } else {
        assert(on_future(traj_next(c, r, d), c2, r2));
        match traj_next(c, r, d) {
            Some((cn, rn, dn)) => {
                assert(bs_valid(cn, rn));
                lemma_on_future_bound(cn, rn, dn, c2, r2);
            },
            None => {
                assert(!on_future(None::<(int, int, MoveDirection)>, c2, r2));
            },
        }
    }
}

/// The future of the next trajectory point is part of the current
/// future.
pub proof fn lemma_future_step(c: int, r: int, d: MoveDirection, c2: int, r2: int)
    requires
        on_future(traj_next(c, r, d), c2, r2),
    ensures
        on_future(Some((c, r, d)), c2, r2),
{
}

/// Properties of the chain walk: the buffer keeps its size and empty
/// border, the count drops by exactly the number of erasures, and the
/// last square passed is the starting `last` or lies on the walked
/// trajectory.
pub proof fn lemma_walk_props(
    orig: Seq<Option<Block>>,
    res: Seq<Option<Block>>,
    cur: Option<(int, int, MoveDirection)>,
    color: Block,
    dir0: MoveDirection,
    last: int,
    cnt: int,
)
    requires
        board_ok(orig),
        res.len() == 64,
        forall|i: int| 0 <= i < 64 && !sq_index_valid(i) ==> res[i] is None,
        match cur {
            Some((c, r, d)) => bs_valid(c, r),
            None => true,
        },
        forall|c2: int, r2: int|
            bs_valid(c2, r2) && on_future(cur, c2, r2) ==> res[bs_idx(c2, r2)] == orig[bs_idx(
                c2,
                r2,
            )],
        sq_index_valid(last),
    ensures
        ({
            let (rb, rh, rl, rc) = spec_walk(orig, res, cur, color, dir0, last, cnt);
            &&& rb.len() == 64
            &&& forall|i: int| 0 <= i < 64 && !sq_index_valid(i) ==> rb[i] is None
            &&& occ_count(rb) == occ_count(res) - (rc - cnt)
            &&& cnt <= rc
            &&& (rl == last || on_future(cur, rl % 8, rl / 8))
            &&& sq_index_valid(rl)
        }),
    decreases cur_measure(cur),
{
    match cur {
        None => {},
        Some((c, r, d)) => {
            lemma_bs_idx_decompose(c, r);
            let next = traj_next(c, r, d);
            assert(on_future(cur, c, r));
            assert forall|c2: int, r2: int| bs_valid(c2, r2) && on_future(next, c2, r2) implies res[
                bs_idx(c2, r2)
            ] == orig[bs_idx(c2, r2)] by {
                lemma_future_step(c, r, d, c2, r2);
            }
            match orig[bs_idx(c, r)] {
                None => {
                    lemma_walk_props(orig, res, next, color, dir0, bs_idx(c, r), cnt);
                },
                Some(b2) => {
                    if color.spec_can_erase(b2) {
                        let res2 = spec_erase(res, c, r, dir0);
                        assert(res[bs_idx(c, r)] == orig[bs_idx(c, r)]);
                        // the erased cell set never meets the future of `next`
                        if dir0 == MoveDirection::Vertical {
                            lemma_occ_update(res, bs_idx(c, r), None);
                        } else {
                            lemma_erase_shift_props(res, c, r);
                        }
                        assert forall|c2: int, r2: int|
                            bs_valid(c2, r2) && on_future(next, c2, r2) implies res2[bs_idx(
                            c2,
                            r2,
                        )] == orig[bs_idx(c2, r2)] by {
                            lemma_future_step(c, r, d, c2, r2);
                            match next {
                                Some((cn, rn, dn)) => {
                                    lemma_on_future_bound(cn, rn, dn, c2, r2);
                                    lemma_bs_idx_decompose(c2, r2);
                                    assert(!(c2 == c && 1 <= r2 <= r));
                                },
                                None => {},
                            }
                        }
                        lemma_walk_props(orig, res2, next, color, dir0, bs_idx(c, r), cnt + 1);
                    } else {
                        lemma_occ_update(res, bs_idx(c, r), Some(color));
                    }
                },
            }
        },
    }
}

// ---------------------------------------------------------------------
// The executable board.

/// The bottom-left 6x6 block area, stored as an 8x8 cell buffer whose
/// border row and column stay empty so that trajectory stepping needs
/// no bounds checks.
#[derive(Debug, PartialEq, Eq)]
pub struct Blocks {
    cells: Vec<Option<Block>>,
}

impl View for Blocks {
    type V = Seq<Option<Block>>;

    closed spec fn view(&self) -> Seq<Option<Block>> {
        self.cells@
    }
}

impl Clone for Blocks {
    fn clone(&self) -> (r: Blocks)
        ensures
            r@ == self@,
    {
        proof {
            use_type_invariant(self);
        }
        let mut cells: Vec<Option<Block>> = Vec::new();
        let mut i: usize = 0;
        while i < 64
            invariant
                i <= 64,
                self@.len() == 64,
                cells@.len() == i,
                forall|j: int| 0 <= j < i ==> cells@[j] == self@[j],
            decreases 64 - i,
        {
            cells.push(self.cells[i]);
            i += 1;
        }
        proof {
            assert(cells@ =~= self@);
        }
        Blocks { cells }
    }
}

/// The trajectory point of an executable `(square, direction)` pair.
pub open(crate) spec fn cur_of(cur: Option<(BlocksSquare, MoveDirection)>) -> Option<
    (int, int, MoveDirection),
> {
    match cur {
        None => None,
        Some((sq, d)) => Some(
            (sq.spec_inner() as int % 8, sq.spec_inner() as int / 8, d),
        ),
    }
}

impl Blocks {
    #[verifier::type_invariant]
    pub(crate) open(crate) spec fn type_inv(self) -> bool {
        board_ok(self@)
    }

    /// An empty board.
    pub fn new() -> (r: Blocks)
        ensures
            r@.len() == 64,
            forall|i: int| 0 <= i < 64 ==> r@[i] is None,
    {
        let mut cells: Vec<Option<Block>> = Vec::new();
        let mut i: usize = 0;
        while i < 64
            invariant
                i <= 64,
                cells@.len() == i,
                forall|j: int| 0 <= j < i ==> cells@[j] is None,
            decreases 64 - i,
        {
            cells.push(None);
            i += 1;
        }
        Blocks { cells }
    }

    /// The cells as one row-major vector of the 8x8 buffer.
    pub fn as_array(&self) -> (r: &Vec<Option<Block>>)
        ensures
            r@ == self@,
            board_ok(self@),
    {
        proof {
            use_type_invariant(self);
        }
        &self.cells
    }

    /// The block at `sq`, if any.
    pub fn get(&self, sq: BlocksSquare) -> (r: Option<Block>)
        ensures
            r == self@[sq.spec_inner() as int],
    {
        proof {
            use_type_invariant(self);
            use_type_invariant(sq);
        }
        self.cells[sq.to_index()]
    }

    /// Replaces the block at `sq`.
    pub fn set(&mut self, sq: BlocksSquare, val: Option<Block>)
        ensures
            final(self)@ == old(self)@.update(sq.spec_inner() as int, val),
    {
        proof {
            use_type_invariant(&*self);
            use_type_invariant(sq);
        }
        let i = sq.to_index();
        self.cells[i] = val;
    }

    /// The number of blocks on the board.
    pub fn block_count(&self) -> (r: u8)
        ensures
            r as int == occ_count(self@),
    {
        proof {
            use_type_invariant(self);
        }
        let mut cnt: u8 = 0;
        let mut i: usize = 0;
        while i < 64
            invariant
                i <= 64,
                self@.len() == 64,
                cnt as int == occ_count(self@.take(i as int)),
                cnt as int <= i,
            decreases 64 - i,
        {
            proof {
                lemma_occ_take_step(self@, i as int);
                lemma_occ_bounds(self@.take(i as int));
            }
            if self.cells[i].is_some() {
                cnt += 1;
            }
            i += 1;
        }
        proof {
            assert(self@.take(64) =~= self@);
        }
        cnt
    }

    /// The square after `sq` on a trajectory travelling `dir`, with the
    /// direction of travel there, or `None` when the trajectory leaves
    /// the grid.
    pub fn traj_step(sq: BlocksSquare, dir: MoveDirection) -> (r: Option<
        (BlocksSquare, MoveDirection),
    >)
        ensures
            cur_of(r) == traj_next(
                sq.spec_inner() as int % 8,
                sq.spec_inner() as int / 8,
                dir,
            ),
    {
        proof {
            use_type_invariant(sq);
        }
        let v = sq.to_inner();
        let col = v % 8;
        let row = v / 8;
        proof {
            assert(v == bs_idx(col as int, row as int));
            lemma_bs_idx_decompose(col as int - 1, row as int);
            lemma_bs_idx_decompose(col as int, row as int + 1);
        }
        match dir {
            MoveDirection::Horizontal => {
                if col >= 2 {
                    Some((BlocksSquare { v: v - 1 }, MoveDirection::Horizontal))
                } else if row <= 5 {
                    Some((BlocksSquare { v: v + 8 }, MoveDirection::Vertical))
                } else {
                    None
                }
            },
            MoveDirection::Vertical => {
                if row <= 5 {
                    Some((BlocksSquare { v: v + 8 }, MoveDirection::Vertical))
                } else {
                    None
                }
            },
        }
    }

    /// Erases `sq` for a throw travelling `dir0`: a vertical throw
    /// clears the square; a horizontal throw drops the column above it
    /// by one row.
    fn erase_at(&mut self, sq: BlocksSquare, dir0: MoveDirection)
        ensures
            final(self)@ == spec_erase(
                old(self)@,
                sq.spec_inner() as int % 8,
                sq.spec_inner() as int / 8,
                dir0,
            ),
    {
        proof {
            use_type_invariant(&*self);
            use_type_invariant(sq);
        }
        match dir0 {
            MoveDirection::Vertical => {
                self.set(sq, None);
            },
            MoveDirection::Horizontal => {
                self.erase_shift(sq);
            },
        }
    }

    /// Lets the column above `sq` fall one row onto it; the top cell of
    /// the column becomes empty.
    fn erase_shift(&mut self, sq: BlocksSquare)
        ensures
            final(self)@ == spec_erase_shift(
                old(self)@,
                sq.spec_inner() as int % 8,
                sq.spec_inner() as int / 8,
            ),
    {
        proof {
            use_type_invariant(&*self);
            use_type_invariant(sq);
        }
        let ghost orig = self@;
        let ghost col0 = sq.spec_inner() as int % 8;
        let ghost row0 = sq.spec_inner() as int / 8;
        let mut v = sq.to_inner();
        proof {
            assert(v == bs_idx(col0, row0));
        }
        while v / 8 >= 2
            invariant
                self@.len() == 64,
                board_ok(self@),
                sq_index_valid(v as int),
                v as int % 8 == col0,
                spec_erase_shift(orig, col0, row0) == spec_erase_shift(
                    self@,
                    col0,
                    v as int / 8,
                ),
            decreases v,
        {
            proof {
                lemma_bs_idx_decompose(col0, v as int / 8 - 1);
                assert(v as int == bs_idx(col0, v as int / 8));
                assert(v as int - 8 == bs_idx(col0, v as int / 8 - 1));
            }
            let up = self.cells[(v - 8) as usize];
            let i = v as usize;
            self.cells[i] = up;
            v -= 8;
        }
        proof {
            assert(v as int == bs_idx(col0, 1));
        }
        let i = v as usize;
        self.cells[i] = None;
    }
}

impl Blocks {
    /// Performs the throw `mv` while holding `block_holding` and
    /// returns the new board, the next held block, the last square the
    /// block passed before stopping, and the number of erased squares.
    ///
    /// The move must be legal: its destination holds a block the held
    /// one can erase.
    pub fn do_move(&self, mv: Move, block_holding: Block) -> (r: (Blocks, Block, BlocksSquare, u8))
        requires
            self@[mv_didx(mv)] is Some,
            block_holding.spec_can_erase(self@[mv_didx(mv)].unwrap()),
        ensures
            ({
                let (rb, rh, rl, rc) = spec_do_move(
                    self@,
                    mv_dcol(mv),
                    mv_drow(mv),
                    mv.spec_dir(),
                    block_holding,
                );
                &&& r.0@ == rb
                &&& r.1 == rh
                &&& r.2.spec_inner() as int == rl
                &&& r.3 as int == rc
                &&& occ_count(r.0@) == occ_count(self@) - rc
                &&& 1 <= rc
                &&& on_future(Some((mv_dcol(mv), mv_drow(mv), mv.spec_dir())), rl % 8, rl / 8)
            }),
    {
        proof {
            use_type_invariant(self);
            use_type_invariant(mv.dst);
        }
        let dst = mv.dst();
        let dir0 = mv.direction();
        let ghost orig = self@;
        let ghost dcol = mv_dcol(mv);
        let ghost drow = mv_drow(mv);

        let first = self.get(dst).unwrap();
        let color = if first.is_wild() {
            block_holding
        } else {
            first
        };

        let ghost target = spec_do_move(orig, dcol, drow, mv.spec_dir(), block_holding);

        let mut res = self.clone();
        res.erase_at(dst, dir0);
        let mut holding_next = color;
        let mut sq_last = dst;
        let mut count: u8 = 1;
        let mut cur = Blocks::traj_step(dst, dir0);

        proof {
            lemma_do_move_props(orig, dcol, drow, mv.spec_dir(), block_holding);
            lemma_bs_idx_decompose(dcol, drow);
            if dir0 == MoveDirection::Horizontal {
                lemma_erase_shift_props(orig, dcol, drow);
            }
            assert(dst.spec_inner() as int == bs_idx(dcol, drow));
            assert(spec_walk(
                orig,
                res@,
                cur_of(cur),
                color,
                dir0,
                sq_last.spec_inner() as int,
                count as int,
            ) == target);
        }

        loop
            invariant_except_break
                orig == self@,
                board_ok(orig),
                res@.len() == 64,
                count as int + cur_measure(cur_of(cur)) <= 15,
                1 <= count,
                holding_next == color,
                spec_walk(
                    orig,
                    res@,
                    cur_of(cur),
                    color,
                    dir0,
                    sq_last.spec_inner() as int,
                    count as int,
                ) == target,
            ensures
                res@ == target.0,
                holding_next == target.1,
                sq_last.spec_inner() as int == target.2,
                count as int == target.3,
            decreases cur_measure(cur_of(cur)),
        {
            let ghost pre_res = res@;
            let ghost pre_cur = cur_of(cur);
            let ghost pre_last = sq_last.spec_inner() as int;
            let ghost pre_count = count as int;
            match cur {
                None => {
                    proof {
                        assert(spec_walk(orig, pre_res, pre_cur, color, dir0, pre_last, pre_count)
                            == (pre_res, color, pre_last, pre_count));
                    }
                    break ;
                },
                Some((sq, d)) => {
                    proof {
                        use_type_invariant(sq);
                    }
                    let ghost c = sq.spec_inner() as int % 8;
                    let ghost r = sq.spec_inner() as int / 8;
                    proof {
                        assert(sq.spec_inner() as int == bs_idx(c, r));
                        assert(bs_valid(c, r));
                    }
                    let cell = self.get(sq);
                    proof {
                        assert(cell == orig[bs_idx(c, r)]);
                    }
                    match cell {
                        None => {
                            sq_last = sq;
                            cur = Blocks::traj_step(sq, d);
                            proof {
                                assert(orig[bs_idx(c, r)] is None);
                                assert(pre_cur == Some((c, r, d)));
                                assert(spec_walk(orig, pre_res, pre_cur, color, dir0, pre_last, pre_count)
                                    == spec_walk(orig, res@, cur_of(cur), color, dir0, bs_idx(c, r), pre_count));
                            }
                        },
                        Some(b2) => {
                            if color.can_erase(b2) {
                                res.erase_at(sq, dir0);
                                proof {
                                    if dir0 == MoveDirection::Horizontal {
                                        lemma_erase_shift_props(pre_res, c, r);
                                    }
                                    assert(res@ == spec_erase(pre_res, c, r, dir0));
                                }
                                count += 1;
                                sq_last = sq;
                                cur = Blocks::traj_step(sq, d);
                                proof {
                                    assert(spec_walk(orig, pre_res, pre_cur, color, dir0, pre_last, pre_count)
                                        == spec_walk(orig, res@, cur_of(cur), color, dir0, bs_idx(c, r), pre_count + 1));
                                }
                            } else {
                                res.set(sq, Some(color));
                                holding_next = b2;
                                proof {
                                    assert(spec_walk(orig, pre_res, pre_cur, color, dir0, pre_last, pre_count)
                                        == (pre_res.update(bs_idx(c, r), Some(color)), b2, pre_last, pre_count));
                                }
                                break ;
                            }
                        },
                    }
                },
            }
        }

        (res, holding_next, sq_last, count)
    }

    /// Rebinds each candidate move to the first block its trajectory
    /// now hits, dropping moves whose trajectory hits none.
    pub fn update_moves(&self, moves: &[Move]) -> (r: Moves)
        requires
            moves@.len() <= 12,
        ensures
            moves_view(r) == spec_update_moves(self@, moves@),
            moves_seq(r).len() <= moves@.len(),
    {
        proof {
            use_type_invariant(self);
        }
        let mut out = moves_new();
        let mut i: usize = 0;
        while i < moves.len()
            invariant
                i <= moves@.len() <= 12,
                board_ok(self@),
                moves_seq(out).len() <= i,
                moves_view(out) == spec_update_moves(self@, moves@.take(i as int)),
            decreases moves@.len() - i,
        {
            let mv = moves[i];
            proof {
                use_type_invariant(mv.dst);
            }
            let mut cur = Some((mv.dst(), mv.direction()));
            let ghost start = cur_of(cur);
            let mut found: Option<(BlocksSquare, MoveDirection)> = None;
            loop
                invariant_except_break
                    spec_find_dest(self@, cur_of(cur)) == spec_find_dest(self@, start),
                    board_ok(self@),
                    match cur {
                        Some((sq, d)) => sq_index_valid(sq.spec_inner() as int),
                        None => true,
                    },
                ensures
                    ({
                        let f = spec_find_dest(self@, start);
                        match found {
                            None => f is None,
                            Some((sq, d)) => f == Some(
                                (
                                    sq.spec_inner() as int % 8,
                                    sq.spec_inner() as int / 8,
                                    d,
                                ),
                            ),
                        }
                    }),
                decreases cur_measure(cur_of(cur)),
            {
                match cur {
                    None => {
                        found = None;
                        break ;
                    },
                    Some((sq, d)) => {
                        proof {
                            use_type_invariant(sq);
                        }
                        if self.get(sq).is_some() {
                            found = Some((sq, d));
                            break ;
                        }
                        cur = Blocks::traj_step(sq, d);
                    },
                }
            }
            let ghost prev = moves_view(out);
            match found {
                Some((sq, d)) => {
                    let nmv = Move::new(mv.src(), sq, d);
                    proof {
                        use_type_invariant(sq);
                    }
                    moves_push(&mut out, nmv);
                    proof {
                        lemma_move_dec_enc(nmv);
                        assert(moves_view(out) =~= prev.push(nmv));
                        assert(nmv == spec_update_one(self@, mv).unwrap());
                    }
                },
                None => {},
            }
            proof {
                assert(moves@.take(i + 1).drop_last() =~= moves@.take(i as int));
                assert(moves@.take(i + 1).last() == moves@[i as int]);
                assert(moves_view(out) =~= spec_update_moves(self@, moves@.take(i + 1)));
            }
            i += 1;
        }
        proof {
            assert(moves@.take(moves@.len() as int) =~= moves@);
        }
        out
    }

    /// The legal moves among `moves` while holding `block_holding`:
    /// the moves whose destination block the held one can erase --
    /// except that when every such destination is a wildcard the
    /// position is a dead end and the result is empty.
    ///
    /// The moves must come from `update_moves`, so every destination
    /// holds a block.
    pub fn legal_moves(&self, moves: &[Move], block_holding: Block) -> (r: Moves)
        requires
            moves@.len() <= 12,
            forall|i: int| 0 <= i < moves@.len() ==> self@[mv_didx(#[trigger] moves@[i])] is Some,
        ensures
            moves_view(r) == spec_legal_moves(self@, moves@, block_holding),
    {
        proof {
            use_type_invariant(self);
        }
        let mut moves_legal = moves_new();
        let mut all_wild = true;
        let mut i: usize = 0;
        while i < moves.len()
            invariant
                i <= moves@.len() <= 12,
                board_ok(self@),
                forall|j: int|
                    0 <= j < moves@.len() ==> self@[mv_didx(#[trigger] moves@[j])] is Some,
                moves_seq(moves_legal).len() <= i,
                moves_view(moves_legal) == spec_keep_legal(
                    self@,
                    moves@.take(i as int),
                    block_holding,
                ),
                all_wild == !spec_has_normal_dest(self@, moves@.take(i as int), block_holding),
            decreases moves@.len() - i,
        {
            let ghost prefix = moves@.take(i as int);
            let mv = moves[i];
            proof {
                use_type_invariant(mv.dst);
            }
            let block = self.get(mv.dst()).unwrap();
            let ghost prev = moves_view(moves_legal);
            let ghost prev_wild = all_wild;
            if block_holding.can_erase(block) {
                moves_push(&mut moves_legal, mv);
                proof {
                    lemma_move_dec_enc(mv);
                    assert(moves_view(moves_legal) =~= prev.push(mv));
                }
                if block.is_normal() {
                    all_wild = false;
                }
            }
            proof {
                assert(moves@.take(i + 1).drop_last() =~= prefix);
                assert(moves@.take(i + 1).last() == moves@[i as int]);
                assert(moves_view(moves_legal) =~= spec_keep_legal(
                    self@,
                    moves@.take(i + 1),
                    block_holding,
                ));
                lemma_has_normal_dest_step(self@, moves@, i as int, block_holding);
            }
            i += 1;
        }
        proof {
            assert(moves@.take(moves@.len() as int) =~= moves@);
        }
        if all_wild {
            return moves_new();
        }
        moves_legal
    }

    /// True when `mv`'s destination holds a block the held one can
    /// erase.
    pub fn is_legal_move(&self, mv: Move, block_holding: Block) -> (r: bool)
        ensures
            r == (self@[mv_didx(mv)] is Some && block_holding.spec_can_erase(
                self@[mv_didx(mv)].unwrap(),
            )),
    {
        proof {
            use_type_invariant(mv.dst);
        }
        match self.get(mv.dst()) {
            Some(block) => block_holding.can_erase(block),
            None => false,
        }
    }
}

/// Extending the scanned prefix by one move extends the reachable
/// normal-destination test by that move's destination.
proof fn lemma_has_normal_dest_step(
    s: Seq<Option<Block>>,
    ms: Seq<Move>,
    i: int,
    holding: Block,
)
    requires
        0 <= i < ms.len(),
    ensures
        spec_has_normal_dest(s, ms.take(i + 1), holding) <==> (spec_has_normal_dest(
            s,
            ms.take(i),
            holding,
        ) || (holding.spec_can_erase(s[mv_didx(ms[i])].unwrap()) && s[mv_didx(ms[i])] != Some(
            Block::Wild,
        ))),
{
    let pre = ms.take(i);
    let ext = ms.take(i + 1);
    assert(ext[i] == ms[i]);
    if spec_has_normal_dest(s, pre, holding) {
        let j = choose|j: int|
            0 <= j < pre.len() && holding.spec_can_erase(#[trigger] s[mv_didx(pre[j])].unwrap())
                && s[mv_didx(pre[j])] != Some(Block::Wild);
        assert(ext[j] == pre[j]);
        assert(spec_has_normal_dest(s, ext, holding));
    }
    if holding.spec_can_erase(s[mv_didx(ms[i])].unwrap()) && s[mv_didx(ms[i])] != Some(
        Block::Wild,
    ) {
        assert(spec_has_normal_dest(s, ext, holding));
    }
    if spec_has_normal_dest(s, ext, holding) {
        let j = choose|j: int|
            0 <= j < ext.len() && holding.spec_can_erase(#[trigger] s[mv_didx(ext[j])].unwrap())
                && s[mv_didx(ext[j])] != Some(Block::Wild);
        if j < i {
            assert(pre[j] == ext[j]);
            assert(spec_has_normal_dest(s, pre, holding));
        }
    }
}

/// The full effect of a throw on the board: the count drops by exactly
/// the erase count, at least one square is erased, the buffer stays
/// well formed, and the last square passed lies on the move's
/// trajectory from its destination.
pub proof fn lemma_do_move_props(
    s: Seq<Option<Block>>,
    dcol: int,
    drow: int,
    dir: MoveDirection,
    holding: Block,
)
    requires
        board_ok(s),
        bs_valid(dcol, drow),
        s[bs_idx(dcol, drow)] is Some,
    ensures
        ({
            let (rb, rh, rl, rc) = spec_do_move(s, dcol, drow, dir, holding);
            &&& rb.len() == 64
            &&& forall|i: int| 0 <= i < 64 && !sq_index_valid(i) ==> rb[i] is None
            &&& occ_count(rb) == occ_count(s) - rc
            &&& 1 <= rc
            &&& sq_index_valid(rl)
            &&& on_future(Some((dcol, drow, dir)), rl % 8, rl / 8)
        }),
{
    lemma_bs_idx_decompose(dcol, drow);
    let first = s[bs_idx(dcol, drow)].unwrap();
    let color = if first == Block::Wild {
        holding
    } else {
        first
    };
    let res0 = spec_erase(s, dcol, drow, dir);
    let next = traj_next(dcol, drow, dir);
    if dir == MoveDirection::Vertical {
        lemma_occ_update(s, bs_idx(dcol, drow), None);
    } else {
        lemma_erase_shift_props(s, dcol, drow);
    }
    assert forall|c2: int, r2: int| bs_valid(c2, r2) && on_future(next, c2, r2) implies res0[
        bs_idx(c2, r2)
    ] == s[bs_idx(c2, r2)] by {
        match next {
            Some((cn, rn, dn)) => {
                lemma_on_future_bound(cn, rn, dn, c2, r2);
                lemma_bs_idx_decompose(c2, r2);
                assert(!(c2 == dcol && 1 <= r2 <= drow));
            },
            None => {},
        }
    }
    lemma_walk_props(s, res0, next, color, dir, bs_idx(dcol, drow), 1);
    let (rb, rh, rl, rc) = spec_walk(s, res0, next, color, dir, bs_idx(dcol, drow), 1);
    if rl == bs_idx(dcol, drow) {
        assert(on_future(Some((dcol, drow, dir)), dcol, drow));
    } else {
        lemma_future_step(dcol, drow, dir, rl % 8, rl / 8);
    }
}

/// A set of candidate moves whose reachable destinations are all
/// wildcards offers no legal move at all, even though a direct hit on a
/// wildcard is in itself a legal throw.
pub proof fn lemma_legal_moves_all_wild(s: Seq<Option<Block>>, ms: Seq<Move>, holding: Block)
    requires
        forall|i: int| 0 <= i < ms.len() ==> s[mv_didx(#[trigger] ms[i])] == Some(Block::Wild),
    ensures
        spec_legal_moves(s, ms, holding) == Seq::<Move>::empty(),
{
    if spec_has_normal_dest(s, ms, holding) {
        let i = choose|i: int|
            0 <= i < ms.len() && holding.spec_can_erase(#[trigger] s[mv_didx(ms[i])].unwrap())
                && s[mv_didx(ms[i])] != Some(Block::Wild);
        assert(false);
    }
}

// ---------------------------------------------------------------------
// Well-formed candidate-move sets.

/// A move whose destination is consistent with its origin row: a
/// horizontal throw from row `6 + r` hits grid row `r`; a vertical
/// throw comes from one of the six upper rows, or is the falling tail
/// of a horizontal throw and so hits the leftmost column at or below
/// the throw's grid row.  The candidate-move generator only produces
/// such moves, and every square such a move's trajectory can touch has
/// a tabulated throw cost.
pub open(crate) spec fn spec_move_wf(mv: Move) -> bool {
    let src = mv.spec_src().spec_inner() as int;
    &&& (mv.spec_dir() == MoveDirection::Horizontal ==> src >= 7 && mv_drow(mv) == src - 6)
    &&& (mv.spec_dir() == MoveDirection::Vertical ==> src <= 6 || (mv_dcol(mv) == 1 && mv_drow(
        mv,
    ) >= src - 6))
}

/// A candidate-move set fit for the search, board aside: at most one
/// move per ground row (origin rows strictly decreasing), every move
/// well formed with a real origin row and a grid destination.
pub open(crate) spec fn moves_base_ok(ms: Seq<Move>) -> bool {
    &&& ms.len() <= 12
    &&& forall|i: int|
        0 <= i < ms.len() ==> bs_valid(mv_dcol(#[trigger] ms[i]), mv_drow(ms[i]))
    &&& forall|i: int|
        0 <= i < ms.len() ==> 1 <= (#[trigger] ms[i]).spec_src().spec_inner() <= 12
    &&& forall|i: int| 0 <= i < ms.len() ==> spec_move_wf(#[trigger] ms[i])
    &&& forall|i: int, j: int|
        0 <= i < j < ms.len() ==> (#[trigger] ms[i]).spec_src().spec_inner() > (
        #[trigger] ms[j]).spec_src().spec_inner()
}

/// A candidate-move set fit for the search against board `s`: well
/// formed as above and with every destination occupied, as
/// `spec_update_moves` leaves it.
pub open(crate) spec fn moves_ok(s: Seq<Option<Block>>, ms: Seq<Move>) -> bool {
    &&& moves_base_ok(ms)
    &&& forall|i: int| 0 <= i < ms.len() ==> s[mv_didx(#[trigger] ms[i])] is Some
}

/// Like `on_future`, but also matching the direction of travel at the
/// future square.
pub open spec fn on_future_pt(
    cur: Option<(int, int, MoveDirection)>,
    c2: int,
    r2: int,
    d2: MoveDirection,
) -> bool
    decreases cur_measure(cur),
{
    match cur {
        None => false,
        Some((c, r, d)) => (c == c2 && r == r2 && d == d2) || on_future_pt(
            traj_next(c, r, d),
            c2,
            r2,
            d2,
        ),
    }
}

/// Shape of the trajectory from `(c, r)` travelling `d`, directions
/// included: the horizontal segment keeps the row, the falling tail
/// keeps the leftmost column.
pub proof fn lemma_on_future_pt_bound(
    c: int,
    r: int,
    d: MoveDirection,
    c2: int,
    r2: int,
    d2: MoveDirection,
)
    requires
        bs_valid(c, r),
        on_future_pt(Some((c, r, d)), c2, r2, d2),
    ensures
        bs_valid(c2, r2),
        d == MoveDirection::Horizontal ==> ((d2 == MoveDirection::Horizontal && r2 == r && 1 <= c2
            <= c) || (d2 == MoveDirection::Vertical && c2 == 1 && r < r2 <= 6)),
        d == MoveDirection::Vertical ==> (d2 == MoveDirection::Vertical && c2 == c && r <= r2
            <= 6),
    decreases traj_measure(c, r, d),
{
    if c == c2 && r == r2 && d == d2 {
    } else {
        assert(on_future_pt(traj_next(c, r, d), c2, r2, d2));
        match traj_next(c, r, d) {
            Some((cn, rn, dn)) => {
                lemma_on_future_pt_bound(cn, rn, dn, c2, r2, d2);
            },
            None => {
                assert(!on_future_pt(None::<(int, int, MoveDirection)>, c2, r2, d2));
            },
        }
    }
}

/// What `spec_find_dest` returns: an occupied square on the trajectory
/// it searched, with the direction of travel there.
pub proof fn lemma_find_dest_props(s: Seq<Option<Block>>, cur: Option<(int, int, MoveDirection)>)
    ensures
        match spec_find_dest(s, cur) {
            None => true,
            Some((c, r, d)) => on_future_pt(cur, c, r, d) && s[bs_idx(c, r)] is Some && bs_valid(
                c,
                r,
            ),
        },
    decreases cur_measure(cur),
{
    match cur {
        None => {},
        Some((c0, r0, d0)) => {
            if bs_valid(c0, r0) && !(s[bs_idx(c0, r0)] is Some) {
                lemma_find_dest_props(s, traj_next(c0, r0, d0));
            }
        },
    }
}

/// What rebinding one move preserves: the origin row, a valid occupied
/// destination, and well-formedness.
pub proof fn lemma_update_one_props(s: Seq<Option<Block>>, mv: Move)
    requires
        s.len() == 64,
        bs_valid(mv_dcol(mv), mv_drow(mv)),
        spec_move_wf(mv),
    ensures
        match spec_update_one(s, mv) {
            None => true,
            Some(m) => {
                &&& m.spec_src() == mv.spec_src()
                &&& bs_valid(mv_dcol(m), mv_drow(m))
                &&& s[mv_didx(m)] is Some
                &&& spec_move_wf(m)
            },
        },
{
    let start = Some((mv_dcol(mv), mv_drow(mv), mv.spec_dir()));
    lemma_find_dest_props(s, start);
    match spec_find_dest(s, start) {
        None => {},
        Some((c, r, d)) => {
            lemma_on_future_pt_bound(mv_dcol(mv), mv_drow(mv), mv.spec_dir(), c, r, d);
            lemma_bs_idx_decompose(c, r);
        },
    }
}

/// Rebinding a well-formed candidate set yields a candidate set fit
/// for the search against the new board.
pub proof fn lemma_update_moves_ok(s: Seq<Option<Block>>, ms: Seq<Move>)
    requires
        s.len() == 64,
        moves_base_ok(ms),
    ensures
        moves_ok(s, spec_update_moves(s, ms)),
        spec_update_moves(s, ms).len() <= ms.len(),
        forall|k: int|
            0 <= k < spec_update_moves(s, ms).len() ==> exists|j: int|
                0 <= j < ms.len() && (#[trigger] spec_update_moves(s, ms)[k]).spec_src() == ms[
                    j
                ].spec_src(),
    decreases ms.len(),
{
    if ms.len() == 0 {
    } else {
        let t = ms.drop_last();
        assert(moves_base_ok(t)) by {
            assert(forall|i: int| 0 <= i < t.len() ==> t[i] == ms[i]);
        }
        lemma_update_moves_ok(s, t);
        lemma_update_one_props(s, ms.last());
        let u = spec_update_moves(s, ms);
        let ut = spec_update_moves(s, t);
        assert forall|k: int| 0 <= k < u.len() implies exists|j: int|
            0 <= j < ms.len() && (#[trigger] u[k]).spec_src() == ms[j].spec_src() by {
            if k < ut.len() {
                assert(u[k] == ut[k]);
                let j = choose|j: int| 0 <= j < t.len() && ut[k].spec_src() == t[j].spec_src();
                assert(ms[j] == t[j]);
                assert(u[k].spec_src() == ms[j].spec_src());
            } else {
                assert(u[k] == spec_update_one(s, ms.last()).unwrap());
                assert(u[k].spec_src() == ms[ms.len() - 1].spec_src());
            }
        }
        assert forall|i: int, j: int| 0 <= i < j < u.len() implies (#[trigger] u[i]).spec_src(
        ).spec_inner() > (#[trigger] u[j]).spec_src().spec_inner() by {
            if j < ut.len() {
                assert(u[i] == ut[i] && u[j] == ut[j]);
            } else {
                assert(u[i] == ut[i]);
                let j2 = choose|j2: int|
                    0 <= j2 < t.len() && ut[i].spec_src() == t[j2].spec_src();
                assert(ms[j2] == t[j2]);
                assert(ms[j2].spec_src().spec_inner() > ms[ms.len() - 1].spec_src().spec_inner());
            }
        }
    }
}

/// What the legality filter keeps: existing moves of the input, in
/// order, each with an erasable destination block.
pub proof fn lemma_keep_legal_props(s: Seq<Option<Block>>, ms: Seq<Move>, holding: Block)
    ensures
        spec_keep_legal(s, ms, holding).len() <= ms.len(),
        forall|k: int|
            0 <= k < spec_keep_legal(s, ms, holding).len() ==> exists|j: int|
                0 <= j < ms.len() && (#[trigger] spec_keep_legal(s, ms, holding)[k]) == ms[j],
        forall|k: int|
            0 <= k < spec_keep_legal(s, ms, holding).len() ==> holding.spec_can_erase(
                s[mv_didx(#[trigger] spec_keep_legal(s, ms, holding)[k])].unwrap(),
            ),
    decreases ms.len(),
{
    if ms.len() == 0 {
    } else {
        let t = ms.drop_last();
        lemma_keep_legal_props(s, t, holding);
        let k = spec_keep_legal(s, ms, holding);
        let kt = spec_keep_legal(s, t, holding);
        assert forall|x: int| 0 <= x < k.len() implies exists|j: int|
            0 <= j < ms.len() && (#[trigger] k[x]) == ms[j] by {
            if x < kt.len() {
                assert(k[x] == kt[x]);
                let j = choose|j: int| 0 <= j < t.len() && kt[x] == t[j];
                assert(ms[j] == t[j]);
            } else {
                assert(k[x] == ms[ms.len() - 1]);
            }
        }
        assert forall|x: int| 0 <= x < k.len() implies holding.spec_can_erase(
            s[mv_didx(#[trigger] k[x])].unwrap(),
        ) by {
            if x < kt.len() {
                assert(k[x] == kt[x]);
            } else {
                assert(k[x] == ms[ms.len() - 1]);
            }
        }
    }
}

/// The first move of `ms` whose origin is ground row `src`.
pub open(crate) spec fn spec_find_by_src(ms: Seq<Move>, src: u8) -> Option<Move>
    decreases ms.len(),
{
    if ms.len() == 0 {
        None
    } else if ms[0].spec_src().spec_inner() == src {
        Some(ms[0])
    } else {
        spec_find_by_src(ms.skip(1), src)
    }
}

/// In a set with one move per origin row, searching by a member's
/// origin row finds exactly that member.
pub proof fn lemma_find_by_src_hit(ms: Seq<Move>, j: int)
    requires
        forall|x: int, y: int|
            0 <= x < y < ms.len() ==> (#[trigger] ms[x]).spec_src().spec_inner() > (
            #[trigger] ms[y]).spec_src().spec_inner(),
        0 <= j < ms.len(),
    ensures
        spec_find_by_src(ms, ms[j].spec_src().spec_inner()) == Some(ms[j]),
    decreases ms.len(),
{
    if j == 0 {
    } else {
        let t = ms.skip(1);
        assert(forall|x: int| 0 <= x < t.len() ==> t[x] == ms[x + 1]);
        lemma_find_by_src_hit(t, j - 1);
    }
}

/// A found move is a member of the set and carries the queried origin
/// row.
pub proof fn lemma_find_by_src_member(ms: Seq<Move>, src: u8)
    ensures
        match spec_find_by_src(ms, src) {
            None => true,
            Some(m) => m.spec_src().spec_inner() == src && exists|k: int|
                0 <= k < ms.len() && ms[k] == m,
        },
    decreases ms.len(),
{
    if ms.len() > 0 && ms[0].spec_src().spec_inner() != src {
        let t = ms.skip(1);
        lemma_find_by_src_member(t, src);
        match spec_find_by_src(t, src) {
            None => {},
            Some(m) => {
                let k = choose|k: int| 0 <= k < t.len() && t[k] == m;
                assert(ms[k + 1] == t[k]);
            },
        }
    }
}

/// Moving the search past a prefix without a hit changes nothing.
pub proof fn lemma_find_by_src_skip(ms: Seq<Move>, src: u8, i: int)
    requires
        0 <= i <= ms.len(),
        forall|k: int| 0 <= k < i ==> (#[trigger] ms[k]).spec_src().spec_inner() != src,
    ensures
        spec_find_by_src(ms, src) == spec_find_by_src(ms.skip(i), src),
    decreases i,
{
    if i == 0 {
        assert(ms.skip(0) =~= ms);
    } else {
        let t = ms.skip(1);
        assert(forall|x: int| 0 <= x < t.len() ==> #[trigger] t[x] == ms[x + 1]);
        assert(ms[0].spec_src().spec_inner() != src);
        assert(spec_find_by_src(ms, src) == spec_find_by_src(t, src));
        assert forall|k: int| 0 <= k < i - 1 implies (#[trigger] t[k]).spec_src().spec_inner()
            != src by {
            assert(t[k] == ms[k + 1]);
        }
        lemma_find_by_src_skip(t, src, i - 1);
        assert(t.skip(i - 1) =~= ms.skip(i));
        assert(spec_find_by_src(t.skip(i - 1), src) == spec_find_by_src(ms.skip(i), src));
    }
}

/// Takes one more cell into the running count.
pub proof fn lemma_occ_take_step(s: Seq<Option<Block>>, i: int)
    requires
        0 <= i < s.len(),
    ensures
        occ_count(s.take(i + 1)) == occ_count(s.take(i)) + occ1(s[i]),
{
    assert(s.take(i + 1).drop_last() =~= s.take(i));
    assert(s.take(i + 1).last() == s[i]);
}

} // verus!
