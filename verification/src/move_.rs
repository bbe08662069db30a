//! Throws: origin row, first block hit, and travel direction.
//!
//! A set of candidate moves is kept in an `arrayvec::ArrayVec` with room
//! for one move per ground row; the helpers at the bottom of this file
//! wrap the `ArrayVec` operations the library needs.

use vstd::prelude::*;

use crate::block::BlocksSquare;
use crate::ground::GroundRow;

verus! {

/// The direction a thrown block is travelling.
#[derive(Clone, Copy, Debug, PartialEq, Eq, Structural)]
pub enum MoveDirection {
    Horizontal,
    Vertical,
}

/// A throw: its origin ground row, the square of the first block it
/// hits, and the direction it is travelling when it hits.
#[derive(Clone, Copy, Debug, PartialEq, Eq, Structural)]
pub struct Move {
    pub(crate) src: GroundRow,
    pub(crate) dst: BlocksSquare,
    pub(crate) dir: MoveDirection,
}

impl Move {
    pub open(crate) spec fn spec_src(self) -> GroundRow {
        self.src
    }

    pub open(crate) spec fn spec_dst(self) -> BlocksSquare {
        self.dst
    }

    pub open(crate) spec fn spec_dir(self) -> MoveDirection {
        self.dir
    }

    /// This move as a triple of plain numbers: origin row, packed
    /// destination index, and a direction bit.
    pub open(crate) spec fn spec_enc(self) -> (u8, u8, u8) {
        (
            self.src.spec_inner(),
            self.dst.spec_inner(),
            if self.dir == MoveDirection::Horizontal {
                0u8
            } else {
                1u8
            },
        )
    }

    pub fn new(src: GroundRow, dst: BlocksSquare, dir: MoveDirection) -> (r: Move)
        ensures
            r.spec_src() == src,
            r.spec_dst() == dst,
            r.spec_dir() == dir,
    {
        Move { src, dst, dir }
    }

    pub fn src(self) -> (r: GroundRow)
        ensures
            r == self.spec_src(),
    {
        self.src
    }

    pub fn dst(self) -> (r: BlocksSquare)
        ensures
            r == self.spec_dst(),
    {
        self.dst
    }

    pub fn direction(self) -> (r: MoveDirection)
        ensures
            r == self.spec_dir(),
    {
        self.dir
    }
}

/// The move described by an encoded triple; inverse of `Move::spec_enc`
/// on triples whose direction bit is 0 or 1.
pub open(crate) spec fn spec_move_dec(t: (u8, u8, u8)) -> Move {
    Move {
        src: GroundRow { v: t.0 },
        dst: BlocksSquare { v: t.1 },
        dir: if t.2 == 0 {
            MoveDirection::Horizontal
        } else {
            MoveDirection::Vertical
        },
    }
}

pub broadcast proof fn lemma_move_dec_enc(mv: Move)
    ensures
        #[trigger] spec_move_dec(mv.spec_enc()) == mv,
{
}

/// A set of candidate moves: at most one per ground row, so twelve at
/// most.
pub type Moves = arrayvec::ArrayVec<Move, 12>;

#[verifier::external_type_specification]
#[verifier::external_body]
#[verifier::reject_recursive_types(T)]
pub struct ExArrayVec<T, const CAP: usize>(arrayvec::ArrayVec<T, CAP>);

/// What a candidate-move vector holds: its moves in order, each as an
/// encoded triple.
pub uninterp spec fn moves_seq(m: Moves) -> Seq<(u8, u8, u8)>;

/// The moves a candidate-move vector holds, in order.
pub open(crate) spec fn moves_view(m: Moves) -> Seq<Move> {
    moves_seq(m).map(|i: int, t: (u8, u8, u8)| spec_move_dec(t))
}

/// A slice holding a move vector's elements shows the same moves.
pub proof fn lemma_moves_as_slice_view(m: &Moves, sl: Seq<Move>)
    requires
        moves_seq(*m) == sl.map(|i: int, mv: Move| mv.spec_enc()),
    ensures
        moves_view(*m) =~= sl,
{
    assert forall|i: int| 0 <= i < moves_view(*m).len() implies moves_view(*m)[i] == sl[i] by {
        lemma_move_dec_enc(sl[i]);
    }
}

/// Relies on `arrayvec::ArrayVec::new`: the new vector is empty.
#[verifier::external_body]
pub(crate) fn moves_new() -> (r: Moves)
    ensures
        moves_seq(r) == Seq::<(u8, u8, u8)>::empty(),
{
    arrayvec::ArrayVec::new()
}

/// Relies on `arrayvec::ArrayVec::push`: appends the element at the end;
/// below capacity it does not panic.
#[verifier::external_body]
pub(crate) fn moves_push(m: &mut Moves, mv: Move)
    requires
        moves_seq(*old(m)).len() < 12,
    ensures
        moves_seq(*final(m)) == moves_seq(*old(m)).push(mv.spec_enc()),
{
    m.push(mv);
}

/// Relies on `arrayvec::ArrayVec`'s `Deref` to a slice: the slice holds
/// exactly the vector's elements in order, and their number never
/// exceeds the capacity.
#[verifier::external_body]
pub(crate) fn moves_as_slice(m: &Moves) -> (r: &[Move])
    ensures
        moves_seq(*m) == r@.map(|i: int, mv: Move| mv.spec_enc()),
        r@.len() <= 12,
{
    m
}

/// Relies on `arrayvec::ArrayVec`'s `Clone`: the copy holds the same
/// elements in the same order (`Move` is `Copy`).
#[verifier::external_body]
pub(crate) fn moves_clone(m: &Moves) -> (r: Moves)
    ensures
        moves_seq(r) == moves_seq(*m),
{
    m.clone()
}

} // verus!
