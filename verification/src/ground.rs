//! The 8x12 ground map: walls and pipes outside the block grid.

use vstd::prelude::*;

use crate::block::{BlocksCol, BlocksRow};

verus! {

/// A column of the ground map, `A` (1) through `H` (8).  Columns `A`
/// through `F` overlap the block grid.
#[derive(Clone, Copy, Debug, PartialEq, Eq, Structural)]
pub struct GroundCol {
    pub(crate) v: u8,
}

impl GroundCol {
    #[verifier::type_invariant]
    pub(crate) open(crate) spec fn type_inv(self) -> bool {
        GroundCol::spec_is_valid(self.v)
    }

    /// The 1-based column number.
    pub open(crate) spec fn spec_inner(self) -> u8 {
        self.v
    }

    pub open spec fn spec_is_valid(inner: u8) -> bool {
        1 <= inner <= 8
    }

    pub fn from_inner(inner: u8) -> (r: Option<GroundCol>)
        ensures
            r is Some <==> GroundCol::spec_is_valid(inner),
            r is Some ==> r.unwrap().spec_inner() == inner,
    {
        if GroundCol::is_valid(inner) {
            Some(GroundCol { v: inner })
        } else {
            None
        }
    }

    pub fn to_inner(self) -> (r: u8)
        ensures
            r == self.spec_inner(),
            GroundCol::spec_is_valid(r),
    {
        proof {
            use_type_invariant(self);
        }
        self.v
    }

    pub fn to_index(self) -> (r: usize)
        ensures
            r == self.spec_inner() - 1,
            r < 8,
    {
        proof {
            use_type_invariant(self);
        }
        (self.v - 1) as usize
    }

    /// The column one step to the right, if any.
    pub fn next(self) -> (r: Option<GroundCol>)
        ensures
            r is Some <==> self.spec_inner() < 8,
            r is Some ==> r.unwrap().spec_inner() == self.spec_inner() + 1,
    {
        proof {
            use_type_invariant(self);
        }
        GroundCol::from_inner(self.v + 1)
    }

    /// True when this column overlaps the block grid.
    pub fn is_blocks_area(self) -> (r: bool)
        ensures
            r == (self.spec_inner() <= 6),
    {
        self.v <= 6
    }

    pub fn is_valid(inner: u8) -> (r: bool)
        ensures
            r == GroundCol::spec_is_valid(inner),
    {
        1 <= inner && inner <= 8
    }

    /// All eight columns, leftmost first.
    pub fn all() -> (r: [GroundCol; 8])
        ensures
            forall|i: int| 0 <= i < 8 ==> #[trigger] r[i].spec_inner() == i + 1,
    {
        [
            GroundCol { v: 1 },
            GroundCol { v: 2 },
            GroundCol { v: 3 },
            GroundCol { v: 4 },
            GroundCol { v: 5 },
            GroundCol { v: 6 },
            GroundCol { v: 7 },
            GroundCol { v: 8 },
        ]
    }

    /// The ground column overlapping the given block-grid column.
    pub fn from_blocks(bcol: BlocksCol) -> (r: GroundCol)
        ensures
            r.spec_inner() == bcol.spec_inner(),
    {
        proof {
            use_type_invariant(bcol);
        }
        GroundCol { v: bcol.to_inner() }
    }

    /// The block-grid column overlapping this ground column, if any.
    pub fn to_blocks(self) -> (r: Option<BlocksCol>)
        ensures
            r is Some <==> self.spec_inner() <= 6,
            r is Some ==> r.unwrap().spec_inner() == self.spec_inner(),
    {
        proof {
            use_type_invariant(self);
        }
        BlocksCol::from_inner(self.v)
    }
}

/// A row of the ground map, 1 (top) through 12 (bottom).  Rows 7
/// through 12 overlap the block grid.
#[derive(Clone, Copy, Debug, PartialEq, Eq, Structural)]
pub struct GroundRow {
    pub(crate) v: u8,
}

impl GroundRow {
    #[verifier::type_invariant]
    pub(crate) open(crate) spec fn type_inv(self) -> bool {
        GroundRow::spec_is_valid(self.v)
    }

    /// The 1-based row number; row 1 is the top of the map.
    pub open(crate) spec fn spec_inner(self) -> u8 {
        self.v
    }

    pub open spec fn spec_is_valid(inner: u8) -> bool {
        1 <= inner <= 12
    }

    pub fn from_inner(inner: u8) -> (r: Option<GroundRow>)
        ensures
            r is Some <==> GroundRow::spec_is_valid(inner),
            r is Some ==> r.unwrap().spec_inner() == inner,
    {
        if GroundRow::is_valid(inner) {
            Some(GroundRow { v: inner })
        } else {
            None
        }
    }

    pub fn to_inner(self) -> (r: u8)
        ensures
            r == self.spec_inner(),
            GroundRow::spec_is_valid(r),
    {
        proof {
            use_type_invariant(self);
        }
        self.v
    }

    pub fn to_index(self) -> (r: usize)
        ensures
            r == self.spec_inner() - 1,
            r < 12,
    {
        proof {
            use_type_invariant(self);
        }
        (self.v - 1) as usize
    }

    /// The row one step above, if any.
    pub fn prev(self) -> (r: Option<GroundRow>)
        ensures
            r is Some <==> self.spec_inner() > 1,
            r is Some ==> r.unwrap().spec_inner() == self.spec_inner() - 1,
    {
        proof {
            use_type_invariant(self);
        }
        GroundRow::from_inner(self.v - 1)
    }

    /// True when this row overlaps the block grid.
    pub fn is_blocks_area(self) -> (r: bool)
        ensures
            r == (self.spec_inner() >= 7),
    {
        self.v >= 7
    }

    pub fn is_valid(inner: u8) -> (r: bool)
        ensures
            r == GroundRow::spec_is_valid(inner),
    {
        1 <= inner && inner <= 12
    }

    /// All twelve rows, top first.
    pub fn all() -> (r: [GroundRow; 12])
        ensures
            forall|i: int| 0 <= i < 12 ==> #[trigger] r[i].spec_inner() == i + 1,
    {
        [
            GroundRow { v: 1 },
            GroundRow { v: 2 },
            GroundRow { v: 3 },
            GroundRow { v: 4 },
            GroundRow { v: 5 },
            GroundRow { v: 6 },
            GroundRow { v: 7 },
            GroundRow { v: 8 },
            GroundRow { v: 9 },
            GroundRow { v: 10 },
            GroundRow { v: 11 },
            GroundRow { v: 12 },
        ]
    }

    /// The ground row overlapping the given block-grid row.
    pub fn from_blocks(brow: BlocksRow) -> (r: GroundRow)
        ensures
            r.spec_inner() == brow.spec_inner() + 6,
    {
        proof {
            use_type_invariant(brow);
        }
        GroundRow { v: brow.to_inner() + 6 }
    }

    /// The block-grid row overlapping this ground row, if any.
    pub fn to_blocks(self) -> (r: Option<BlocksRow>)
        ensures
            r is Some <==> self.spec_inner() >= 7,
            r is Some ==> r.unwrap().spec_inner() == self.spec_inner() - 6,
    {
        proof {
            use_type_invariant(self);
        }
        if self.v >= 7 {
            BlocksRow::from_inner(self.v - 6)
        } else {
            None
        }
    }
}

/// A square of the ground map.
#[derive(Clone, Copy, Debug, PartialEq, Eq, Structural)]
pub struct GroundSquare {
    pub(crate) col: GroundCol,
    pub(crate) row: GroundRow,
}

impl GroundSquare {
    pub open(crate) spec fn spec_col(self) -> GroundCol {
        self.col
    }

    pub open(crate) spec fn spec_row(self) -> GroundRow {
        self.row
    }

    pub fn new(col: GroundCol, row: GroundRow) -> (r: GroundSquare)
        ensures
            r.spec_col() == col,
            r.spec_row() == row,
    {
        GroundSquare { col, row }
    }

    pub fn to_index(self) -> (r: usize)
        ensures
            r == ground_index(self.spec_col().spec_inner() as int, self.spec_row().spec_inner() as int),
            r < 96,
    {
        proof {
            use_type_invariant(self.col);
            use_type_invariant(self.row);
        }
        8 * self.row.to_index() + self.col.to_index()
    }

    /// True when this square lies in the bottom-left 6x6 block area.
    pub fn is_blocks_area(self) -> (r: bool)
        ensures
            r == (self.spec_col().spec_inner() <= 6 && self.spec_row().spec_inner() >= 7),
    {
        self.col.is_blocks_area() && self.row.is_blocks_area()
    }
}

/// Index of ground cell `(col, row)` in the row-major 8x12 cell vector.
pub open spec fn ground_index(col: int, row: int) -> int {
    8 * (row - 1) + (col - 1)
}

/// A ground obstruction: a wall or a pipe.
#[derive(Clone, Copy, Debug, PartialEq, Eq, Structural)]
pub enum GroundElement {
    Wall,
    Pipe,
}

impl GroundElement {
    pub fn is_wall(self) -> (r: bool)
        ensures
            r == (self == GroundElement::Wall),
    {
        matches!(self, GroundElement::Wall)
    }

    pub fn is_pipe(self) -> (r: bool)
        ensures
            r == (self == GroundElement::Pipe),
    {
        matches!(self, GroundElement::Pipe)
    }
}

/// The 8x12 map of walls and pipes, stored row-major.
#[derive(Debug, PartialEq, Eq)]
pub struct Ground {
    cells: Vec<Option<GroundElement>>,
}

impl View for Ground {
    type V = Seq<Option<GroundElement>>;

    closed spec fn view(&self) -> Seq<Option<GroundElement>> {
        self.cells@
    }
}

impl Clone for Ground {
    fn clone(&self) -> (r: Ground)
        ensures
            r@ == self@,
    {
        proof {
            use_type_invariant(self);
        }
        let mut cells: Vec<Option<GroundElement>> = Vec::new();
        let mut i: usize = 0;
        while i < 96
            invariant
                i <= 96,
                self@.len() == 96,
                cells@.len() == i,
                forall|j: int| 0 <= j < i ==> cells@[j] == self@[j],
            decreases 96 - i,
        {
            cells.push(self.cells[i]);
            i += 1;
        }
        proof {
            assert(cells@ =~= self@);
        }
        Ground { cells }
    }
}

impl Ground {
    #[verifier::type_invariant]
    pub(crate) open(crate) spec fn type_inv(self) -> bool {
        self@.len() == 96
    }

    /// The element at ground cell `(col, row)`, with 1-based coordinates.
    pub open spec fn spec_at(self, col: int, row: int) -> Option<GroundElement> {
        self@[ground_index(col, row)]
    }

    /// An empty map.
    pub fn new() -> (r: Ground)
        ensures
            r@.len() == 96,
            forall|i: int| 0 <= i < 96 ==> r@[i] is None,
    {
        let mut cells: Vec<Option<GroundElement>> = Vec::new();
        let mut i: usize = 0;
        while i < 96
            invariant
                i <= 96,
                cells@.len() == i,
                forall|j: int| 0 <= j < i ==> cells@[j] is None,
            decreases 96 - i,
        {
            cells.push(None);
            i += 1;
        }
        Ground { cells }
    }

    /// The element at `sq`, if any.
    pub fn get(&self, sq: GroundSquare) -> (r: Option<GroundElement>)
        ensures
            r == self.spec_at(sq.spec_col().spec_inner() as int, sq.spec_row().spec_inner() as int),
    {
        proof {
            use_type_invariant(self);
        }
        self.cells[sq.to_index()]
    }

    /// Replaces the element at `sq`.
    pub fn set(&mut self, sq: GroundSquare, elem: Option<GroundElement>)
        ensures
            final(self)@ == old(self)@.update(
                ground_index(sq.spec_col().spec_inner() as int, sq.spec_row().spec_inner() as int),
                elem,
            ),
    {
        proof {
            use_type_invariant(&*self);
        }
        let i = sq.to_index();
        self.cells[i] = elem;
    }
}

} // verus!
