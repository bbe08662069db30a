//! The text forms of boards, ground maps, positions, problems and
//! solutions, with their round-trip guarantees.

use vstd::prelude::*;

use crate::block::{Block, Blocks, board_ok, bs_idx, sq_index_valid};
use crate::error::GameError;
use crate::game_mode::GameMode;
use crate::ground::{Ground, GroundCol, GroundElement, GroundRow, GroundSquare, ground_index};
use crate::position::Position;
use crate::problem::Problem;
use crate::solver::Solution;
use vstd::string::StringExecFns;

verus! {

/// Relies on `String::push`: appends one character at the end.
#[verifier::external_body]
pub(crate) fn push_char(s: &mut String, c: char)
    ensures
        final(s)@ == old(s)@.push(c),
{
    s.push(c);
}

// ---------------------------------------------------------------------
// The block grid: six lines of six cell characters.

/// The character of a board cell: `.` for an empty cell, the block's
/// numeric code otherwise.
pub open spec fn block_char(b: Option<Block>) -> char {
    match b {
        None => '.',
        Some(Block::Normal1) => '1',
        Some(Block::Normal2) => '2',
        Some(Block::Normal3) => '3',
        Some(Block::Normal4) => '4',
        Some(Block::Wild) => '5',
    }
}

/// The board cell a character encodes, if any.
pub open spec fn char_block(c: char) -> Option<Option<Block>> {
    match c {
        '.' => Some(None),
        '1' => Some(Some(Block::Normal1)),
        '2' => Some(Some(Block::Normal2)),
        '3' => Some(Some(Block::Normal3)),
        '4' => Some(Some(Block::Normal4)),
        '5' => Some(Some(Block::Wild)),
        _ => None,
    }
}

/// The text form of a board: six lines, top row first, each of six
/// cell characters and a newline.
pub open spec fn spec_blocks_text(s: Seq<Option<Block>>) -> Seq<char> {
    Seq::new(42, |i: int| blocks_text_char(s, i))
}

/// The character at position `i` of a board's text form.
pub open spec fn blocks_text_char(s: Seq<Option<Block>>, i: int) -> char {
    if i % 7 == 6 {
        '\n'
    } else {
        block_char(s[bs_idx(i % 7 + 1, i / 7 + 1)])
    }
}

/// A well-formed board text: 42 characters, a newline closing each of
/// the six seven-character lines, a cell character everywhere else.
pub open spec fn spec_blocks_text_valid(t: Seq<char>) -> bool {
    &&& t.len() == 42
    &&& forall|i: int|
        0 <= i < 42 ==> if i % 7 == 6 {
            (#[trigger] t[i]) == '\n'
        } else {
            char_block(t[i]) is Some
        }
}

/// The board a well-formed text describes.
pub open spec fn spec_board_of_text(t: Seq<char>) -> Seq<Option<Block>> {
    Seq::new(
        64,
        |v: int|
            if sq_index_valid(v) {
                char_block(t[7 * (v / 8 - 1) + (v % 8 - 1)]).unwrap()
            } else {
                None
            },
    )
}

/// Decomposing `7 * a + b` with `b` below 7 recovers both parts.
proof fn lemma_div7(a: int, b: int)
    requires
        0 <= a,
        0 <= b < 7,
    ensures
        (7 * a + b) / 7 == a,
        (7 * a + b) % 7 == b,
{
    assert((7 * a + b) / 7 == a && (7 * a + b) % 7 == b) by (nonlinear_arith)
        requires
            0 <= a,
            0 <= b < 7,
    {}
}

/// Serializing any well-formed board and parsing the text back yields
/// the board unchanged.
pub proof fn lemma_blocks_text_round_trip(s: Seq<Option<Block>>)
    requires
        board_ok(s),
    ensures
        spec_blocks_text_valid(spec_blocks_text(s)),
        spec_board_of_text(spec_blocks_text(s)) =~= s,
{
    let t = spec_blocks_text(s);
    assert forall|i: int| 0 <= i < 42 implies if i % 7 == 6 {
        (#[trigger] t[i]) == '\n'
    } else {
        char_block(t[i]) is Some
    } by {
        if i % 7 != 6 {
            crate::block::lemma_bs_idx_decompose(i % 7 + 1, i / 7 + 1);
        }
    }
    assert forall|v: int| 0 <= v < 64 implies spec_board_of_text(t)[v] == s[v] by {
        if sq_index_valid(v) {
            let p = 7 * (v / 8 - 1) + (v % 8 - 1);
            lemma_div7(v / 8 - 1, v % 8 - 1);
            assert(p % 7 == v % 8 - 1 && p / 7 == v / 8 - 1);
            assert(t[p] == block_char(s[bs_idx(v % 8, v / 8)]));
            assert(bs_idx(v % 8, v / 8) == v);
        }
    }
}

impl Blocks {
    /// The character of one cell, as `to_text` writes it.
    pub fn block_to_char(block: Option<Block>) -> (r: char)
        ensures
            r == block_char(block),
    {
        match block {
            None => '.',
            Some(Block::Normal1) => '1',
            Some(Block::Normal2) => '2',
            Some(Block::Normal3) => '3',
            Some(Block::Normal4) => '4',
            Some(Block::Wild) => '5',
        }
    }

    /// The cell a character encodes; fails on any other character.
    pub fn char_to_block(ch: char) -> (r: Result<Option<Block>, GameError>)
        ensures
            r is Ok <==> char_block(ch) is Some,
            r is Ok ==> char_block(ch) == Some(r.unwrap()),
            r is Err ==> r.unwrap_err() == GameError::BadBlockChar,
    {
        match ch {
            '.' => Ok(None),
            '1' => Ok(Some(Block::Normal1)),
            '2' => Ok(Some(Block::Normal2)),
            '3' => Ok(Some(Block::Normal3)),
            '4' => Ok(Some(Block::Normal4)),
            '5' => Ok(Some(Block::Wild)),
            _ => Err(GameError::BadBlockChar),
        }
    }

    /// The six-line text form of this board.
    pub fn to_text(&self) -> (r: String)
        ensures
            r@ == spec_blocks_text(self@),
    {
        proof {
            use_type_invariant(self);
        }
        let mut out = String::new();
        let mut i: usize = 0;
        while i < 42
            invariant
                i <= 42,
                board_ok(self@),
                out@.len() == i,
                forall|j: int| 0 <= j < i ==> out@[j] == blocks_text_char(self@, j),
            decreases 42 - i,
        {
            let c: char = if i % 7 == 6 {
                '\n'
            } else {
                let col = (i % 7 + 1) as u8;
                let row = (i / 7 + 1) as u8;
                let sq = crate::block::BlocksSquare::from_inner(8 * row + col).unwrap();
                proof {
                    crate::block::lemma_bs_idx_decompose(col as int, row as int);
                }
                Blocks::block_to_char(self.get(sq))
            };
            push_char(&mut out, c);
            i += 1;
        }
        proof {
            assert(out@ =~= spec_blocks_text(self@));
        }
        out
    }

    /// Parses the six-line text form of a board; accepts exactly the
    /// texts `to_text` produces.
    pub fn from_text(s: &str) -> (r: Result<Blocks, GameError>)
        ensures
            r is Ok <==> spec_blocks_text_valid(s@),
            r is Ok ==> r.unwrap()@ == spec_board_of_text(s@),
            r is Err ==> (r.unwrap_err() == GameError::BadLineCount || r.unwrap_err()
                == GameError::BadLineLength || r.unwrap_err() == GameError::BadBlockChar),
    {
        let n = s.unicode_len();
        if n != 42 {
            return Err(GameError::BadLineCount);
        }
        let mut blocks = Blocks::new();
        let mut i: usize = 0;
        while i < 42
            invariant
                i <= 42,
                s@.len() == 42,
                blocks@.len() == 64,
                forall|j: int|
                    0 <= j < i ==> if j % 7 == 6 {
                        (#[trigger] s@[j]) == '\n'
                    } else {
                        char_block(s@[j]) is Some
                    },
                forall|v: int|
                    0 <= v < 64 ==> #[trigger] blocks@[v] == if sq_index_valid(v) && 7 * (v / 8
                        - 1) + (v % 8 - 1) < i {
                        char_block(s@[7 * (v / 8 - 1) + (v % 8 - 1)]).unwrap()
                    } else {
                        None
                    },
            decreases 42 - i,
        {
            let c = s.get_char(i);
            if i % 7 == 6 {
                if c != '\n' {
                    return Err(GameError::BadLineLength);
                }
            } else {
                let cell = match Blocks::char_to_block(c) {
                    Ok(cell) => cell,
                    Err(e) => {
                        return Err(e);
                    },
                };
                let col = (i % 7 + 1) as u8;
                let row = (i / 7 + 1) as u8;
                let sq = crate::block::BlocksSquare::from_inner(8 * row + col).unwrap();
                proof {
                    crate::block::lemma_bs_idx_decompose(col as int, row as int);
                }
                blocks.set(sq, cell);
                proof {
                    assert forall|v: int|
                        0 <= v < 64 implies #[trigger] blocks@[v] == if sq_index_valid(v) && 7 * (
                        v / 8 - 1) + (v % 8 - 1) < i + 1 {
                        char_block(s@[7 * (v / 8 - 1) + (v % 8 - 1)]).unwrap()
                    } else {
                        None
                    } by {
                        if sq_index_valid(v) {
                            lemma_div7(v / 8 - 1, v % 8 - 1);
                        }
                    }
                }
            }
            i += 1;
        }
        proof {
            assert forall|v: int| 0 <= v < 64 implies #[trigger] blocks@[v] == spec_board_of_text(
                s@,
            )[v] by {
                if sq_index_valid(v) {
                    lemma_div7(v / 8 - 1, v % 8 - 1);
                }
            }
            assert(blocks@ =~= spec_board_of_text(s@));
        }
        Ok(blocks)
    }
}

// ---------------------------------------------------------------------
// The ground map: twelve lines of eight cell characters.

/// The character of a ground cell: `.` empty, `#` a wall, `|` a pipe.
pub open spec fn elem_char(e: Option<GroundElement>) -> char {
    match e {
        None => '.',
        Some(GroundElement::Wall) => '#',
        Some(GroundElement::Pipe) => '|',
    }
}

/// The ground cell a character encodes, if any.
pub open spec fn char_elem(c: char) -> Option<Option<GroundElement>> {
    match c {
        '.' => Some(None),
        '#' => Some(Some(GroundElement::Wall)),
        '|' => Some(Some(GroundElement::Pipe)),
        _ => None,
    }
}

/// The text form of a ground map: twelve lines, top row first, each
/// of eight cell characters and a newline.
pub open spec fn spec_ground_text(g: Seq<Option<GroundElement>>) -> Seq<char> {
    Seq::new(108, |i: int| ground_text_char(g, i))
}

/// The character at position `i` of a ground map's text form.
pub open spec fn ground_text_char(g: Seq<Option<GroundElement>>, i: int) -> char {
    if i % 9 == 8 {
        '\n'
    } else {
        elem_char(g[ground_index(i % 9 + 1, i / 9 + 1)])
    }
}

/// A well-formed ground text: 108 characters, a newline closing each
/// of the twelve nine-character lines, a cell character everywhere
/// else.
pub open spec fn spec_ground_text_valid(t: Seq<char>) -> bool {
    &&& t.len() == 108
    &&& forall|i: int|
        0 <= i < 108 ==> if i % 9 == 8 {
            (#[trigger] t[i]) == '\n'
        } else {
            char_elem(t[i]) is Some
        }
}

/// The ground map a well-formed text describes.
pub open spec fn spec_ground_of_text(t: Seq<char>) -> Seq<Option<GroundElement>> {
    Seq::new(96, |v: int| char_elem(t[9 * (v / 8) + v % 8]).unwrap())
}

/// Decomposing `9 * a + b` with `b` below 9 recovers both parts.
proof fn lemma_div9(a: int, b: int)
    requires
        0 <= a,
        0 <= b < 9,
    ensures
        (9 * a + b) / 9 == a,
        (9 * a + b) % 9 == b,
{
    assert((9 * a + b) / 9 == a && (9 * a + b) % 9 == b) by (nonlinear_arith)
        requires
            0 <= a,
            0 <= b < 9,
    {}
}

/// Decomposing `8 * a + b` with `b` below 8 recovers both parts.
pub proof fn lemma_div8(a: int, b: int)
    requires
        0 <= a,
        0 <= b < 8,
    ensures
        (8 * a + b) / 8 == a,
        (8 * a + b) % 8 == b,
{
    assert((8 * a + b) / 8 == a && (8 * a + b) % 8 == b) by (nonlinear_arith)
        requires
            0 <= a,
            0 <= b < 8,
    {}
}

/// Serializing any ground map and parsing the text back yields the
/// map unchanged.
pub proof fn lemma_ground_text_round_trip(g: Seq<Option<GroundElement>>)
    requires
        g.len() == 96,
    ensures
        spec_ground_text_valid(spec_ground_text(g)),
        spec_ground_of_text(spec_ground_text(g)) =~= g,
{
    let t = spec_ground_text(g);
    assert forall|i: int| 0 <= i < 108 implies if i % 9 == 8 {
        (#[trigger] t[i]) == '\n'
    } else {
        char_elem(t[i]) is Some
    } by {}
    assert forall|v: int| 0 <= v < 96 implies spec_ground_of_text(t)[v] == g[v] by {
        let p = 9 * (v / 8) + v % 8;
        lemma_div9(v / 8, v % 8);
        assert(t[p] == elem_char(g[ground_index(p % 9 + 1, p / 9 + 1)]));
        assert(ground_index(v % 8 + 1, v / 8 + 1) == v);
    }
}

impl Ground {
    /// The character of one ground cell, as `to_text` writes it.
    pub fn elem_to_char(elem: Option<GroundElement>) -> (r: char)
        ensures
            r == elem_char(elem),
    {
        match elem {
            None => '.',
            Some(GroundElement::Wall) => '#',
            Some(GroundElement::Pipe) => '|',
        }
    }

    /// The ground cell a character encodes; fails on any other
    /// character.
    pub fn char_to_elem(ch: char) -> (r: Result<Option<GroundElement>, GameError>)
        ensures
            r is Ok <==> char_elem(ch) is Some,
            r is Ok ==> char_elem(ch) == Some(r.unwrap()),
            r is Err ==> r.unwrap_err() == GameError::BadGroundChar,
    {
        match ch {
            '.' => Ok(None),
            '#' => Ok(Some(GroundElement::Wall)),
            '|' => Ok(Some(GroundElement::Pipe)),
            _ => Err(GameError::BadGroundChar),
        }
    }

    /// The twelve-line text form of this ground map.
    pub fn to_text(&self) -> (r: String)
        ensures
            r@ == spec_ground_text(self@),
    {
        proof {
            use_type_invariant(self);
        }
        let mut out = String::new();
        let mut i: usize = 0;
        while i < 108
            invariant
                i <= 108,
                self@.len() == 96,
                out@.len() == i,
                forall|j: int| 0 <= j < i ==> out@[j] == ground_text_char(self@, j),
            decreases 108 - i,
        {
            let c: char = if i % 9 == 8 {
                '\n'
            } else {
                let col = GroundCol::from_inner((i % 9 + 1) as u8).unwrap();
                let row = GroundRow::from_inner((i / 9 + 1) as u8).unwrap();
                Ground::elem_to_char(self.get(GroundSquare::new(col, row)))
            };
            push_char(&mut out, c);
            i += 1;
        }
        proof {
            assert(out@ =~= spec_ground_text(self@));
        }
        out
    }

    /// Parses the twelve-line text form of a ground map; accepts
    /// exactly the texts `to_text` produces.
    pub fn from_text(s: &str) -> (r: Result<Ground, GameError>)
        ensures
            r is Ok <==> spec_ground_text_valid(s@),
            r is Ok ==> r.unwrap()@ == spec_ground_of_text(s@),
            r is Err ==> (r.unwrap_err() == GameError::BadLineCount || r.unwrap_err()
                == GameError::BadLineLength || r.unwrap_err() == GameError::BadGroundChar),
    {
        let n = s.unicode_len();
        if n != 108 {
            return Err(GameError::BadLineCount);
        }
        let mut ground = Ground::new();
        let mut i: usize = 0;
        while i < 108
            invariant
                i <= 108,
                s@.len() == 108,
                ground@.len() == 96,
                forall|j: int|
                    0 <= j < i ==> if j % 9 == 8 {
                        (#[trigger] s@[j]) == '\n'
                    } else {
                        char_elem(s@[j]) is Some
                    },
                forall|v: int|
                    0 <= v < 96 ==> #[trigger] ground@[v] == if 9 * (v / 8) + v % 8 < i {
                        char_elem(s@[9 * (v / 8) + v % 8]).unwrap()
                    } else {
                        None
                    },
            decreases 108 - i,
        {
            let c = s.get_char(i);
            if i % 9 == 8 {
                if c != '\n' {
                    return Err(GameError::BadLineLength);
                }
            } else {
                let cell = match Ground::char_to_elem(c) {
                    Ok(cell) => cell,
                    Err(e) => {
                        return Err(e);
                    },
                };
                let col = GroundCol::from_inner((i % 9 + 1) as u8).unwrap();
                let row = GroundRow::from_inner((i / 9 + 1) as u8).unwrap();
                ground.set(GroundSquare::new(col, row), cell);
                proof {
                    assert(ground_index(i as int % 9 + 1, i as int / 9 + 1) == 8 * (i as int / 9)
                        + i as int % 9);
                    assert forall|v: int|
                        0 <= v < 96 implies #[trigger] ground@[v] == if 9 * (v / 8) + v % 8 < i
                        + 1 {
                        char_elem(s@[9 * (v / 8) + v % 8]).unwrap()
                    } else {
                        None
                    } by {
                        lemma_div8(i as int / 9, i as int % 9);
                        lemma_div9(v / 8, v % 8);
                    }
                }
            }
            i += 1;
        }
        proof {
            assert forall|v: int| 0 <= v < 96 implies #[trigger] ground@[v] == spec_ground_of_text(
                s@,
            )[v] by {
                lemma_div9(v / 8, v % 8);
            }
            assert(ground@ =~= spec_ground_of_text(s@));
        }
        Ok(ground)
    }
}


// ---------------------------------------------------------------------
// Decimal numbers in text forms.

/// The digit character of `d`.
pub open spec fn digit_char(d: int) -> char {
    if d == 0 {
        '0'
    } else if d == 1 {
        '1'
    } else if d == 2 {
        '2'
    } else if d == 3 {
        '3'
    } else if d == 4 {
        '4'
    } else if d == 5 {
        '5'
    } else if d == 6 {
        '6'
    } else if d == 7 {
        '7'
    } else if d == 8 {
        '8'
    } else {
        '9'
    }
}

/// The value of a digit character, if it is one.
pub open spec fn char_digit(c: char) -> Option<int> {
    match c {
        '0' => Some(0int),
        '1' => Some(1int),
        '2' => Some(2int),
        '3' => Some(3int),
        '4' => Some(4int),
        '5' => Some(5int),
        '6' => Some(6int),
        '7' => Some(7int),
        '8' => Some(8int),
        '9' => Some(9int),
        _ => None,
    }
}

/// The shortest decimal form of a byte.
pub open spec fn u8_dec(n: int) -> Seq<char> {
    if n < 10 {
        seq![digit_char(n)]
    } else if n < 100 {
        seq![digit_char(n / 10), digit_char(n % 10)]
    } else {
        seq![digit_char(n / 100), digit_char((n / 10) % 10), digit_char(n % 10)]
    }
}

/// The length of the digit run starting at position `i`.
pub open spec fn digit_run(t: Seq<char>, i: int) -> int
    decreases t.len() - i,
{
    if 0 <= i < t.len() && char_digit(t[i]) is Some {
        1 + digit_run(t, i + 1)
    } else {
        0
    }
}

/// The value of the `n` digits starting at position `i`.
pub open spec fn digits_val(t: Seq<char>, i: int, n: int) -> int
    decreases n,
{
    if n <= 0 {
        0
    } else {
        digits_val(t, i, n - 1) * 10 + char_digit(t[i + n - 1]).unwrap()
    }
}

/// Reads one decimal byte at position `i`: a nonempty digit run
/// without a redundant leading zero, whose value fits a byte.  Yields
/// the value and the position after the run.
pub open spec fn spec_scan_u8(t: Seq<char>, i: int) -> Option<(u8, int)> {
    let n = digit_run(t, i);
    if n == 0 {
        None
    } else if n > 1 && t[i] == '0' {
        None
    } else if digits_val(t, i, n) > 255 {
        None
    } else {
        Some((digits_val(t, i, n) as u8, i + n))
    }
}

/// A stretch of digits closed by a boundary is exactly the digit run.
pub proof fn lemma_digit_run_stop(t: Seq<char>, i: int, n: int)
    requires
        0 <= i,
        0 <= n,
        i + n <= t.len(),
        forall|k: int| i <= k < i + n ==> char_digit(#[trigger] t[k]) is Some,
        i + n < t.len() ==> char_digit(t[i + n]) is None,
    ensures
        digit_run(t, i) == n,
    decreases n,
{
    if n > 0 {
        assert(char_digit(t[i]) is Some);
        lemma_digit_run_stop(t, i + 1, n - 1);
    }
}

/// A digit run consists of digits and ends at a non-digit or the end
/// of the text.
pub proof fn lemma_digit_run_digits(t: Seq<char>, i: int)
    requires
        0 <= i <= t.len(),
    ensures
        i + digit_run(t, i) <= t.len(),
        forall|k: int| i <= k < i + digit_run(t, i) ==> char_digit(#[trigger] t[k]) is Some,
        i + digit_run(t, i) < t.len() ==> char_digit(t[i + digit_run(t, i)]) is None,
        digit_run(t, i) >= 0,
    decreases t.len() - i,
{
    if i < t.len() && char_digit(t[i]) is Some {
        lemma_digit_run_digits(t, i + 1);
    }
}

/// A digit run of four or more without a leading zero stands for a
/// value far above a byte.
pub proof fn lemma_digits_val_big(t: Seq<char>, i: int, n: int)
    requires
        1 <= n,
        char_digit(t[i]).unwrap() >= 1,
        forall|k: int| i <= k < i + n ==> char_digit(#[trigger] t[k]) is Some,
    ensures
        digits_val(t, i, n) >= pow10(n - 1),
        digits_val(t, i, n) >= 0,
    decreases n,
{
    if n == 1 {
        assert(char_digit(t[i]) is Some);
        assert(digits_val(t, i, 1) == char_digit(t[i]).unwrap());
    } else {
        lemma_digits_val_big(t, i, n - 1);
        assert(char_digit(t[i + n - 1]).unwrap() >= 0);
        assert(digits_val(t, i, n - 1) * 10 >= pow10(n - 2) * 10) by (nonlinear_arith)
            requires
                digits_val(t, i, n - 1) >= pow10(n - 2),
        {}
    }
}

/// Powers of ten.
pub open spec fn pow10(k: int) -> int
    decreases k,
{
    if k <= 0 {
        1
    } else {
        10 * pow10(k - 1)
    }
}

/// Scanning the shortest decimal form of a byte, followed by a
/// non-digit, yields the byte and stops right after it.
pub proof fn lemma_scan_u8_of_dec(t: Seq<char>, i: int, n: int)
    requires
        0 <= n <= 255,
        0 <= i,
        i + u8_dec(n).len() <= t.len(),
        forall|k: int| 0 <= k < u8_dec(n).len() ==> t[i + k] == #[trigger] u8_dec(n)[k],
        i + u8_dec(n).len() < t.len() ==> char_digit(t[i + u8_dec(n).len()]) is None,
    ensures
        spec_scan_u8(t, i) == Some((n as u8, i + u8_dec(n).len())),
{
    reveal_with_fuel(digits_val, 5);
    let d = u8_dec(n);
    assert forall|d2: int| 0 <= d2 <= 9 implies char_digit(#[trigger] digit_char(d2)) == Some(
        d2,
    ) by {}
    if n < 10 {
        assert(d.len() == 1);
        assert(t[i + 0] == d[0] && d[0] == digit_char(n));
        lemma_digit_run_stop(t, i, 1);
        assert(digits_val(t, i, 1) == n);
    } else if n < 100 {
        assert(d.len() == 2);
        assert(t[i + 0] == d[0] && d[0] == digit_char(n / 10));
        assert(t[i + 1] == d[1] && d[1] == digit_char(n % 10));
        lemma_digit_run_stop(t, i, 2);
        assert(digits_val(t, i, 2) == (n / 10) * 10 + n % 10);
        assert((n / 10) * 10 + n % 10 == n);
        assert(n / 10 >= 1);
        assert(t[i] != '0');
    } else {
        assert(d.len() == 3);
        assert(t[i + 0] == d[0] && d[0] == digit_char(n / 100));
        assert(t[i + 1] == d[1] && d[1] == digit_char((n / 10) % 10));
        assert(t[i + 2] == d[2] && d[2] == digit_char(n % 10));
        lemma_digit_run_stop(t, i, 3);
        assert(digits_val(t, i, 3) == ((n / 100) * 10 + (n / 10) % 10) * 10 + n % 10);
        assert(((n / 100) * 10 + (n / 10) % 10) * 10 + n % 10 == n) by (nonlinear_arith)
            requires
                100 <= n <= 255,
        {}
        assert(n / 100 >= 1);
        assert(t[i] != '0');
    }
}

/// The digit character of `d`, executable.
fn digit_to_char(d: u8) -> (r: char)
    requires
        d <= 9,
    ensures
        r == digit_char(d as int),
{
    match d {
        0 => '0',
        1 => '1',
        2 => '2',
        3 => '3',
        4 => '4',
        5 => '5',
        6 => '6',
        7 => '7',
        8 => '8',
        _ => '9',
    }
}

/// The value of a digit character, executable.
fn char_to_digit(c: char) -> (r: Option<u8>)
    ensures
        match r {
            None => char_digit(c) is None,
            Some(d) => char_digit(c) == Some(d as int) && d <= 9,
        },
{
    match c {
        '0' => Some(0),
        '1' => Some(1),
        '2' => Some(2),
        '3' => Some(3),
        '4' => Some(4),
        '5' => Some(5),
        '6' => Some(6),
        '7' => Some(7),
        '8' => Some(8),
        '9' => Some(9),
        _ => None,
    }
}

/// Appends the shortest decimal form of `n`.
fn push_u8_dec(out: &mut String, n: u8)
    ensures
        final(out)@ == old(out)@ + u8_dec(n as int),
{
    if n >= 100 {
        push_char(out, digit_to_char(n / 100));
        push_char(out, digit_to_char((n / 10) % 10));
        push_char(out, digit_to_char(n % 10));
        proof {
            assert(final(out)@ =~= old(out)@ + u8_dec(n as int));
        }
    } else if n >= 10 {
        push_char(out, digit_to_char(n / 10));
        push_char(out, digit_to_char(n % 10));
        proof {
            assert(final(out)@ =~= old(out)@ + u8_dec(n as int));
        }
    } else {
        push_char(out, digit_to_char(n));
        proof {
            assert(final(out)@ =~= old(out)@ + u8_dec(n as int));
        }
    }
}

/// Reads one decimal byte at position `i`, as `spec_scan_u8` does.
fn scan_u8(s: &str, i: usize) -> (r: Result<(u8, usize), GameError>)
    requires
        i <= s@.len(),
    ensures
        match r {
            Ok((v, j)) => spec_scan_u8(s@, i as int) == Some((v, j as int)) && i < j <= s@.len(),
            Err(e) => spec_scan_u8(s@, i as int) is None && e == GameError::BadNumber,
        },
{
    let len = s.unicode_len();
    proof {
        reveal_with_fuel(digits_val, 5);
        reveal_with_fuel(pow10, 5);
        lemma_digit_run_digits(s@, i as int);
    }
    if i >= len {
        return Err(GameError::BadNumber);
    }
    let d0 = match char_to_digit(s.get_char(i)) {
        Some(d) => d,
        None => {
            return Err(GameError::BadNumber);
        },
    };
    if i + 1 >= len || char_to_digit(s.get_char(i + 1)).is_none() {
        proof {
            lemma_digit_run_stop(s@, i as int, 1);
            assert(digits_val(s@, i as int, 1) == d0 as int);
        }
        return Ok((d0, i + 1));
    }
    if d0 == 0 {
        proof {
            assert(digit_run(s@, i as int) >= 2);
        }
        return Err(GameError::BadNumber);
    }
    let d1 = char_to_digit(s.get_char(i + 1)).unwrap();
    if i + 2 >= len || char_to_digit(s.get_char(i + 2)).is_none() {
        proof {
            lemma_digit_run_stop(s@, i as int, 2);
            assert(digits_val(s@, i as int, 2) == d0 as int * 10 + d1 as int);
        }
        return Ok((d0 * 10 + d1, i + 2));
    }
    let d2 = char_to_digit(s.get_char(i + 2)).unwrap();
    if i + 3 < len && char_to_digit(s.get_char(i + 3)).is_some() {
        // Four digits or more without a leading zero: over 255.
        proof {
            let n = digit_run(s@, i as int);
            assert(n >= 4);
            lemma_digits_val_big(s@, i as int, n);
            assert(pow10(n - 1) >= pow10(3)) by {
                lemma_pow10_mono(3, n - 1);
            }
            assert(pow10(3) == 1000);
        }
        return Err(GameError::BadNumber);
    }
    proof {
        lemma_digit_run_stop(s@, i as int, 3);
        assert(digits_val(s@, i as int, 3) == (d0 as int * 10 + d1 as int) * 10 + d2 as int);
    }
    let v: u16 = (d0 as u16) * 100 + (d1 as u16) * 10 + d2 as u16;
    if v > 255 {
        return Err(GameError::BadNumber);
    }
    Ok((v as u8, i + 3))
}

/// Powers of ten grow with the exponent.
pub proof fn lemma_pow10_mono(a: int, b: int)
    requires
        0 <= a <= b,
    ensures
        pow10(a) <= pow10(b),
        pow10(a) >= 1,
    decreases b,
{
    if a < b {
        lemma_pow10_mono(a, b - 1);
    } else {
        lemma_pow10_pos(a);
    }
}

/// Powers of ten are positive.
pub proof fn lemma_pow10_pos(a: int)
    ensures
        pow10(a) >= 1,
    decreases a,
{
    if a > 0 {
        lemma_pow10_pos(a - 1);
    }
}


// ---------------------------------------------------------------------
// Positions: a header line and the board text.

/// The text form of a position: thrower row, held block and remaining
/// moves on one line, then the board.
pub open spec fn spec_position_text(
    hero: int,
    hold: int,
    remain: int,
    board: Seq<Option<Block>>,
) -> Seq<char> {
    u8_dec(hero) + seq![' '] + u8_dec(hold) + seq![' '] + u8_dec(remain) + seq!['\n']
        + spec_blocks_text(board)
}

/// Parses the text form of a position: three decimal fields separated
/// by single spaces, a newline, and a board text; the thrower row and
/// held block must be in range.
pub open spec fn spec_parse_position(t: Seq<char>) -> Option<(u8, u8, u8, Seq<Option<Block>>)> {
    match spec_scan_u8(t, 0) {
        None => None,
        Some((hero, i1)) => {
            if !(i1 < t.len() && t[i1] == ' ') {
                None
            } else {
                match spec_scan_u8(t, i1 + 1) {
                    None => None,
                    Some((hold, i2)) => {
                        if !(i2 < t.len() && t[i2] == ' ') {
                            None
                        } else {
                            match spec_scan_u8(t, i2 + 1) {
                                None => None,
                                Some((remain, i3)) => {
                                    if !(i3 < t.len() && t[i3] == '\n') {
                                        None
                                    } else {
                                        let rest = t.skip(i3 + 1);
                                        if spec_blocks_text_valid(rest) && 1 <= hero <= 12 && 1
                                            <= hold <= 5 {
                                            Some((hero, hold, remain, spec_board_of_text(rest)))
                                        } else {
                                            None
                                        }
                                    }
                                },
                            }
                        }
                    },
                }
            }
        },
    }
}

/// Serializing any position and parsing the text back yields the
/// position unchanged.
pub proof fn lemma_position_text_round_trip(hero: u8, hold: u8, remain: u8, board: Seq<
    Option<Block>,
>)
    requires
        1 <= hero <= 12,
        1 <= hold <= 5,
        board_ok(board),
    ensures
        spec_parse_position(spec_position_text(hero as int, hold as int, remain as int, board))
            == Some((hero, hold, remain, board)),
{
    let t = spec_position_text(hero as int, hold as int, remain as int, board);
    let a = u8_dec(hero as int).len() as int;
    let b = u8_dec(hold as int).len() as int;
    let c = u8_dec(remain as int).len() as int;
    lemma_blocks_text_round_trip(board);
    assert(t.len() == a + b + c + 3 + 42);
    assert forall|k: int| 0 <= k < a implies t[0 + k] == #[trigger] u8_dec(hero as int)[k] by {}
    assert(t[a] == ' ');
    lemma_scan_u8_of_dec(t, 0, hero as int);
    assert forall|k: int| 0 <= k < b implies t[a + 1 + k] == #[trigger] u8_dec(hold as int)[k]
        by {}
    assert(t[a + 1 + b] == ' ');
    lemma_scan_u8_of_dec(t, a + 1, hold as int);
    assert forall|k: int| 0 <= k < c implies t[a + b + 2 + k] == #[trigger] u8_dec(
        remain as int,
    )[k] by {}
    assert(t[a + b + 2 + c] == '\n');
    lemma_scan_u8_of_dec(t, a + b + 2, remain as int);
    let rest = t.skip(a + b + c + 3);
    assert(rest =~= spec_blocks_text(board));
    assert(spec_board_of_text(rest) =~= board);
}

impl Position {
    /// The text form of this position: its header line, then the
    /// board.
    pub fn to_text(&self) -> (r: String)
        ensures
            r@ == spec_position_text(
                self.spec_hero_row().spec_inner() as int,
                self.spec_block_holding().spec_inner() as int,
                self.spec_move_count_remain() as int,
                self.spec_blocks()@,
            ),
    {
        let mut out = String::new();
        push_u8_dec(&mut out, self.hero_row().to_inner());
        push_char(&mut out, ' ');
        push_u8_dec(&mut out, self.block_holding().to_inner());
        push_char(&mut out, ' ');
        push_u8_dec(&mut out, self.move_count_remain());
        push_char(&mut out, '\n');
        let body = self.blocks().to_text();
        out.append(body.as_str());
        proof {
            assert(out@ =~= spec_position_text(
                self.spec_hero_row().spec_inner() as int,
                self.spec_block_holding().spec_inner() as int,
                self.spec_move_count_remain() as int,
                self.spec_blocks()@,
            ));
        }
        out
    }

    /// Parses the text form of a position; accepts exactly the texts
    /// `to_text` produces.
    pub fn from_text(s: &str) -> (r: Result<Position, GameError>)
        ensures
            r is Ok <==> spec_parse_position(s@) is Some,
            r is Ok ==> ({
                let (hero, hold, remain, board) = spec_parse_position(s@).unwrap();
                let p = r.unwrap();
                &&& p.spec_hero_row().spec_inner() == hero
                &&& p.spec_block_holding().spec_inner() == hold
                &&& p.spec_move_count_remain() == remain
                &&& p.spec_blocks()@ == board
            }),
    {
        let len = s.unicode_len();
        let (hero_v, i1) = match scan_u8(s, 0) {
            Ok(p) => p,
            Err(e) => {
                return Err(e);
            },
        };
        if !(i1 < len && s.get_char(i1) == ' ') {
            return Err(GameError::MissingLine);
        }
        let (hold_v, i2) = match scan_u8(s, i1 + 1) {
            Ok(p) => p,
            Err(e) => {
                return Err(e);
            },
        };
        if !(i2 < len && s.get_char(i2) == ' ') {
            return Err(GameError::MissingLine);
        }
        let (remain_v, i3) = match scan_u8(s, i2 + 1) {
            Ok(p) => p,
            Err(e) => {
                return Err(e);
            },
        };
        if !(i3 < len && s.get_char(i3) == '\n') {
            return Err(GameError::MissingLine);
        }
        let rest = s.substring_char(i3 + 1, len);
        proof {
            assert(rest@ =~= s@.skip(i3 as int + 1));
        }
        let blocks = match Blocks::from_text(rest) {
            Ok(b) => b,
            Err(e) => {
                return Err(e);
            },
        };
        let hero_row = match GroundRow::from_inner(hero_v) {
            Some(row) => row,
            None => {
                return Err(GameError::BadRowValue);
            },
        };
        let block_holding = match Block::from_inner(hold_v) {
            Some(b) => b,
            None => {
                return Err(GameError::BadBlockValue);
            },
        };
        Ok(
            Position {
                hero_row,
                blocks,
                block_holding,
                move_count_remain: remain_v,
            },
        )
    }
}


// ---------------------------------------------------------------------
// Problems: a mode line, a parameter line, and the merged map.

/// The tag line of a `Normal`-mode problem.
pub open spec fn normal_tag() -> Seq<char> {
    seq!['n', 'o', 'r', 'm', 'a', 'l', '\n']
}

/// The tag line of an `Advance`-mode problem.
pub open spec fn advance_tag() -> Seq<char> {
    seq!['a', 'd', 'v', 'a', 'n', 'c', 'e', '\n']
}

/// True when `t` starts with `p`.
pub open spec fn has_prefix(t: Seq<char>, p: Seq<char>) -> bool {
    &&& t.len() >= p.len()
    &&& forall|k: int| 0 <= k < p.len() ==> t[k] == #[trigger] p[k]
}

/// The character at position `i` of a problem's merged map: walls and
/// pipes win the cell, blocks of the overlapping board come second,
/// an empty cell last.
pub open spec fn problem_body_char(
    g: Seq<Option<GroundElement>>,
    b: Seq<Option<Block>>,
    i: int,
) -> char {
    if i % 9 == 8 {
        '\n'
    } else {
        let c = i % 9 + 1;
        let r = i / 9 + 1;
        if g[ground_index(c, r)] is Some {
            elem_char(g[ground_index(c, r)])
        } else if c <= 6 && r >= 7 && b[bs_idx(c, r - 6)] is Some {
            block_char(b[bs_idx(c, r - 6)])
        } else {
            '.'
        }
    }
}

/// The merged map of a problem: twelve lines of eight cells, ground
/// elements and board blocks overlaid.
pub open spec fn spec_problem_body(
    g: Seq<Option<GroundElement>>,
    b: Seq<Option<Block>>,
) -> Seq<char> {
    Seq::new(108, |i: int| problem_body_char(g, b, i))
}

/// A well-formed merged map: each cell shows a ground element, a
/// block, or an empty cell.
pub open spec fn spec_body_valid(t: Seq<char>) -> bool {
    &&& t.len() == 108
    &&& forall|i: int|
        0 <= i < 108 ==> if i % 9 == 8 {
            (#[trigger] t[i]) == '\n'
        } else {
            char_elem(t[i]) is Some || char_block(t[i]) is Some
        }
}

/// The ground map of a merged map: block digits read as empty cells.
pub open spec fn spec_ground_of_body(t: Seq<char>) -> Seq<Option<GroundElement>> {
    Seq::new(
        96,
        |v: int|
            match char_elem(t[9 * (v / 8) + v % 8]) {
                Some(e) => e,
                None => None,
            },
    )
}

/// The board of a merged map: the bottom-left block area, ground
/// characters read as empty cells.
pub open spec fn spec_blocks_of_body(t: Seq<char>) -> Seq<Option<Block>> {
    Seq::new(
        64,
        |v: int|
            if sq_index_valid(v) {
                match char_block(t[9 * (v / 8 + 5) + v % 8 - 1]) {
                    Some(x) => x,
                    None => None,
                }
            } else {
                None
            },
    )
}

/// The text form of a problem: the mode tag, the mode parameters, and
/// the merged map.
pub open spec fn spec_problem_text(
    mode: GameMode,
    g: Seq<Option<GroundElement>>,
    b: Seq<Option<Block>>,
) -> Seq<char> {
    (match mode {
        GameMode::Normal { block_count_target } => normal_tag() + u8_dec(
            block_count_target as int,
        ) + seq!['\n'],
        GameMode::Advance { block_holding, move_count_remain } => advance_tag() + u8_dec(
            block_holding.spec_inner() as int,
        ) + seq![' '] + u8_dec(move_count_remain as int) + seq!['\n'],
    }) + spec_problem_body(g, b)
}

/// Parses the text form of a problem.  The result respects the
/// construction invariants: the ground map is valid, and an
/// `Advance`-mode board holds no wildcard.
pub open spec fn spec_parse_problem(t: Seq<char>) -> Option<
    (GameMode, Seq<Option<GroundElement>>, Seq<Option<Block>>),
> {
    if has_prefix(t, normal_tag()) {
        match spec_scan_u8(t, 7) {
            None => None,
            Some((target, i1)) => {
                if !(i1 < t.len() && t[i1] == '\n') {
                    None
                } else {
                    let body = t.skip(i1 + 1);
                    if spec_body_valid(body) && crate::problem::spec_ground_valid(
                        spec_ground_of_body(body),
                    ) {
                        Some(
                            (
                                GameMode::Normal { block_count_target: target },
                                spec_ground_of_body(body),
                                spec_blocks_of_body(body),
                            ),
                        )
                    } else {
                        None
                    }
                }
            },
        }
    } else if has_prefix(t, advance_tag()) {
        match spec_scan_u8(t, 8) {
            None => None,
            Some((hold, i1)) => {
                if !(i1 < t.len() && t[i1] == ' ') {
                    None
                } else {
                    match spec_scan_u8(t, i1 + 1) {
                        None => None,
                        Some((remain, i2)) => {
                            if !(i2 < t.len() && t[i2] == '\n') {
                                None
                            } else {
                                let body = t.skip(i2 + 1);
                                if spec_body_valid(body) && 1 <= hold <= 5
                                    && crate::problem::spec_ground_valid(
                                    spec_ground_of_body(body),
                                ) && crate::problem::spec_no_wild(spec_blocks_of_body(body)) {
                                    Some(
                                        (
                                            GameMode::Advance {
                                                block_holding: Block::spec_from_inner(
                                                    hold,
                                                ).unwrap(),
                                                move_count_remain: remain,
                                            },
                                            spec_ground_of_body(body),
                                            spec_blocks_of_body(body),
                                        ),
                                    )
                                } else {
                                    None
                                }
                            }
                        },
                    }
                }
            },
        }
    } else {
        None
    }
}

/// Serializing a merged map and parsing it back yields the ground map
/// and board unchanged, as long as no board block shares a cell with
/// a wall or pipe.
pub proof fn lemma_problem_body_round_trip(
    g: Seq<Option<GroundElement>>,
    b: Seq<Option<Block>>,
)
    requires
        g.len() == 96,
        board_ok(b),
        forall|c: int, r: int|
            1 <= c <= 6 && 7 <= r <= 12 && #[trigger] g[ground_index(c, r)] is Some ==> b[bs_idx(
                c,
                r - 6,
            )] is None,
    ensures
        spec_body_valid(spec_problem_body(g, b)),
        spec_ground_of_body(spec_problem_body(g, b)) =~= g,
        spec_blocks_of_body(spec_problem_body(g, b)) =~= b,
{
    let t = spec_problem_body(g, b);
    assert forall|i: int| 0 <= i < 108 implies if i % 9 == 8 {
        (#[trigger] t[i]) == '\n'
    } else {
        char_elem(t[i]) is Some || char_block(t[i]) is Some
    } by {}
    assert forall|v: int| 0 <= v < 96 implies spec_ground_of_body(t)[v] == g[v] by {
        let p = 9 * (v / 8) + v % 8;
        lemma_div9(v / 8, v % 8);
        assert(t[p] == problem_body_char(g, b, p));
        assert(ground_index(v % 8 + 1, v / 8 + 1) == v);
    }
    assert forall|v: int| 0 <= v < 64 implies spec_blocks_of_body(t)[v] == b[v] by {
        if sq_index_valid(v) {
            let p = 9 * (v / 8 + 5) + v % 8 - 1;
            lemma_div9(v / 8 + 5, v % 8 - 1);
            assert(t[p] == problem_body_char(g, b, p));
            assert(p % 9 + 1 == v % 8 && p / 9 + 1 == v / 8 + 6);
            assert(ground_index(v % 8, v / 8 + 6) == 8 * (v / 8 + 5) + v % 8 - 1);
            assert(bs_idx(v % 8, v / 8) == v);
        }
    }
}

/// Serializing any problem and parsing the text back yields the
/// problem unchanged, as long as no board block shares a cell with a
/// wall or pipe.
pub proof fn lemma_problem_text_round_trip(
    mode: GameMode,
    g: Seq<Option<GroundElement>>,
    b: Seq<Option<Block>>,
)
    requires
        g.len() == 96,
        board_ok(b),
        crate::problem::spec_ground_valid(g),
        mode is Advance ==> crate::problem::spec_no_wild(b),
        forall|c: int, r: int|
            1 <= c <= 6 && 7 <= r <= 12 && #[trigger] g[ground_index(c, r)] is Some ==> b[bs_idx(
                c,
                r - 6,
            )] is None,
    ensures
        spec_parse_problem(spec_problem_text(mode, g, b)) == Some((mode, g, b)),
{
    let t = spec_problem_text(mode, g, b);
    lemma_problem_body_round_trip(g, b);
    let body = spec_problem_body(g, b);
    match mode {
        GameMode::Normal { block_count_target } => {
            let a = u8_dec(block_count_target as int).len() as int;
            assert(has_prefix(t, normal_tag()));
            assert(!has_prefix(t, advance_tag())) by {
                assert(t[0] == 'n' && advance_tag()[0] == 'a');
            }
            assert forall|k: int| 0 <= k < a implies t[7 + k] == #[trigger] u8_dec(
                block_count_target as int,
            )[k] by {}
            assert(t[7 + a] == '\n');
            lemma_scan_u8_of_dec(t, 7, block_count_target as int);
            assert(t.skip(7 + a + 1) =~= body);
            assert(spec_ground_of_body(body) =~= g);
            assert(spec_blocks_of_body(body) =~= b);
        },
        GameMode::Advance { block_holding, move_count_remain } => {
            let a = u8_dec(block_holding.spec_inner() as int).len() as int;
            let c = u8_dec(move_count_remain as int).len() as int;
            assert(has_prefix(t, advance_tag()));
            assert(!has_prefix(t, normal_tag())) by {
                assert(t[0] == 'a' && normal_tag()[0] == 'n');
            }
            assert forall|k: int| 0 <= k < a implies t[8 + k] == #[trigger] u8_dec(
                block_holding.spec_inner() as int,
            )[k] by {}
            assert(t[8 + a] == ' ');
            lemma_scan_u8_of_dec(t, 8, block_holding.spec_inner() as int);
            assert forall|k: int| 0 <= k < c implies t[8 + a + 1 + k] == #[trigger] u8_dec(
                move_count_remain as int,
            )[k] by {}
            assert(t[8 + a + 1 + c] == '\n');
            lemma_scan_u8_of_dec(t, 8 + a + 1, move_count_remain as int);
            assert(t.skip(8 + a + 1 + c + 1) =~= body);
            assert(spec_ground_of_body(body) =~= g);
            assert(spec_blocks_of_body(body) =~= b);
            assert(Block::spec_from_inner(block_holding.spec_inner()) == Some(block_holding));
        },
    }
}


/// Parsing the text form of a problem and printing the parse again
/// yields the identical text, for every problem meeting the
/// construction invariants whose blocks share no cell with a wall or
/// pipe.
pub proof fn lemma_problem_reprint(
    mode: GameMode,
    g: Seq<Option<GroundElement>>,
    b: Seq<Option<Block>>,
)
    requires
        g.len() == 96,
        board_ok(b),
        crate::problem::spec_ground_valid(g),
        mode is Advance ==> crate::problem::spec_no_wild(b),
        forall|c: int, r: int|
            1 <= c <= 6 && 7 <= r <= 12 && #[trigger] g[ground_index(c, r)] is Some ==> b[bs_idx(
                c,
                r - 6,
            )] is None,
    ensures
        ({
            let (m2, g2, b2) = spec_parse_problem(spec_problem_text(mode, g, b)).unwrap();
            spec_problem_text(m2, g2, b2) == spec_problem_text(mode, g, b)
        }),
{
    lemma_problem_text_round_trip(mode, g, b);
}

impl Problem {
    /// The text form of this problem: mode tag, parameters, and the
    /// merged map.
    pub fn to_text(&self) -> (r: String)
        ensures
            r@ == spec_problem_text(
                self.spec_game_mode(),
                self.spec_ground()@,
                self.spec_blocks()@,
            ),
    {
        proof {
            use_type_invariant(&self.ground);
            use_type_invariant(&self.blocks);
        }
        let mut out = String::new();
        match self.game_mode {
            GameMode::Normal { block_count_target } => {
                push_char(&mut out, 'n');
                push_char(&mut out, 'o');
                push_char(&mut out, 'r');
                push_char(&mut out, 'm');
                push_char(&mut out, 'a');
                push_char(&mut out, 'l');
                push_char(&mut out, '\n');
                push_u8_dec(&mut out, block_count_target);
                push_char(&mut out, '\n');
                proof {
                    assert(out@ =~= normal_tag() + u8_dec(block_count_target as int) + seq![
                        '\n',
                    ]);
                }
            },
            GameMode::Advance { block_holding, move_count_remain } => {
                push_char(&mut out, 'a');
                push_char(&mut out, 'd');
                push_char(&mut out, 'v');
                push_char(&mut out, 'a');
                push_char(&mut out, 'n');
                push_char(&mut out, 'c');
                push_char(&mut out, 'e');
                push_char(&mut out, '\n');
                push_u8_dec(&mut out, block_holding.to_inner());
                push_char(&mut out, ' ');
                push_u8_dec(&mut out, move_count_remain);
                push_char(&mut out, '\n');
                proof {
                    assert(out@ =~= advance_tag() + u8_dec(block_holding.spec_inner() as int)
                        + seq![' '] + u8_dec(move_count_remain as int) + seq!['\n']);
                }
            },
        }
        let ghost header = out@;

        let mut i: usize = 0;
        while i < 108
            invariant
                i <= 108,
                self.spec_ground()@.len() == 96,
                board_ok(self.spec_blocks()@),
                out@.len() == header.len() + i,
                out@ =~= header + Seq::new(
                    i as nat,
                    |j: int| problem_body_char(self.spec_ground()@, self.spec_blocks()@, j),
                ),
            decreases 108 - i,
        {
            let ghost pre = out@;
            let c: char = if i % 9 == 8 {
                '\n'
            } else {
                let col = GroundCol::from_inner((i % 9 + 1) as u8).unwrap();
                let row = GroundRow::from_inner((i / 9 + 1) as u8).unwrap();
                match self.ground.get(GroundSquare::new(col, row)) {
                    Some(e) => Ground::elem_to_char(Some(e)),
                    None => {
                        if i % 9 + 1 <= 6 && i / 9 + 1 >= 7 {
                            let bcol = crate::block::BlocksCol::from_inner((i % 9 + 1) as u8)
                                .unwrap();
                            let brow = crate::block::BlocksRow::from_inner((i / 9 + 1 - 6) as u8)
                                .unwrap();
                            let sq = crate::block::BlocksSquare::new(bcol, brow);
                            proof {
                                crate::block::lemma_bs_idx_decompose(
                                    i as int % 9 + 1,
                                    i as int / 9 + 1 - 6,
                                );
                            }
                            match self.blocks.get(sq) {
                                Some(b) => Blocks::block_to_char(Some(b)),
                                None => '.',
                            }
                        } else {
                            '.'
                        }
                    },
                }
            };
            push_char(&mut out, c);
            proof {
                assert(c == problem_body_char(self.spec_ground()@, self.spec_blocks()@, i as int));
                assert(out@ =~= header + Seq::new(
                    (i + 1) as nat,
                    |j: int| problem_body_char(self.spec_ground()@, self.spec_blocks()@, j),
                ));
            }
            i += 1;
        }
        proof {
            assert(Seq::new(
                108,
                |j: int| problem_body_char(self.spec_ground()@, self.spec_blocks()@, j),
            ) =~= spec_problem_body(self.spec_ground()@, self.spec_blocks()@));
            assert(out@ =~= spec_problem_text(
                self.spec_game_mode(),
                self.spec_ground()@,
                self.spec_blocks()@,
            ));
        }
        out
    }

    /// Parses the text form of a problem; accepts exactly the texts
    /// `to_text` produces whose problems meet the construction
    /// invariants.
    pub fn from_text(s: &str) -> (r: Result<Problem, GameError>)
        ensures
            r is Ok <==> spec_parse_problem(s@) is Some,
            r is Ok ==> ({
                let (mode, g, b) = spec_parse_problem(s@).unwrap();
                let p = r.unwrap();
                &&& p.spec_game_mode() == mode
                &&& p.spec_ground()@ == g
                &&& p.spec_blocks()@ == b
            }),
    {
        let len = s.unicode_len();

        let is_normal = len >= 7 && s.get_char(0) == 'n' && s.get_char(1) == 'o' && s.get_char(2)
            == 'r' && s.get_char(3) == 'm' && s.get_char(4) == 'a' && s.get_char(5) == 'l'
            && s.get_char(6) == '\n';
        proof {
            assert(normal_tag()[0] == 'n' && normal_tag()[1] == 'o' && normal_tag()[2] == 'r'
                && normal_tag()[3] == 'm' && normal_tag()[4] == 'a' && normal_tag()[5] == 'l'
                && normal_tag()[6] == '\n');
            assert(is_normal == has_prefix(s@, normal_tag()));
        }
        if is_normal {
            let (target, i1) = match scan_u8(s, 7) {
                Ok(p) => p,
                Err(e) => {
                    return Err(e);
                },
            };
            if !(i1 < len && s.get_char(i1) == '\n') {
                return Err(GameError::MissingLine);
            }
            let body = s.substring_char(i1 + 1, len);
            proof {
                assert(body@ =~= s@.skip(i1 as int + 1));
            }
            let (ground, blocks) = match parse_problem_body(body) {
                Ok(p) => p,
                Err(e) => {
                    return Err(e);
                },
            };
            match Problem::new_normal(ground, blocks, target) {
                Ok(p) => Ok(p),
                Err(e) => Err(e),
            }
        } else {
            let is_advance = len >= 8 && s.get_char(0) == 'a' && s.get_char(1) == 'd'
                && s.get_char(2) == 'v' && s.get_char(3) == 'a' && s.get_char(4) == 'n'
                && s.get_char(5) == 'c' && s.get_char(6) == 'e' && s.get_char(7) == '\n';
            proof {
                assert(advance_tag()[0] == 'a' && advance_tag()[1] == 'd' && advance_tag()[2]
                    == 'v' && advance_tag()[3] == 'a' && advance_tag()[4] == 'n'
                    && advance_tag()[5] == 'c' && advance_tag()[6] == 'e' && advance_tag()[7]
                    == '\n');
                assert(is_advance == has_prefix(s@, advance_tag()));
            }
            if !is_advance {
                return Err(GameError::BadGameMode);
            }
            let (hold, i1) = match scan_u8(s, 8) {
                Ok(p) => p,
                Err(e) => {
                    return Err(e);
                },
            };
            if !(i1 < len && s.get_char(i1) == ' ') {
                return Err(GameError::BadModeParams);
            }
            let (remain, i2) = match scan_u8(s, i1 + 1) {
                Ok(p) => p,
                Err(e) => {
                    return Err(e);
                },
            };
            if !(i2 < len && s.get_char(i2) == '\n') {
                return Err(GameError::BadModeParams);
            }
            let body = s.substring_char(i2 + 1, len);
            proof {
                assert(body@ =~= s@.skip(i2 as int + 1));
            }
            let (ground, blocks) = match parse_problem_body(body) {
                Ok(p) => p,
                Err(e) => {
                    return Err(e);
                },
            };
            let block_holding = match Block::from_inner(hold) {
                Some(b) => b,
                None => {
                    return Err(GameError::BadBlockValue);
                },
            };
            match Problem::new_advance(ground, blocks, block_holding, remain) {
                Ok(p) => Ok(p),
                Err(e) => Err(e),
            }
        }
    }
}

/// Parses the merged map of a problem into its ground map and board.
fn parse_problem_body(s: &str) -> (r: Result<(Ground, Blocks), GameError>)
    ensures
        r is Ok <==> spec_body_valid(s@),
        r is Ok ==> ({
            let (g, b) = r.unwrap();
            g@ == spec_ground_of_body(s@) && b@ == spec_blocks_of_body(s@)
        }),
        r is Err ==> (r.unwrap_err() == GameError::BadLineCount || r.unwrap_err()
            == GameError::BadLineLength || r.unwrap_err() == GameError::BadGroundChar),
{
    let n = s.unicode_len();
    if n != 108 {
        return Err(GameError::BadLineCount);
    }
    let mut ground = Ground::new();
    let mut blocks = Blocks::new();
    let mut i: usize = 0;
    while i < 108
        invariant
            i <= 108,
            s@.len() == 108,
            ground@.len() == 96,
            blocks@.len() == 64,
            forall|j: int|
                0 <= j < i ==> if j % 9 == 8 {
                    (#[trigger] s@[j]) == '\n'
                } else {
                    char_elem(s@[j]) is Some || char_block(s@[j]) is Some
                },
            forall|v: int|
                0 <= v < 96 ==> #[trigger] ground@[v] == if 9 * (v / 8) + v % 8 < i {
                    match char_elem(s@[9 * (v / 8) + v % 8]) {
                        Some(e) => e,
                        None => None,
                    }
                } else {
                    None
                },
            forall|v: int|
                0 <= v < 64 ==> #[trigger] blocks@[v] == if sq_index_valid(v) && 9 * (v / 8 + 5)
                    + v % 8 - 1 < i {
                    match char_block(s@[9 * (v / 8 + 5) + v % 8 - 1]) {
                        Some(x) => x,
                        None => None,
                    }
                } else {
                    None
                },
        decreases 108 - i,
    {
        let c = s.get_char(i);
        if i % 9 == 8 {
            if c != '\n' {
                return Err(GameError::BadLineLength);
            }
        } else {
            let elem_opt: Option<GroundElement> = match c {
                '#' => Some(GroundElement::Wall),
                '|' => Some(GroundElement::Pipe),
                '.' | '1' | '2' | '3' | '4' | '5' => None,
                _ => {
                    return Err(GameError::BadGroundChar);
                },
            };
            let col = GroundCol::from_inner((i % 9 + 1) as u8).unwrap();
            let row = GroundRow::from_inner((i / 9 + 1) as u8).unwrap();
            ground.set(GroundSquare::new(col, row), elem_opt);
            let ghost gpre = blocks@;
            if i % 9 + 1 <= 6 && i / 9 + 1 >= 7 {
                let cell: Option<Block> = match c {
                    '1' => Some(Block::Normal1),
                    '2' => Some(Block::Normal2),
                    '3' => Some(Block::Normal3),
                    '4' => Some(Block::Normal4),
                    '5' => Some(Block::Wild),
                    _ => None,
                };
                let bcol = crate::block::BlocksCol::from_inner((i % 9 + 1) as u8).unwrap();
                let brow = crate::block::BlocksRow::from_inner((i / 9 + 1 - 6) as u8).unwrap();
                let sq = crate::block::BlocksSquare::new(bcol, brow);
                proof {
                    crate::block::lemma_bs_idx_decompose(i as int % 9 + 1, i as int / 9 - 5);
                }
                blocks.set(sq, cell);
            }
            proof {
                assert(ground_index(i as int % 9 + 1, i as int / 9 + 1) == 8 * (i as int / 9)
                    + i as int % 9);
                assert forall|v: int|
                    0 <= v < 96 implies #[trigger] ground@[v] == if 9 * (v / 8) + v % 8 < i + 1 {
                    match char_elem(s@[9 * (v / 8) + v % 8]) {
                        Some(e) => e,
                        None => None,
                    }
                } else {
                    None
                } by {
                    lemma_div8(i as int / 9, i as int % 9);
                    lemma_div9(v / 8, v % 8);
                }
                assert forall|v: int|
                    0 <= v < 64 implies #[trigger] blocks@[v] == if sq_index_valid(v) && 9 * (v / 8
                    + 5) + v % 8 - 1 < i + 1 {
                    match char_block(s@[9 * (v / 8 + 5) + v % 8 - 1]) {
                        Some(x) => x,
                        None => None,
                    }
                } else {
                    None
                } by {
                    if sq_index_valid(v) {
                        lemma_div9(v / 8 + 5, v % 8 - 1);
                        if 9 * (v / 8 + 5) + v % 8 - 1 == i {
                            assert(i as int % 9 + 1 == v % 8 && i as int / 9 + 1 == v / 8 + 6);
                            crate::block::lemma_bs_idx_decompose(v % 8, v / 8);
                        }
                    }
                }
            }
        }
        i += 1;
    }
    proof {
        assert forall|v: int| 0 <= v < 96 implies #[trigger] ground@[v] == spec_ground_of_body(
            s@,
        )[v] by {
            lemma_div9(v / 8, v % 8);
        }
        assert(ground@ =~= spec_ground_of_body(s@));
        assert forall|v: int| 0 <= v < 64 implies #[trigger] blocks@[v] == spec_blocks_of_body(
            s@,
        )[v] by {
            if sq_index_valid(v) {
                lemma_div9(v / 8 + 5, v % 8 - 1);
            }
        }
        assert(blocks@ =~= spec_blocks_of_body(s@));
    }
    Ok((ground, blocks))
}


/// True when `ch` is the digit of some block.
pub fn is_block_char(ch: char) -> (r: bool)
    ensures
        r == (ch == '1' || ch == '2' || ch == '3' || ch == '4' || ch == '5'),
{
    matches!(ch, '1' | '2' | '3' | '4' | '5')
}

// ---------------------------------------------------------------------
// Solutions: comma-separated origin rows.

/// The text form of a solution: its origin rows in decimal, separated
/// by commas, with no trailing newline.
pub open spec fn spec_solution_text(srcs: Seq<u8>) -> Seq<char>
    decreases srcs.len(),
{
    if srcs.len() == 0 {
        Seq::empty()
    } else if srcs.len() == 1 {
        u8_dec(srcs[0] as int)
    } else {
        spec_solution_text(srcs.drop_last()) + seq![','] + u8_dec(srcs.last() as int)
    }
}

/// Parses origin rows from position `i` on: a decimal ground row,
/// then either the end of the text or a comma and more rows.
pub open spec fn spec_parse_solution_from(t: Seq<char>, i: int) -> Option<Seq<u8>>
    decreases t.len() - i,
{
    match spec_scan_u8(t, i) {
        None => None,
        Some((v, j)) => {
            if !(1 <= v <= 12) {
                None
            } else if j == t.len() {
                Some(seq![v])
            } else if i < j < t.len() && t[j] == ',' {
                match spec_parse_solution_from(t, j + 1) {
                    None => None,
                    Some(rest) => Some(seq![v] + rest),
                }
            } else {
                None
            }
        },
    }
}

/// Parses the text form of a solution.
pub open spec fn spec_parse_solution(t: Seq<char>) -> Option<Seq<u8>> {
    spec_parse_solution_from(t, 0)
}

impl Solution {
    /// The comma-separated text form of this solution.
    pub fn to_text(&self) -> (r: String)
        ensures
            r@ == spec_solution_text(self.spec_srcs()),
    {
        let ghost srcs = self.spec_srcs();
        let mut out = String::new();
        let rows = self.srcs();
        let mut k: usize = 0;
        while k < rows.len()
            invariant
                k <= rows@.len(),
                srcs == self.spec_srcs(),
                rows@.map(|x: int, g: GroundRow| g.spec_inner()) == srcs,
                rows@.len() == srcs.len(),
                out@ == spec_solution_text(srcs.take(k as int)),
            decreases rows@.len() - k,
        {
            if k > 0 {
                push_char(&mut out, ',');
            }
            push_u8_dec(&mut out, rows[k].to_inner());
            proof {
                assert(rows@[k as int].spec_inner() == srcs[k as int]);
                assert(srcs.take(k + 1).drop_last() =~= srcs.take(k as int));
                assert(srcs.take(k + 1).last() == srcs[k as int]);
                if k == 0 {
                    assert(out@ =~= spec_solution_text(srcs.take(1)));
                } else {
                    assert(out@ =~= spec_solution_text(srcs.take(k as int)) + seq![','] + u8_dec(
                        srcs[k as int] as int,
                    ));
                }
            }
            k += 1;
        }
        proof {
            assert(srcs.take(srcs.len() as int) =~= srcs);
        }
        out
    }

    /// Parses the comma-separated text form of a solution; every row
    /// must be a decimal ground row.
    pub fn from_text(s: &str) -> (r: Result<Solution, GameError>)
        ensures
            r is Ok <==> spec_parse_solution(s@) is Some,
            r is Ok ==> r.unwrap().spec_srcs() == spec_parse_solution(s@).unwrap(),
    {
        let len = s.unicode_len();
        let mut srcs: Vec<GroundRow> = Vec::new();
        let mut i: usize = 0;
        loop
            invariant_except_break
                ({
                    let full = spec_parse_solution(s@);
                    let tail = spec_parse_solution_from(s@, i as int);
                    match tail {
                        None => full is None,
                        Some(rest) => full == Some(
                            srcs@.map(|x: int, g: GroundRow| g.spec_inner()) + rest,
                        ),
                    }
                }),
            invariant
                i <= len,
                len == s@.len(),
            ensures
                ({
                    let full = spec_parse_solution(s@);
                    match full {
                        None => false,
                        Some(all) => all == srcs@.map(|x: int, g: GroundRow| g.spec_inner()),
                    }
                }),
            decreases len - i,
        {
            let ghost pre = srcs@;
            let (v, j) = match scan_u8(s, i) {
                Ok(p) => p,
                Err(e) => {
                    proof {
                        assert(spec_parse_solution_from(s@, i as int) is None);
                    }
                    return Err(e);
                },
            };
            let row = match GroundRow::from_inner(v) {
                Some(row) => row,
                None => {
                    proof {
                        assert(spec_parse_solution_from(s@, i as int) is None);
                    }
                    return Err(GameError::BadRowValue);
                },
            };
            srcs.push(row);
            if j == len {
                proof {
                    assert(spec_parse_solution_from(s@, i as int) == Some(seq![v]));
                    assert(srcs@.map(|x: int, g: GroundRow| g.spec_inner()) =~= pre.map(
                        |x: int, g: GroundRow| g.spec_inner(),
                    ) + seq![v]);
                }
                break ;
            }
            if s.get_char(j) != ',' {
                proof {
                    assert(spec_parse_solution_from(s@, i as int) is None);
                }
                return Err(GameError::BadNumber);
            }
            let ghost i0 = i as int;
            i = j + 1;
            proof {
                assert(srcs@.map(|x: int, g: GroundRow| g.spec_inner()) =~= pre.map(
                    |x: int, g: GroundRow| g.spec_inner(),
                ) + seq![v]);
                match spec_parse_solution_from(s@, i as int) {
                    None => {
                        assert(spec_parse_solution_from(s@, i0) is None);
                    },
                    Some(rest) => {
                        assert(spec_parse_solution_from(s@, i0) == Some(seq![v] + rest));
                        assert(pre.map(|x: int, g: GroundRow| g.spec_inner()) + (seq![v] + rest)
                            =~= srcs@.map(|x: int, g: GroundRow| g.spec_inner()) + rest);
                    },
                }
            }
        }
        Ok(Solution { srcs })
    }
}

} // verus!
