//! Reconstructing `Normal`-mode problems from the ROM.

use vstd::prelude::*;

use crate::block::{Block, Blocks, BlocksCol, BlocksRow, BlocksSquare, bs_idx, sq_index_valid};
use crate::error::GameError;
use crate::game_mode::GameMode;
use crate::ground::{Ground, GroundCol, GroundElement, GroundRow, GroundSquare, ground_index};
use crate::problem::Problem;
use crate::rom::Rom;

verus! {

/// The little-endian 16-bit value at `b[i]`.
pub open spec fn spec_u16_le(b: Seq<u8>, i: int) -> u16 {
    (b[i] as u16 + 256 * b[i + 1] as u16) as u16
}

/// Reads a little-endian 16-bit value.
pub fn read_u16_le(b: &[u8], i: usize) -> (r: u16)
    requires
        i + 2 <= b@.len(),
    ensures
        r == spec_u16_le(b@, i as int),
{
    b[i] as u16 + 256 * (b[i + 1] as u16)
}

/// True when bit `k` of `b` is set.
pub open spec fn bit_set(b: u8, k: u8) -> bool {
    b & (1u8 << k) != 0
}

/// The ground map encoded by twelve wall bytes and twelve pipe bytes,
/// one bit per column from the left, pipes overriding walls.
pub open spec fn spec_ground_from_bytes(walls: Seq<u8>, pipes: Seq<u8>) -> Seq<
    Option<GroundElement>,
> {
    Seq::new(
        96,
        |v: int|
            if bit_set(pipes[v / 8], (7 - v % 8) as u8) {
                Some(GroundElement::Pipe)
            } else if bit_set(walls[v / 8], (7 - v % 8) as u8) {
                Some(GroundElement::Wall)
            } else {
                None
            },
    )
}

/// The ground map of a `Normal`-mode stage, or nothing when the
/// stage's table pointer leaves its bank.
pub open spec fn spec_normal_ground(chr: Seq<u8>, stage: u8) -> Option<
    Seq<Option<GroundElement>>,
> {
    let s = (stage % 32) as int;
    let bank = if s < 25 {
        chr.subrange(16384, 24576)
    } else {
        chr.subrange(0, 8192)
    };
    let off = if s < 25 {
        0xC00 + 2 * s
    } else {
        0x1C00 + 2 * (s - 25)
    };
    let ptr = (spec_u16_le(bank, off) & 0x3FFF) as int;
    if ptr + 24 <= 8192 {
        Some(spec_ground_from_bytes(bank.subrange(ptr, ptr + 12), bank.subrange(ptr + 12, ptr + 24)))
    } else {
        None
    }
}

/// Extracts the wall and pipe layout of a `Normal`-mode stage.
pub fn extract_normal_ground(rom: &Rom, stage: u8) -> (r: Result<Ground, GameError>)
    ensures
        r is Ok <==> spec_normal_ground(rom.spec_chr(), stage) is Some,
        r is Ok ==> r.unwrap()@ == spec_normal_ground(rom.spec_chr(), stage).unwrap(),
        r is Err ==> r.unwrap_err() == GameError::RomBadPointer,
{
    let s = stage % 32;
    let bank = if s < 25 {
        rom.chr_bank(2)
    } else {
        rom.chr_bank(0)
    };
    let off: usize = if s < 25 {
        0xC00 + 2 * (s as usize)
    } else {
        0x1C00 + 2 * ((s - 25) as usize)
    };
    let ptr = (read_u16_le(bank, off) & 0x3FFF) as usize;
    if ptr + 24 > 8192 {
        return Err(GameError::RomBadPointer);
    }
    let ghost walls = bank@.subrange(ptr as int, ptr + 12);
    let ghost pipes = bank@.subrange(ptr + 12, ptr + 24);

    let mut ground = Ground::new();
    let mut row: u8 = 1;
    while row <= 12
        invariant
            1 <= row <= 13,
            bank@.len() == 8192,
            ptr + 24 <= 8192,
            walls == bank@.subrange(ptr as int, ptr + 12),
            pipes == bank@.subrange(ptr + 12, ptr + 24),
            ground@.len() == 96,
            forall|v: int|
                0 <= v < 96 ==> #[trigger] ground@[v] == if v / 8 + 1 < row {
                    spec_ground_from_bytes(walls, pipes)[v]
                } else {
                    None
                },
        decreases 13 - row,
    {
        let wall_byte = bank[ptr + (row - 1) as usize];
        let pipe_byte = bank[ptr + 12 + (row - 1) as usize];
        let mut col: u8 = 1;
        while col <= 8
            invariant
                1 <= col <= 9,
                1 <= row <= 12,
                bank@.len() == 8192,
                ptr + 24 <= 8192,
                walls == bank@.subrange(ptr as int, ptr + 12),
                pipes == bank@.subrange(ptr + 12, ptr + 24),
                wall_byte == walls[row - 1],
                pipe_byte == pipes[row - 1],
                ground@.len() == 96,
                forall|v: int|
                    0 <= v < 96 ==> #[trigger] ground@[v] == if v / 8 + 1 < row || (v / 8 + 1
                        == row && v % 8 + 1 < col) {
                        spec_ground_from_bytes(walls, pipes)[v]
                    } else {
                        None
                    },
            decreases 9 - col,
        {
            let shift: u8 = 8 - col;
            let elem: Option<GroundElement> = if pipe_byte & (1u8 << shift) != 0 {
                Some(GroundElement::Pipe)
            } else if wall_byte & (1u8 << shift) != 0 {
                Some(GroundElement::Wall)
            } else {
                None
            };
            let gc = GroundCol::from_inner(col).unwrap();
            let gr = GroundRow::from_inner(row).unwrap();
            ground.set(GroundSquare::new(gc, gr), elem);
            proof {
                let v0 = ground_index(col as int, row as int);
                assert(v0 / 8 + 1 == row && v0 % 8 + 1 == col) by {
                    crate::text::lemma_div8(row as int - 1, col as int - 1);
                }
                assert(elem == spec_ground_from_bytes(walls, pipes)[v0]);
                assert forall|v: int|
                    0 <= v < 96 implies #[trigger] ground@[v] == if v / 8 + 1 < row || (v / 8 + 1
                    == row && v % 8 + 1 < col + 1) {
                    spec_ground_from_bytes(walls, pipes)[v]
                } else {
                    None
                } by {
                    crate::text::lemma_div8(v / 8, v % 8);
                }
            }
            col += 1;
        }
        row += 1;
    }
    proof {
        assert(ground@ =~= spec_ground_from_bytes(walls, pipes));
    }
    Ok(ground)
}

/// Extracts the target block count of a `Normal`-mode stage.
pub fn extract_normal_block_count_target(rom: &Rom, stage: u8) -> (r: u8)
    ensures
        r == rom.spec_prg()[0x298D + (stage % 32) as int],
{
    let prg = rom.prg();
    prg[0x298D + (stage % 32) as usize]
}

/// The board generator's random-number state: two counter bytes and a
/// pointer into the program data.
#[derive(Clone, Copy, Debug, PartialEq, Eq, Structural)]
pub struct BlocksRng {
    pub(crate) s0: u8,
    pub(crate) s1: u8,
    pub(crate) ptr: u16,
}

/// `x` rotated right by four bits, the carry entering at bit four.
pub open spec fn spec_ror4(x: u8, carry: bool) -> u8 {
    ((x >> 4) | ((x & 7) << 5) | ((if carry {
        1u8
    } else {
        0u8
    }) << 4)) as u8
}

/// One draw of the board generator: the next state and the color
/// drawn, as a pure function of the state and the program bytes.
pub open spec fn spec_rng_next(s0: u8, s1: u8, ptr: u16, prg: Seq<u8>) -> (u8, u8, u16, u8) {
    let s0n = vstd::wrapping::u8_specs::wrapping_add(s0, 1);
    let s1n = vstd::wrapping::u8_specs::wrapping_sub(s1, 1);
    let x = prg[ptr as int - 0x8000];
    let rhs = (s0n as u16 | ((s1n as u16) << 8)) as u16;
    let ptrn = (0x8000u16 | (vstd::wrapping::u16_specs::wrapping_add(ptr, rhs) & 0x1FFF)) as u16;
    let lhs = (s1n as u16 | ((s0n as u16) << 8)) as u16;
    let ptr2 = (0x8000u16 | (vstd::wrapping::u16_specs::wrapping_sub(lhs, ptrn) & 0x1FFF)) as u16;
    let y = prg[ptr2 as int - 0x8000];
    let shift = (2 * ((y >> 1) & 3)) as u8;
    let r = (1 + ((x >> shift) & 3)) as u8;
    (s0n, s1n, ptrn, r)
}

impl BlocksRng {
    #[verifier::type_invariant]
    pub(crate) open(crate) spec fn type_inv(self) -> bool {
        0x8000 <= self.ptr < 0xA000
    }

    pub open(crate) spec fn spec_s0(self) -> u8 {
        self.s0
    }

    pub open(crate) spec fn spec_s1(self) -> u8 {
        self.s1
    }

    pub open(crate) spec fn spec_ptr(self) -> u16 {
        self.ptr
    }

    /// Seeds the generator from the game's two state bytes.
    pub fn new(state: [u8; 2], carry: bool) -> (r: BlocksRng)
        ensures
            r.spec_s0() == state[0],
            r.spec_s1() == state[1],
            r.spec_ptr() == (0x8000u16 | (((state[0] & 0x1F) as u16) << 8) | spec_ror4(
                state[1],
                carry,
            ) as u16),
    {
        let r4 = ror4(state[1], carry);
        let ptr: u16 = 0x8000u16 | (((state[0] & 0x1F) as u16) << 8) | (r4 as u16);
        proof {
            let a = state[0];
            assert(0x8000 <= (0x8000u16 | (((a & 0x1F) as u16) << 8) | (r4 as u16)) < 0xA000)
                by (bit_vector);
        }
        BlocksRng { s0: state[0], s1: state[1], ptr }
    }

    /// Draws one block color in `1..=4`, stepping the state as the
    /// game's generator does.
    pub fn gen(&mut self, rom: &Rom) -> (r: u8)
        ensures
            1 <= r <= 4,
            ({
                let (s0n, s1n, ptrn, rn) = spec_rng_next(
                    old(self).spec_s0(),
                    old(self).spec_s1(),
                    old(self).spec_ptr(),
                    rom.spec_prg(),
                );
                &&& final(self).spec_s0() == s0n
                &&& final(self).spec_s1() == s1n
                &&& final(self).spec_ptr() == ptrn
                &&& r == rn
            }),
    {
        proof {
            use_type_invariant(&*self);
        }
        self.s0 = self.s0.wrapping_add(1);
        self.s1 = self.s1.wrapping_sub(1);

        let prg = rom.prg();
        let x = prg[(self.ptr - 0x8000) as usize];

        let rhs: u16 = (self.s0 as u16) | ((self.s1 as u16) << 8);
        let sum = self.ptr.wrapping_add(rhs);
        proof {
            assert(0x8000 <= (0x8000u16 | (sum & 0x1FFF)) < 0xA000) by (bit_vector);
        }
        self.ptr = 0x8000u16 | (sum & 0x1FFF);

        let lhs: u16 = (self.s1 as u16) | ((self.s0 as u16) << 8);
        let diff = lhs.wrapping_sub(self.ptr);
        proof {
            assert(0x8000 <= (0x8000u16 | (diff & 0x1FFF)) < 0xA000) by (bit_vector);
        }
        let ptr2: u16 = 0x8000u16 | (diff & 0x1FFF);
        let y = prg[(ptr2 - 0x8000) as usize];

        let masked: u8 = (y >> 1) & 3;
        proof {
            assert(((y >> 1) & 3) <= 3) by (bit_vector);
        }
        let shift: u8 = 2 * masked;
        let sel: u8 = (x >> shift) & 3;
        proof {
            assert(((x >> shift) & 3) <= 3) by (bit_vector);
        }
        1 + sel
    }
}

/// `x` rotated right by four bits, the carry entering at bit four.
pub fn ror4(x: u8, carry: bool) -> (r: u8)
    ensures
        r == spec_ror4(x, carry),
{
    (x >> 4) | ((x & 7) << 5) | ((if carry {
        1u8
    } else {
        0u8
    }) << 4)
}

/// The per-color block budgets of one generation pass, from the
/// game's tables: the stage kind and two seed bits pick the row.
pub open spec fn spec_params_counts(stage: u8, seed: u8, second: bool) -> Seq<u8> {
    let kind: u8 = match stage % 32 {
        0 | 1 | 2 | 29 => 0,
        3 | 4 | 5 | 6 | 11 | 15 | 16 | 17 | 18 | 19 | 20 | 21 | 22 | 30 | 31 => 1,
        _ => 2,
    };
    let row: u8 = (kind << 2) | ((seed >> 2) & 3);
    match (row, second) {
        (0, false) => seq![3u8, 2u8, 2u8, 2u8],
        (0, true) => seq![4u8, 4u8, 4u8, 4u8],
        (1, false) => seq![2u8, 3u8, 2u8, 2u8],
        (1, true) => seq![4u8, 4u8, 4u8, 4u8],
        (2, false) => seq![2u8, 2u8, 3u8, 2u8],
        (2, true) => seq![4u8, 4u8, 4u8, 4u8],
        (3, false) => seq![2u8, 2u8, 2u8, 3u8],
        (3, true) => seq![4u8, 4u8, 4u8, 4u8],
        (4, false) => seq![2u8, 2u8, 3u8, 3u8],
        (4, true) => seq![5u8, 5u8, 5u8, 5u8],
        (5, false) => seq![3u8, 3u8, 2u8, 2u8],
        (5, true) => seq![5u8, 5u8, 5u8, 5u8],
        (6, false) => seq![2u8, 3u8, 2u8, 3u8],
        (6, true) => seq![5u8, 5u8, 5u8, 5u8],
        (7, false) => seq![3u8, 2u8, 3u8, 2u8],
        (7, true) => seq![5u8, 5u8, 5u8, 5u8],
        (8, false) => seq![2u8, 3u8, 3u8, 3u8],
        (8, true) => seq![7u8, 6u8, 6u8, 6u8],
        (9, false) => seq![3u8, 2u8, 3u8, 3u8],
        (9, true) => seq![6u8, 7u8, 6u8, 6u8],
        (10, false) => seq![3u8, 3u8, 2u8, 3u8],
        (10, true) => seq![6u8, 6u8, 7u8, 6u8],
        (11, false) => seq![3u8, 3u8, 3u8, 2u8],
        (11, true) => seq![6u8, 6u8, 6u8, 7u8],
        (_, _) => seq![0u8, 0u8, 0u8, 0u8],
    }
}

/// The board slots one generation pass fills, from the game's tables.
pub open spec fn spec_params_idxs(stage: u8, second: bool) -> Seq<u8> {
    let kind: u8 = match stage % 32 {
        0 | 1 | 2 | 29 => 0,
        3 | 4 | 5 | 6 | 11 | 15 | 16 | 17 | 18 | 19 | 20 | 21 | 22 | 30 | 31 => 1,
        _ => 2,
    };
    match (kind, second) {
        (0, false) => seq![8u8, 9u8, 10u8, 11u8, 12u8, 20u8, 28u8, 36u8, 44u8],
        (0, true) => seq![
            16u8, 17u8, 18u8, 19u8, 24u8, 25u8, 26u8, 27u8, 32u8, 33u8, 34u8, 35u8, 40u8,
            41u8, 42u8, 43u8,
        ],
        (1, false) => seq![0u8, 1u8, 2u8, 3u8, 4u8, 12u8, 20u8, 28u8, 36u8, 44u8],
        (1, true) => seq![
            8u8, 9u8, 10u8, 11u8, 16u8, 17u8, 18u8, 19u8, 24u8, 25u8, 26u8, 27u8, 32u8,
            33u8, 34u8, 35u8, 40u8, 41u8, 42u8, 43u8,
        ],
        (_, false) => seq![0u8, 1u8, 2u8, 3u8, 4u8, 5u8, 13u8, 21u8, 29u8, 37u8, 45u8],
        (_, true) => seq![
            8u8, 9u8, 10u8, 11u8, 12u8, 16u8, 17u8, 18u8, 19u8, 20u8, 24u8, 25u8, 26u8,
            27u8, 28u8, 32u8, 33u8, 34u8, 35u8, 36u8, 40u8, 41u8, 42u8, 43u8, 44u8,
        ],
    }
}

/// The drawing plan of one generation pass: how many blocks of each
/// color remain to be placed, and which board slots to fill.
pub struct BlocksParams {
    pub(crate) block_counts: Vec<u8>,
    pub(crate) idxs: Vec<u8>,
}

/// The stage kind indexing the generator's tables.
pub open spec fn spec_stage_kind(s: int) -> int {
    if s == 0 || s == 1 || s == 2 || s == 29 {
        0
    } else if s == 3 || s == 4 || s == 5 || s == 6 || s == 11 || s == 15 || s == 16 || s == 17
        || s == 18 || s == 19 || s == 20 || s == 21 || s == 22 || s == 30 || s == 31 {
        1
    } else {
        2
    }
}

impl BlocksParams {
    #[verifier::type_invariant]
    pub(crate) open(crate) spec fn type_inv(self) -> bool {
        &&& self.block_counts@.len() == 4
        &&& forall|k: int| 0 <= k < self.idxs@.len() ==> #[trigger] self.idxs@[k] < 48
        &&& self.idxs@.len() <= 25
    }

    pub open(crate) spec fn spec_block_counts(self) -> Seq<u8> {
        self.block_counts@
    }

    pub open(crate) spec fn spec_idxs(self) -> Seq<u8> {
        self.idxs@
    }

    /// Looks the plan up for a stage, a seed and the pass number, as
    /// the game's tables have it.
    pub fn new(stage: u8, rng_state: [u8; 2], second: bool) -> (r: BlocksParams)
        ensures
            r.spec_block_counts() == spec_params_counts(stage, rng_state[0], second),
            r.spec_idxs() == spec_params_idxs(stage, second),
            r.spec_block_counts().len() == 4,
            forall|k: int| 0 <= k < r.spec_idxs().len() ==> #[trigger] r.spec_idxs()[k] < 48,
            r.spec_idxs().len() <= 25,
    {
        let kind: u8 = match stage % 32 {
            0 | 1 | 2 | 29 => 0,
            3 | 4 | 5 | 6 | 11 | 15 | 16 | 17 | 18 | 19 | 20 | 21 | 22 | 30 | 31 => 1,
            _ => 2,
        };

        let seed = rng_state[0];
        let row: u8 = (kind << 2) | ((seed >> 2) & 3);
        proof {
            assert(((kind << 2) | ((seed >> 2) & 3)) < 12) by (bit_vector)
                requires
                    kind <= 2,
            {}
        }
        let counts: [u8; 4] = match (row, second) {
            (0, false) => [3, 2, 2, 2],
            (0, true) => [4, 4, 4, 4],
            (1, false) => [2, 3, 2, 2],
            (1, true) => [4, 4, 4, 4],
            (2, false) => [2, 2, 3, 2],
            (2, true) => [4, 4, 4, 4],
            (3, false) => [2, 2, 2, 3],
            (3, true) => [4, 4, 4, 4],
            (4, false) => [2, 2, 3, 3],
            (4, true) => [5, 5, 5, 5],
            (5, false) => [3, 3, 2, 2],
            (5, true) => [5, 5, 5, 5],
            (6, false) => [2, 3, 2, 3],
            (6, true) => [5, 5, 5, 5],
            (7, false) => [3, 2, 3, 2],
            (7, true) => [5, 5, 5, 5],
            (8, false) => [2, 3, 3, 3],
            (8, true) => [7, 6, 6, 6],
            (9, false) => [3, 2, 3, 3],
            (9, true) => [6, 7, 6, 6],
            (10, false) => [3, 3, 2, 3],
            (10, true) => [6, 6, 7, 6],
            (11, false) => [3, 3, 3, 2],
            (11, true) => [6, 6, 6, 7],
            (_, _) => [0, 0, 0, 0],
        };
        let mut block_counts: Vec<u8> = Vec::new();
        block_counts.push(counts[0]);
        block_counts.push(counts[1]);
        block_counts.push(counts[2]);
        block_counts.push(counts[3]);

        let mut idxs: Vec<u8> = Vec::new();
        match (kind, second) {
            (0, false) => {
                push_all(&mut idxs, &[8, 9, 10, 11, 12, 20, 28, 36, 44]);
            },
            (0, true) => {
                push_all(
                    &mut idxs,
                    &[16, 17, 18, 19, 24, 25, 26, 27, 32, 33, 34, 35, 40, 41, 42, 43],
                );
            },
            (1, false) => {
                push_all(&mut idxs, &[0, 1, 2, 3, 4, 12, 20, 28, 36, 44]);
            },
            (1, true) => {
                push_all(
                    &mut idxs,
                    &[
                        8,
                        9,
                        10,
                        11,
                        16,
                        17,
                        18,
                        19,
                        24,
                        25,
                        26,
                        27,
                        32,
                        33,
                        34,
                        35,
                        40,
                        41,
                        42,
                        43,
                    ],
                );
            },
            (_, false) => {
                push_all(&mut idxs, &[0, 1, 2, 3, 4, 5, 13, 21, 29, 37, 45]);
            },
            (_, true) => {
                push_all(
                    &mut idxs,
                    &[
                        8,
                        9,
                        10,
                        11,
                        12,
                        16,
                        17,
                        18,
                        19,
                        20,
                        24,
                        25,
                        26,
                        27,
                        28,
                        32,
                        33,
                        34,
                        35,
                        36,
                        40,
                        41,
                        42,
                        43,
                        44,
                    ],
                );
            },
        }

        proof {
            assert(block_counts@ =~= spec_params_counts(stage, rng_state[0], second));
            assert(idxs@ =~= spec_params_idxs(stage, second));
        }
        BlocksParams { block_counts, idxs }
    }
}

/// Appends every byte of `src` to `dst`.
fn push_all(dst: &mut Vec<u8>, src: &[u8])
    requires
        old(dst)@.len() == 0,
    ensures
        final(dst)@ == src@,
{
    let mut i: usize = 0;
    while i < src.len()
        invariant
            i <= src@.len(),
            dst@ =~= src@.take(i as int),
        decreases src@.len() - i,
    {
        dst.push(src[i]);
        proof {
            assert(dst@ =~= src@.take(i + 1));
        }
        i += 1;
    }
    proof {
        assert(dst@ =~= src@);
    }
}

/// Draws until a color with remaining budget comes up, within `fuel`
/// draws: the resulting state, the color, and the spent budgets.
pub open spec fn spec_rng_draw(
    s0: u8,
    s1: u8,
    ptr: u16,
    prg: Seq<u8>,
    remains: Seq<u8>,
    fuel: int,
) -> Option<(u8, u8, u16, u8, Seq<u8>)>
    decreases fuel,
{
    if fuel <= 0 {
        None
    } else {
        let (s0n, s1n, ptrn, r) = spec_rng_next(s0, s1, ptr, prg);
        if remains[r - 1] > 0 {
            Some((s0n, s1n, ptrn, r, remains.update(r - 1, (remains[r - 1] - 1) as u8)))
        } else {
            spec_rng_draw(s0n, s1n, ptrn, prg, remains, fuel - 1)
        }
    }
}

/// One generation pass from slot `k` on: each planned slot must be
/// empty and receives the next drawn color.  Yields the final
/// generator state and board bytes, or nothing when a slot is taken
/// or the generator starves a budget.
pub open spec fn spec_fill(
    prg: Seq<u8>,
    idxs: Seq<u8>,
    s0: u8,
    s1: u8,
    ptr: u16,
    remains: Seq<u8>,
    buf: Seq<u8>,
    k: int,
) -> Option<(u8, u8, u16, Seq<u8>)>
    decreases idxs.len() - k,
{
    if k < 0 || k >= idxs.len() {
        Some((s0, s1, ptr, buf))
    } else {
        match spec_rng_draw(s0, s1, ptr, prg, remains, 4096) {
            None => None,
            Some((s0n, s1n, ptrn, r, rem2)) => {
                if buf[idxs[k] as int] != 0 {
                    None
                } else {
                    spec_fill(prg, idxs, s0n, s1n, ptrn, rem2, buf.update(idxs[k] as int, r), k + 1)
                }
            },
        }
    }
}

/// Runs one generation pass: draws colors until one with remaining
/// budget comes up and writes it into each planned slot in turn.
/// Fails when a slot is already filled or the generator makes no
/// progress for too long.
pub fn extract_blocks_part(
    rom: &Rom,
    params: &BlocksParams,
    rng: &mut BlocksRng,
    buf: &mut Vec<u8>,
) -> (r: Result<(), GameError>)
    requires
        old(buf)@.len() == 48,
    ensures
        ({
            let f = spec_fill(
                rom.spec_prg(),
                params.spec_idxs(),
                old(rng).spec_s0(),
                old(rng).spec_s1(),
                old(rng).spec_ptr(),
                params.spec_block_counts(),
                old(buf)@,
                0,
            );
            match r {
                Ok(()) => f == Some(
                    (
                        final(rng).spec_s0(),
                        final(rng).spec_s1(),
                        final(rng).spec_ptr(),
                        final(buf)@,
                    ),
                ),
                Err(e) => f is None && (e == GameError::RomSlotTaken || e
                    == GameError::RomRngStuck),
            }
        }),
        final(buf)@.len() == 48,
        forall|j: int|
            0 <= j < 48 ==> final(buf)@[j] == old(buf)@[j] || 1 <= #[trigger] final(buf)@[j] <= 4,
{
    proof {
        use_type_invariant(params);
    }
    let ghost prg = rom.spec_prg();
    let ghost idxs = params.spec_idxs();
    let ghost e_s0 = rng.spec_s0();
    let ghost e_s1 = rng.spec_s1();
    let ghost e_ptr = rng.spec_ptr();
    let ghost buf0 = buf@;

    let mut remains: Vec<u8> = Vec::new();
    remains.push(params.block_counts[0]);
    remains.push(params.block_counts[1]);
    remains.push(params.block_counts[2]);
    remains.push(params.block_counts[3]);
    proof {
        assert(remains@ =~= params.spec_block_counts());
    }

    let mut k: usize = 0;
    while k < params.idxs.len()
        invariant
            k <= params.idxs@.len(),
            params.idxs@.len() <= 25,
            forall|x: int| 0 <= x < params.idxs@.len() ==> #[trigger] params.idxs@[x] < 48,
            remains@.len() == 4,
            buf@.len() == 48,
            buf0.len() == 48,
            buf0 == old(buf)@,
            e_s0 == old(rng).spec_s0(),
            e_s1 == old(rng).spec_s1(),
            e_ptr == old(rng).spec_ptr(),
            forall|j: int|
                0 <= j < 48 ==> buf@[j] == buf0[j] || 1 <= #[trigger] buf@[j] <= 4,
            prg == rom.spec_prg(),
            idxs == params.spec_idxs(),
            spec_fill(prg, idxs, e_s0, e_s1, e_ptr, params.spec_block_counts(), buf0, 0)
                == spec_fill(
                prg,
                idxs,
                rng.spec_s0(),
                rng.spec_s1(),
                rng.spec_ptr(),
                remains@,
                buf@,
                k as int,
            ),
        decreases params.idxs@.len() - k,
    {
        let idx = params.idxs[k] as usize;

        // Draw until a color with remaining budget comes up; give up
        // after far more draws than the generator ever needs.
        let ghost d_s0 = rng.spec_s0();
        let ghost d_s1 = rng.spec_s1();
        let ghost d_ptr = rng.spec_ptr();
        let ghost d_rem = remains@;
        let mut tries: u16 = 0;
        let mut block: u8 = 0;
        loop
            invariant_except_break
                tries <= 4096,
                remains@ == d_rem,
                spec_rng_draw(d_s0, d_s1, d_ptr, prg, d_rem, 4096) == spec_rng_draw(
                    rng.spec_s0(),
                    rng.spec_s1(),
                    rng.spec_ptr(),
                    prg,
                    d_rem,
                    4096 - tries as int,
                ),
            invariant
                remains@.len() == 4,
                block <= 4,
                buf@.len() == 48,
                buf0.len() == 48,
                buf0 == old(buf)@,
                e_s0 == old(rng).spec_s0(),
                e_s1 == old(rng).spec_s1(),
                e_ptr == old(rng).spec_ptr(),
                k < idxs.len(),
                forall|j: int|
                    0 <= j < 48 ==> buf@[j] == buf0[j] || 1 <= #[trigger] buf@[j] <= 4,
                prg == rom.spec_prg(),
                idxs == params.spec_idxs(),
                spec_fill(prg, idxs, e_s0, e_s1, e_ptr, params.spec_block_counts(), buf0, 0)
                    == spec_fill(prg, idxs, d_s0, d_s1, d_ptr, d_rem, buf@, k as int),
            ensures
                1 <= block <= 4,
                spec_rng_draw(d_s0, d_s1, d_ptr, prg, d_rem, 4096) == Some(
                    (
                        rng.spec_s0(),
                        rng.spec_s1(),
                        rng.spec_ptr(),
                        block,
                        remains@,
                    ),
                ),
            decreases 4096 - tries as int,
        {
            if tries >= 4096 {
                proof {
                    assert(spec_rng_draw(d_s0, d_s1, d_ptr, prg, d_rem, 4096) is None);
                }
                return Err(GameError::RomRngStuck);
            }
            let ghost g0 = rng.spec_s0();
            let ghost g1 = rng.spec_s1();
            let ghost gp = rng.spec_ptr();
            let b = rng.gen(rom);
            if remains[(b - 1) as usize] > 0 {
                let i = (b - 1) as usize;
                let cur = remains[i];
                remains[i] = cur - 1;
                block = b;
                proof {
                    assert(remains@ =~= d_rem.update(b - 1, (d_rem[b - 1] - 1) as u8));
                    assert(spec_rng_draw(g0, g1, gp, prg, d_rem, 4096 - tries as int) == Some(
                        (rng.spec_s0(), rng.spec_s1(), rng.spec_ptr(), b, remains@),
                    ));
                }
                break ;
            }
            proof {
                assert(d_rem[b - 1] == 0);
                assert(spec_rng_draw(g0, g1, gp, prg, d_rem, 4096 - tries as int)
                    == spec_rng_draw(
                    rng.spec_s0(),
                    rng.spec_s1(),
                    rng.spec_ptr(),
                    prg,
                    d_rem,
                    4096 - tries as int - 1,
                ));
            }
            tries += 1;
        }

        if buf[idx] != 0 {
            proof {
                assert(spec_fill(
                    prg,
                    idxs,
                    e_s0,
                    e_s1,
                    e_ptr,
                    params.spec_block_counts(),
                    buf0,
                    0,
                ) is None);
            }
            return Err(GameError::RomSlotTaken);
        }
        let ghost buf_pre = buf@;
        buf[idx] = block;
        proof {
            assert(buf@ =~= buf_pre.update(idxs[k as int] as int, block));
            assert(spec_fill(
                prg,
                idxs,
                d_s0,
                d_s1,
                d_ptr,
                d_rem,
                buf_pre,
                k as int,
            ) == spec_fill(
                prg,
                idxs,
                rng.spec_s0(),
                rng.spec_s1(),
                rng.spec_ptr(),
                remains@,
                buf@,
                k as int + 1,
            ));
        }
        k += 1;
    }
    proof {
        assert(spec_fill(
            prg,
            idxs,
            rng.spec_s0(),
            rng.spec_s1(),
            rng.spec_ptr(),
            remains@,
            buf@,
            k as int,
        ) == Some((rng.spec_s0(), rng.spec_s1(), rng.spec_ptr(), buf@)));
    }
    Ok(())
}

/// The initial board bytes of a `Normal`-mode stage for one seed: an
/// empty buffer filled by the two generation passes.
pub open spec fn spec_normal_buf(prg: Seq<u8>, stage: u8, st0: u8, st1: u8) -> Option<Seq<u8>> {
    let carry = (stage & 2) != 0;
    let ptr0 = (0x8000u16 | (((st0 & 0x1F) as u16) << 8) | spec_ror4(st1, carry) as u16) as u16;
    let zero = Seq::new(48, |i: int| 0u8);
    match spec_fill(
        prg,
        spec_params_idxs(stage, false),
        st0,
        st1,
        ptr0,
        spec_params_counts(stage, st0, false),
        zero,
        0,
    ) {
        None => None,
        Some((a, b, p, buf1)) => match spec_fill(
            prg,
            spec_params_idxs(stage, true),
            a,
            b,
            p,
            spec_params_counts(stage, st0, true),
            buf1,
            0,
        ) {
            None => None,
            Some((a2, b2, p2, buf2)) => Some(buf2),
        },
    }
}

/// A filled buffer whose two rightmost bytes of every row -- the
/// cells beside the board -- stayed empty.
pub open spec fn spec_buf_cols_ok(buf: Seq<u8>) -> bool {
    forall|r: int| 0 <= r < 6 ==> #[trigger] buf[8 * r + 6] == 0 && buf[8 * r + 7] == 0
}

/// The board a filled buffer describes, with the wildcard overlaid at
/// its fixed square in wildcard stages.
pub open spec fn spec_board_of_buf(buf: Seq<u8>, wild: bool) -> Seq<Option<Block>> {
    Seq::new(
        64,
        |v: int|
            if wild && v == bs_idx(2, 5) {
                Some(Block::Wild)
            } else if sq_index_valid(v) {
                Block::spec_from_inner(buf[8 * (v / 8 - 1) + (v % 8 - 1)])
            } else {
                None
            },
    )
}

/// Extracts the initial board of a `Normal`-mode stage for one seed;
/// in wildcard stages the wildcard sits at its fixed square.
pub fn extract_normal_blocks(rom: &Rom, stage: u8, rng_state: [u8; 2], wild: bool) -> (r: Result<
    Blocks,
    GameError,
>)
    ensures
        ({
            match spec_normal_buf(rom.spec_prg(), stage, rng_state[0], rng_state[1]) {
                None => r is Err,
                Some(buf) => if spec_buf_cols_ok(buf) {
                    r is Ok && r.unwrap()@ == spec_board_of_buf(buf, wild)
                } else {
                    r is Err
                },
            }
        }),
        r is Ok ==> ({
            let b = r.unwrap()@;
            &&& (wild ==> b[bs_idx(2, 5)] == Some(Block::Wild))
            &&& (!wild ==> forall|v: int| 0 <= v < 64 ==> b[v] != Some(Block::Wild))
        }),
{
    let ghost nb = spec_normal_buf(rom.spec_prg(), stage, rng_state[0], rng_state[1]);
    let params_first = BlocksParams::new(stage, rng_state, false);
    let params_second = BlocksParams::new(stage, rng_state, true);

    let mut rng = {
        let carry = (stage & 2) != 0;
        BlocksRng::new(rng_state, carry)
    };

    let mut buf: Vec<u8> = Vec::new();
    let mut z: usize = 0;
    while z < 48
        invariant
            z <= 48,
            buf@.len() == z,
            forall|j: int| 0 <= j < z ==> buf@[j] == 0,
        decreases 48 - z,
    {
        buf.push(0);
        z += 1;
    }
    proof {
        assert(buf@ =~= Seq::new(48, |i: int| 0u8));
    }
    if let Err(e) = extract_blocks_part(rom, &params_first, &mut rng, &mut buf) {
        proof {
            assert(nb is None);
        }
        return Err(e);
    }
    if let Err(e) = extract_blocks_part(rom, &params_second, &mut rng, &mut buf) {
        proof {
            assert(nb is None);
        }
        return Err(e);
    }
    proof {
        assert(nb == Some(buf@));
    }

    let mut blocks = Blocks::new();

    let mut row: u8 = 1;
    while row <= 6
        invariant
            1 <= row <= 7,
            buf@.len() == 48,
            nb == Some(buf@),
            nb == spec_normal_buf(rom.spec_prg(), stage, rng_state[0], rng_state[1]),
            forall|j: int| 0 <= j < 48 ==> #[trigger] buf@[j] <= 4,
            forall|r2: int|
                0 <= r2 < row - 1 ==> #[trigger] buf@[8 * r2 + 6] == 0 && buf@[8 * r2 + 7] == 0,
            blocks@.len() == 64,
            forall|v: int|
                0 <= v < 64 ==> #[trigger] blocks@[v] == if sq_index_valid(v) && v / 8 <= row - 1
                {
                    Block::spec_from_inner(buf@[8 * (v / 8 - 1) + (v % 8 - 1)])
                } else {
                    None
                },
        decreases 7 - row,
    {
        // the two rightmost bytes of each row lie outside the board
        let base = (8 * (row - 1)) as usize;
        if buf[base + 6] != 0 || buf[base + 7] != 0 {
            proof {
                assert(buf@[8 * (row - 1) + 6] != 0 || buf@[8 * (row - 1) + 7] != 0);
                assert(!spec_buf_cols_ok(buf@));
            }
            return Err(GameError::RomBadBlockValue);
        }
        proof {
            assert(buf@[8 * (row - 1) + 6] == 0 && buf@[8 * (row - 1) + 7] == 0);
        }
        let mut col: u8 = 1;
        while col <= 6
            invariant
                1 <= col <= 7,
                1 <= row <= 6,
                buf@.len() == 48,
                base == 8 * (row - 1),
                forall|j: int| 0 <= j < 48 ==> #[trigger] buf@[j] <= 4,
                blocks@.len() == 64,
                forall|v: int|
                    0 <= v < 64 ==> #[trigger] blocks@[v] == if sq_index_valid(v) && (v / 8 < row
                        || (v / 8 == row && v % 8 < col)) {
                        Block::spec_from_inner(buf@[8 * (v / 8 - 1) + (v % 8 - 1)])
                    } else {
                        None
                    },
            decreases 7 - col,
        {
            let value = buf[base + (col - 1) as usize];
            let cell = Block::from_inner(value);
            let sq = BlocksSquare::new(
                BlocksCol::from_inner(col).unwrap(),
                BlocksRow::from_inner(row).unwrap(),
            );
            blocks.set(sq, cell);
            proof {
                crate::block::lemma_bs_idx_decompose(col as int, row as int);
            }
            col += 1;
        }
        proof {
            assert forall|r2: int|
                0 <= r2 < row implies #[trigger] buf@[8 * r2 + 6] == 0 && buf@[8 * r2 + 7]
                == 0 by {
                if r2 == row - 1 {
                    assert(buf@[8 * (row - 1) + 6] == 0 && buf@[8 * (row - 1) + 7] == 0);
                }
            }
        }
        row += 1;
    }

    if wild {
        let sq = BlocksSquare::new(
            BlocksCol::from_inner(2).unwrap(),
            BlocksRow::from_inner(5).unwrap(),
        );
        blocks.set(sq, Some(Block::Wild));
        proof {
            crate::block::lemma_bs_idx_decompose(2, 5);
        }
    }
    proof {
        assert(spec_buf_cols_ok(buf@));
        assert(blocks@ =~= spec_board_of_buf(buf@, wild));
    }

    Ok(blocks)
}

/// Extracts the whole `Normal`-mode problem of one stage and seed.
pub fn extract_normal_problem(rom: &Rom, stage: u8, rng_state: [u8; 2], wild: bool) -> (r: Result<
    Problem,
    GameError,
>)
    ensures
        r is Ok ==> ({
            let p = r.unwrap();
            &&& p.spec_game_mode() == (GameMode::Normal {
                block_count_target: rom.spec_prg()[0x298D + (stage % 32) as int],
            })
            &&& p.spec_ground()@ == spec_normal_ground(rom.spec_chr(), stage).unwrap()
            &&& p.spec_blocks()@ == spec_board_of_buf(
                spec_normal_buf(rom.spec_prg(), stage, rng_state[0], rng_state[1]).unwrap(),
                wild,
            )
            &&& (wild ==> p.spec_blocks()@[bs_idx(2, 5)] == Some(Block::Wild))
            &&& (!wild ==> forall|v: int|
                0 <= v < 64 ==> p.spec_blocks()@[v] != Some(Block::Wild))
        }),
{
    let ground = match extract_normal_ground(rom, stage) {
        Ok(g) => g,
        Err(e) => {
            return Err(e);
        },
    };
    let blocks = match extract_normal_blocks(rom, stage, rng_state, wild) {
        Ok(b) => b,
        Err(e) => {
            return Err(e);
        },
    };
    let block_count_target = extract_normal_block_count_target(rom, stage);

    Problem::new_normal(ground, blocks, block_count_target)
}

} // verus!
