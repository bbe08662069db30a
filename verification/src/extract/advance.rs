//! Reconstructing `Advance`-mode problems from the ROM.

use vstd::prelude::*;

use crate::block::{Block, Blocks, BlocksCol, BlocksRow, BlocksSquare};
use crate::error::GameError;
use crate::extract::normal::{read_u16_le, spec_ground_from_bytes};
use crate::ground::{Ground, GroundCol, GroundElement, GroundRow, GroundSquare};
use crate::game_mode::GameMode;
use crate::problem::Problem;
use crate::rom::Rom;

verus! {

/// The character bank an `Advance`-mode stage is stored in.
pub open spec fn spec_advance_bank(chr: Seq<u8>, stage: u8) -> Seq<u8> {
    if stage < 25 {
        chr.subrange(0, 8192)
    } else {
        chr.subrange(16384, 24576)
    }
}

/// The board pointer of an `Advance`-mode stage.
pub open spec fn spec_advance_ptr(chr: Seq<u8>, stage: u8) -> int {
    let bank = spec_advance_bank(chr, stage);
    let off = if stage < 25 {
        0xA00 + 4 * stage as int
    } else {
        0x1A00 + 4 * (stage - 25) as int
    };
    (crate::extract::normal::spec_u16_le(bank, off) & 0x3FFF) as int
}

/// The layout pointer of an `Advance`-mode stage.
pub open spec fn spec_advance_gptr(chr: Seq<u8>, stage: u8) -> int {
    let bank = spec_advance_bank(chr, stage);
    let off = if stage < 25 {
        0xA02 + 4 * stage as int
    } else {
        0x1A02 + 4 * (stage - 25) as int
    };
    (crate::extract::normal::spec_u16_le(bank, off) & 0x3FFF) as int
}

/// The board stored at `ptr`: one byte per cell of six eight-byte
/// rows, the leftmost six of each row naming the cell's block.
pub open spec fn spec_advance_board(bank: Seq<u8>, ptr: int) -> Seq<Option<Block>> {
    Seq::new(
        64,
        |v: int|
            if crate::block::sq_index_valid(v) {
                Block::spec_from_inner(bank[ptr + 8 * (v / 8 - 1) + (v % 8 - 1)])
            } else {
                None
            },
    )
}

/// Extracts the whole `Advance`-mode problem of one stage: the held
/// block and remaining move count come from the two bytes after the
/// stage's 48 board bytes.
pub fn extract_advance_problem(rom: &Rom, stage: u8) -> (r: Result<Problem, GameError>)
    requires
        stage < 50,
    ensures
        r is Ok ==> ({
            let bank = spec_advance_bank(rom.spec_chr(), stage);
            let ptr = spec_advance_ptr(rom.spec_chr(), stage);
            let gptr = spec_advance_gptr(rom.spec_chr(), stage);
            let p = r.unwrap();
            &&& p.spec_game_mode() == (GameMode::Advance {
                block_holding: Block::spec_from_inner(bank[ptr + 49]).unwrap(),
                move_count_remain: bank[ptr + 48],
            })
            &&& p.spec_blocks()@ == spec_advance_board(bank, ptr)
            &&& p.spec_ground()@ == spec_ground_from_bytes(
                bank.subrange(gptr, gptr + 12),
                bank.subrange(gptr + 12, gptr + 24),
            )
        }),
{
    let bank = if stage < 25 {
        rom.chr_bank(0)
    } else {
        rom.chr_bank(2)
    };
    let ptrs_offset: usize = if stage < 25 {
        0xA00 + 4 * (stage as usize)
    } else {
        0x1A00 + 4 * ((stage - 25) as usize)
    };

    // The first pointer names the board and the two mode parameters.
    let ptr = (read_u16_le(bank, ptrs_offset) & 0x3FFF) as usize;
    if ptr + 50 > 8192 {
        return Err(GameError::RomBadPointer);
    }

    let mut blocks = Blocks::new();
    let mut row: u8 = 1;
    while row <= 6
        invariant
            1 <= row <= 7,
            bank@.len() == 8192,
            ptr + 50 <= 8192,
            blocks@.len() == 64,
            forall|v: int|
                0 <= v < 64 ==> #[trigger] blocks@[v] == if crate::block::sq_index_valid(v) && v
                    / 8 <= row - 1 {
                    Block::spec_from_inner(bank@[ptr + 8 * (v / 8 - 1) + (v % 8 - 1)])
                } else {
                    None
                },
            forall|v: int| 0 <= v < 64 ==> #[trigger] blocks@[v] != Some(Block::Wild),
        decreases 7 - row,
    {
        let base = ptr + (8 * (row - 1)) as usize;
        if bank[base + 6] != 0 || bank[base + 7] != 0 {
            return Err(GameError::RomBadBlockValue);
        }
        let mut col: u8 = 1;
        while col <= 6
            invariant
                1 <= col <= 7,
                1 <= row <= 6,
                bank@.len() == 8192,
                ptr + 50 <= 8192,
                base == ptr + 8 * (row - 1),
                blocks@.len() == 64,
                forall|v: int|
                    0 <= v < 64 ==> #[trigger] blocks@[v] == if crate::block::sq_index_valid(v)
                        && (v / 8 < row || (v / 8 == row && v % 8 < col)) {
                        Block::spec_from_inner(bank@[ptr + 8 * (v / 8 - 1) + (v % 8 - 1)])
                    } else {
                        None
                    },
                forall|v: int| 0 <= v < 64 ==> #[trigger] blocks@[v] != Some(Block::Wild),
            decreases 7 - col,
        {
            let value = bank[base + (col - 1) as usize];
            if value > 4 {
                // `Advance`-mode boards never hold a wildcard.
                return Err(GameError::RomBadBlockValue);
            }
            let cell = Block::from_inner(value);
            let sq = BlocksSquare::new(
                BlocksCol::from_inner(col).unwrap(),
                BlocksRow::from_inner(row).unwrap(),
            );
            proof {
                assert(Block::spec_from_inner(value) != Some(Block::Wild));
            }
            blocks.set(sq, cell);
            proof {
                crate::block::lemma_bs_idx_decompose(col as int, row as int);
            }
            col += 1;
        }
        row += 1;
    }
    proof {
        assert(blocks@ =~= spec_advance_board(bank@, ptr as int));
    }

    let move_count_remain = bank[ptr + 48];
    let holding_value = bank[ptr + 49];
    let block_holding = match Block::from_inner(holding_value) {
        Some(b) => b,
        None => {
            return Err(GameError::RomBadBlockValue);
        },
    };

    // The second pointer names the wall and pipe layout.
    let gptr = (read_u16_le(bank, ptrs_offset + 2) & 0x3FFF) as usize;
    if gptr + 24 > 8192 {
        return Err(GameError::RomBadPointer);
    }
    let ghost walls = bank@.subrange(gptr as int, gptr + 12);
    let ghost pipes = bank@.subrange(gptr + 12, gptr + 24);
    let mut ground = Ground::new();
    let mut grow: u8 = 1;
    while grow <= 12
        invariant
            1 <= grow <= 13,
            bank@.len() == 8192,
            gptr + 24 <= 8192,
            walls == bank@.subrange(gptr as int, gptr + 12),
            pipes == bank@.subrange(gptr + 12, gptr + 24),
            ground@.len() == 96,
            forall|v: int|
                0 <= v < 96 ==> #[trigger] ground@[v] == if v / 8 + 1 < grow {
                    spec_ground_from_bytes(walls, pipes)[v]
                } else {
                    None
                },
        decreases 13 - grow,
    {
        let wall_byte = bank[gptr + (grow - 1) as usize];
        let pipe_byte = bank[gptr + 12 + (grow - 1) as usize];
        let mut col: u8 = 1;
        while col <= 8
            invariant
                1 <= col <= 9,
                1 <= grow <= 12,
                bank@.len() == 8192,
                gptr + 24 <= 8192,
                walls == bank@.subrange(gptr as int, gptr + 12),
                pipes == bank@.subrange(gptr + 12, gptr + 24),
                wall_byte == walls[grow - 1],
                pipe_byte == pipes[grow - 1],
                ground@.len() == 96,
                forall|v: int|
                    0 <= v < 96 ==> #[trigger] ground@[v] == if v / 8 + 1 < grow || (v / 8 + 1
                        == grow && v % 8 + 1 < col) {
                        spec_ground_from_bytes(walls, pipes)[v]
                    } else {
                        None
                    },
            decreases 9 - col,
        {
            let shift: u8 = 8 - col;
            let elem: Option<GroundElement> = if pipe_byte & (1u8 << shift) != 0 {
                Some(GroundElement::Pipe)
            } else if wall_byte & (1u8 << shift) != 0 {
                Some(GroundElement::Wall)
            } else {
                None
            };
            let gc = GroundCol::from_inner(col).unwrap();
            let gr = GroundRow::from_inner(grow).unwrap();
            ground.set(GroundSquare::new(gc, gr), elem);
            proof {
                let v0 = crate::ground::ground_index(col as int, grow as int);
                assert(v0 / 8 + 1 == grow && v0 % 8 + 1 == col) by {
                    crate::text::lemma_div8(grow as int - 1, col as int - 1);
                }
                assert(elem == spec_ground_from_bytes(walls, pipes)[v0]);
                assert forall|v: int|
                    0 <= v < 96 implies #[trigger] ground@[v] == if v / 8 + 1 < grow || (v / 8
                    + 1 == grow && v % 8 + 1 < col + 1) {
                    spec_ground_from_bytes(walls, pipes)[v]
                } else {
                    None
                } by {
                    crate::text::lemma_div8(v / 8, v % 8);
                }
            }
            col += 1;
        }
        grow += 1;
    }
    proof {
        assert(ground@ =~= spec_ground_from_bytes(walls, pipes));
    }

    Problem::new_advance(ground, blocks, block_holding, move_count_remain)
}

} // verus!
