//! Tests of ROM validation and problem extraction.

use flipull_solver::{
    extract_advance_problem, extract_normal_block_count_target, extract_normal_ground,
    extract_normal_problem, Block, GameError, GameMode, GroundCol, GroundElement, GroundRow,
    GroundSquare, Rom,
};

/// An iNES image of the right shape, all data bytes zero.
fn zero_image() -> Vec<u8> {
    let mut v = vec![0u8; 16 + 32768 + 32768];
    v[0] = 0x4e;
    v[1] = 0x45;
    v[2] = 0x53;
    v[3] = 0x1a;
    v
}

#[test]
fn rom_accepts_well_formed_image() {
    let rom = Rom::from_ines_bytes(&zero_image()).unwrap();
    assert_eq!(rom.prg().len(), 32768);
    assert_eq!(rom.chr_bank(3).len(), 8192);
}

#[test]
fn rom_rejects_malformed_images() {
    assert_eq!(Rom::from_ines_bytes(&[0u8; 4]).unwrap_err(), GameError::RomTruncatedHeader);

    let mut bad_magic = zero_image();
    bad_magic[3] = 0;
    assert_eq!(Rom::from_ines_bytes(&bad_magic).unwrap_err(), GameError::RomBadMagic);

    let short = &zero_image()[..100];
    assert_eq!(Rom::from_ines_bytes(short).unwrap_err(), GameError::RomTruncatedPrg);

    let wrong_chr = &zero_image()[..16 + 32768 + 100];
    assert_eq!(Rom::from_ines_bytes(wrong_chr).unwrap_err(), GameError::RomBadChrSize);
}

#[test]
fn extract_ground_reads_wall_bits() {
    let mut image = zero_image();
    // stage 0 uses character bank 2; its layout pointer sits at 0xC00
    let bank2 = 16 + 32768 + 2 * 8192;
    image[bank2 + 0xC00] = 0x00;
    image[bank2 + 0xC01] = 0x04;  // table pointer 0x0400
    // one wall byte per row; the top row gets walls in columns 1 and 8
    image[bank2 + 0x400] = 0x81;
    // one pipe bit in the second row, column 3
    image[bank2 + 0x400 + 12 + 1] = 0x20;
    let rom = Rom::from_ines_bytes(&image).unwrap();

    let ground = extract_normal_ground(&rom, 0).unwrap();
    let cell = |c: u8, r: u8| {
        ground.get(GroundSquare::new(
            GroundCol::from_inner(c).unwrap(),
            GroundRow::from_inner(r).unwrap(),
        ))
    };
    assert_eq!(cell(1, 1), Some(GroundElement::Wall));
    assert_eq!(cell(8, 1), Some(GroundElement::Wall));
    assert_eq!(cell(2, 1), None);
    assert_eq!(cell(3, 2), Some(GroundElement::Pipe));
    assert_eq!(cell(3, 3), None);
}

#[test]
fn extract_target_reads_prg_byte() {
    let mut image = zero_image();
    image[16 + 0x298D + 7] = 9;
    let rom = Rom::from_ines_bytes(&image).unwrap();
    assert_eq!(extract_normal_block_count_target(&rom, 7), 9);
}

#[test]
fn extract_normal_fails_when_generator_is_stuck() {
    // an all-zero program makes the generator draw the same color
    // forever, which exhausts that color's budget
    let rom = Rom::from_ines_bytes(&zero_image()).unwrap();
    assert_eq!(
        extract_normal_problem(&rom, 0, [0, 0], false).unwrap_err(),
        GameError::RomRngStuck
    );
}

#[test]
fn extract_normal_generates_a_board() {
    // varied program bytes let the generator draw all four colors
    let mut image = zero_image();
    for i in 0..32768usize {
        image[16 + i] = (i.wrapping_mul(37) % 251) as u8;
    }
    // keep the stage tables readable: target for stage 0
    image[16 + 0x298D] = 4;
    let rom = Rom::from_ines_bytes(&image).unwrap();

    let problem = extract_normal_problem(&rom, 0, [0, 0], false).expect(
        "the generation passes should fill the board",
    );
    assert_eq!(problem.game_mode(), GameMode::Normal { block_count_target: 4 });
    // stage 0 plans 9 blocks in the first pass and 16 in the second
    assert_eq!(problem.blocks().block_count(), 25);
}

#[test]
fn extract_advance_reads_stage() {
    let mut image = zero_image();
    // stage 0 uses character bank 0; its pointer pair sits at 0xA00
    let bank0 = 16 + 32768;
    image[bank0 + 0xA00] = 0x00;
    image[bank0 + 0xA01] = 0x10;  // board data at 0x1000
    // an empty board, ten moves, held block 2
    image[bank0 + 0x1000 + 48] = 10;
    image[bank0 + 0x1000 + 49] = 2;
    // the ground pointer at 0xA02 stays zero: an empty map
    let rom = Rom::from_ines_bytes(&image).unwrap();

    let problem = extract_advance_problem(&rom, 0).unwrap();
    assert_eq!(
        problem.game_mode(),
        GameMode::Advance { block_holding: Block::Normal2, move_count_remain: 10 }
    );
    assert_eq!(problem.blocks().block_count(), 0);
}

#[test]
fn extract_advance_rejects_bad_held_block() {
    // a zero image leaves the held-block byte zero, which encodes no
    // block
    let rom = Rom::from_ines_bytes(&zero_image()).unwrap();
    assert_eq!(extract_advance_problem(&rom, 0).unwrap_err(), GameError::RomBadBlockValue);
}
