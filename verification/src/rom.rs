//! The game's ROM image: program data and character banks.

use vstd::prelude::*;

use crate::error::GameError;

verus! {

/// Length of the program data.
pub const PRG_LEN: usize = 32768;

/// Length of one character bank.
pub const CHR_BANK_LEN: usize = 8192;

/// Number of character banks.
pub const CHR_BANK_COUNT: usize = 4;

/// Length of the whole character data.
pub const CHR_LEN: usize = 32768;

/// A validated iNES image holding exactly one 32 KiB program and four
/// 8 KiB character banks.
#[derive(Debug)]
pub struct Rom {
    pub(crate) prg: Vec<u8>,
    pub(crate) chr: Vec<u8>,
}

/// A well-formed iNES byte image for this game: the magic, then the
/// program data, then the character data, nothing else.
pub open spec fn spec_ines_valid(b: Seq<u8>) -> bool {
    &&& b.len() == 16 + 32768 + 32768
    &&& b[0] == 0x4eu8
    &&& b[1] == 0x45u8
    &&& b[2] == 0x53u8
    &&& b[3] == 0x1au8
}

impl Rom {
    #[verifier::type_invariant]
    pub(crate) open(crate) spec fn type_inv(self) -> bool {
        &&& self.prg@.len() == 32768
        &&& self.chr@.len() == 32768
    }

    pub open(crate) spec fn spec_prg(self) -> Seq<u8> {
        self.prg@
    }

    pub open(crate) spec fn spec_chr(self) -> Seq<u8> {
        self.chr@
    }

    /// Validates and splits an iNES image.
    pub fn from_ines_bytes(ines: &[u8]) -> (r: Result<Rom, GameError>)
        ensures
            r is Ok <==> spec_ines_valid(ines@),
            r is Ok ==> ({
                let rom = r.unwrap();
                &&& rom.spec_prg() == ines@.subrange(16int, 32784int)
                &&& rom.spec_chr() == ines@.subrange(32784int, 65552int)
            }),
            r is Err ==> (r.unwrap_err() == GameError::RomTruncatedHeader || r.unwrap_err()
                == GameError::RomBadMagic || r.unwrap_err() == GameError::RomTruncatedPrg
                || r.unwrap_err() == GameError::RomBadChrSize),
    {
        if ines.len() < 16 {
            return Err(GameError::RomTruncatedHeader);
        }
        if !(ines[0] == 0x4e && ines[1] == 0x45 && ines[2] == 0x53 && ines[3] == 0x1a) {
            return Err(GameError::RomBadMagic);
        }
        if ines.len() < 16 + PRG_LEN {
            return Err(GameError::RomTruncatedPrg);
        }
        if ines.len() != 16 + PRG_LEN + CHR_LEN {
            return Err(GameError::RomBadChrSize);
        }
        let mut prg: Vec<u8> = Vec::new();
        let mut i: usize = 16;
        while i < 16 + PRG_LEN
            invariant
                16 <= i <= 16 + 32768,
                ines@.len() == 16 + 32768 + 32768,
                prg@.len() == i - 16,
                forall|j: int| 0 <= j < i - 16 ==> prg@[j] == ines@[16 + j],
            decreases 16 + PRG_LEN - i,
        {
            prg.push(ines[i]);
            i += 1;
        }
        let mut chr: Vec<u8> = Vec::new();
        while i < 16 + PRG_LEN + CHR_LEN
            invariant
                16 + 32768 <= i <= 16 + 32768 + 32768,
                ines@.len() == 16 + 32768 + 32768,
                chr@.len() == i - 16 - 32768,
                forall|j: int| 0 <= j < i - 16 - 32768 ==> chr@[j] == ines@[16 + 32768 + j],
            decreases 16 + PRG_LEN + CHR_LEN - i,
        {
            chr.push(ines[i]);
            i += 1;
        }
        proof {
            assert(prg@ =~= ines@.subrange(16int, 32784int));
            assert(chr@ =~= ines@.subrange(32784int, 65552int));
        }
        Ok(Rom { prg, chr })
    }

    /// The program data.
    pub fn prg(&self) -> (r: &[u8])
        ensures
            r@ == self.spec_prg(),
            r@.len() == 32768,
    {
        proof {
            use_type_invariant(self);
        }
        self.prg.as_slice()
    }

    /// One character bank.
    pub fn chr_bank(&self, id: usize) -> (r: &[u8])
        requires
            id < 4,
        ensures
            r@ == self.spec_chr().subrange(8192 * id as int, 8192 * (id + 1)),
            r@.len() == 8192,
    {
        proof {
            use_type_invariant(self);
        }
        let whole = self.chr.as_slice();
        let bank = &whole[CHR_BANK_LEN * id..CHR_BANK_LEN * (id + 1)];
        bank
    }
}

} // verus!
