//! The library's failure values.

use vstd::prelude::*;

verus! {

/// Everything that can go wrong in this library: malformed text,
/// broken construction invariants, a bad ROM image, or a solution that
/// fails to replay.
#[derive(Clone, Copy, Debug, PartialEq, Eq, Structural)]
pub enum GameError {
    /// A character encodes neither a block nor an empty cell.
    BadBlockChar,
    /// A character encodes neither a ground element nor an empty cell.
    BadGroundChar,
    /// A text form has the wrong number of lines.
    BadLineCount,
    /// A line of a text form has the wrong length.
    BadLineLength,
    /// A numeric field is empty, not a number, or too large.
    BadNumber,
    /// A numeric field encodes no block.
    BadBlockValue,
    /// A numeric field encodes no ground row.
    BadRowValue,
    /// The mode line names no known game mode.
    BadGameMode,
    /// The mode parameter line has the wrong number of fields.
    BadModeParams,
    /// A text form ends before its header is complete.
    MissingLine,
    /// A wall or pipe stands in the left five columns of the block
    /// area.
    WallInBlocksArea,
    /// A wall has no wall directly above it.
    FloatingWall,
    /// An `Advance`-mode board holds a wildcard.
    WildcardInAdvance,
    /// A replayed solution moves after the move budget is spent.
    OutOfMoves,
    /// A replayed solution names a row with no legal move.
    IllegalMove,
    /// A replayed move erases five or more blocks although that is
    /// forbidden.
    FiveForbidden,
    /// A replayed solution ends while legal moves remain.
    LegalMovesRemain,
    /// A replayed solution ends exactly on the target although that is
    /// forbidden.
    JustClearForbidden,
    /// A replayed solution ends above the target block count.
    NotSolved,
    /// A ROM image ends before its header is complete.
    RomTruncatedHeader,
    /// A ROM image lacks the iNES magic bytes.
    RomBadMagic,
    /// A ROM image ends inside the program data.
    RomTruncatedPrg,
    /// A ROM image's character data has the wrong size.
    RomBadChrSize,
    /// A table pointer in the ROM leaves its bank.
    RomBadPointer,
    /// A byte in the ROM encodes no board block.
    RomBadBlockValue,
    /// The board generator drew new blocks too often without filling
    /// the board.
    RomRngStuck,
    /// The board generator was told to fill a slot twice.
    RomSlotTaken,
}

impl GameError {
    /// A short description of the failure.
    pub fn message(self) -> &'static str {
        match self {
            GameError::BadBlockChar => "invalid block character",
            GameError::BadGroundChar => "invalid ground character",
            GameError::BadLineCount => "wrong number of lines",
            GameError::BadLineLength => "wrong line length",
            GameError::BadNumber => "invalid number",
            GameError::BadBlockValue => "invalid block value",
            GameError::BadRowValue => "invalid ground row",
            GameError::BadGameMode => "invalid game mode",
            GameError::BadModeParams => "wrong number of mode parameters",
            GameError::MissingLine => "missing line",
            GameError::WallInBlocksArea => "wall or pipe inside the block area",
            GameError::FloatingWall => "wall with no wall above it",
            GameError::WildcardInAdvance => "wildcard on an advance-mode board",
            GameError::OutOfMoves => "move made after the move budget was spent",
            GameError::IllegalMove => "move is not legal here",
            GameError::FiveForbidden => "five or more blocks erased at once",
            GameError::LegalMovesRemain => "legal moves remain at the end",
            GameError::JustClearForbidden => "exact-target clear is forbidden",
            GameError::NotSolved => "final board is not solved",
            GameError::RomTruncatedHeader => "ROM ends inside the header",
            GameError::RomBadMagic => "ROM lacks the iNES magic",
            GameError::RomTruncatedPrg => "ROM ends inside the program data",
            GameError::RomBadChrSize => "ROM character data has the wrong size",
            GameError::RomBadPointer => "ROM table pointer leaves its bank",
            GameError::RomBadBlockValue => "ROM byte encodes no block",
            GameError::RomRngStuck => "board generator made no progress",
            GameError::RomSlotTaken => "board slot filled twice",
        }
    }
}

} // verus!
