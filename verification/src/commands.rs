//! Names for the instruction families of the language, by dimensionality
//! and extension: the one-dimensional base set, what two and three dimensions
//! add, and the concurrency and filesystem groups that stay out of this
//! engine's scope.

use vstd::prelude::*;

verus! {

/// The Unefunge (one-dimensional) base instructions.
#[derive(Clone, Copy, PartialEq, Eq, Structural, Debug)]
pub enum BaseUneCommands {
    Space,
    Not,
    StringMode,
    Trampoline,
    Pop,
    Remainder,
    InputInteger,
    FetchCharacter,
    LoadSemantics,
    UnloadSemantics,
    Multiply,
    Add,
    OutputCharacter,
    Subtract,
    OutputInteger,
    Divide,
    Push,
    Duplicate,
    JumpOver,
    West,
    East,
    Away,
    Stop,
    FingerprintCall,
    Swap,
    EastWestIf,
    GreaterThan,
    Get,
    JumpForward,
    Iterate,
    ClearStack,
    Put,
    Quit,
    Reflect,
    StoreCharacter,
    StackUnderStack,
    AbsoluteDelta,
    GetSysInfo,
    NoOperation,
    BeginBlock,
    EndBlock,
    InputCharacter,
}

/// What Befunge (two dimensions) adds.
#[derive(Clone, Copy, PartialEq, Eq, Structural, Debug)]
pub enum BaseBeCommands {
    Base(BaseUneCommands),
    Left,
    Right,
    North,
    South,
    Compare,
    NorthSouthIf,
}

/// What Trefunge (three dimensions) would add.
#[derive(Clone, Copy, PartialEq, Eq, Structural, Debug)]
pub enum BaseTreCommands {
    Base(BaseBeCommands),
    High,
    Low,
    HighLow,
}

/// The concurrency instruction, outside this engine's scope.
#[derive(Clone, Copy, PartialEq, Eq, Structural, Debug)]
pub enum ConcurrentCommands {
    Split,
}

/// The filesystem instructions, outside this engine's scope.
#[derive(Clone, Copy, PartialEq, Eq, Structural, Debug)]
pub enum FilesystemCommands {
    Execute,
    InputFile,
    OutputFile,
}

} // verus!
