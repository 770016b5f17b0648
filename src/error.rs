use vstd::prelude::*;

verus! {

/// What stops the CPU.
#[derive(Debug, Clone, Copy, PartialEq, Eq, Structural)]
pub enum CpuError {
    /// The loaded prefix would grow past the 65,536 words of memory.
    ProgramTooLarge,
    /// The word at `pc` decodes to no instruction.
    InvalidInstruction { word: u16, pc: u16 },
    /// `run` made its whole budget of steps without leaving the loaded prefix.
    StepLimitReached,
}

} // verus!
