//! The two supported target architectures and their calling-convention limits.
use vstd::prelude::*;

verus! {

/// A target architecture of the compiled code.
#[derive(Clone, Copy, Debug, PartialEq, Eq, Structural)]
pub enum Arch {
    /// The x86-family target: integer alignments are capped at 8 bytes and two
    /// integer registers carry a return value.
    X86_64,
    /// The ARM-family target: 16-byte alignment is honoured and four integer
    /// registers carry a return value.
    Aarch64,
}

/// Number of leading argument words that travel in integer registers.
pub const REGISTER_WORDS: usize = 8;

impl Arch {
    /// Largest alignment that an argument may ask for on this architecture.
    pub open spec fn max_align_spec(self) -> u64 {
        match self {
            Arch::X86_64 => 8,
            Arch::Aarch64 => 16,
        }
    }

    /// Number of 64-bit words in the return register buffer.
    pub open spec fn return_registers_spec(self) -> usize {
        match self {
            Arch::X86_64 => 2,
            Arch::Aarch64 => 4,
        }
    }

    /// Largest alignment that an argument may ask for on this architecture.
    #[verifier::when_used_as_spec(max_align_spec)]
    pub fn max_align(self) -> (align: u64)
        ensures
            align == self.max_align_spec(),
    {
        match self {
            Arch::X86_64 => 8,
            Arch::Aarch64 => 16,
        }
    }

    /// Number of 64-bit words in the return register buffer.
    #[verifier::when_used_as_spec(return_registers_spec)]
    pub fn return_registers(self) -> (count: usize)
        ensures
            count == self.return_registers_spec(),
    {
        match self {
            Arch::X86_64 => 2,
            Arch::Aarch64 => 4,
        }
    }
}

} // verus!
