//! The failures of the program.

use vstd::prelude::*;

verus! {

/// Why the registry turned a call down. Either kind ends the call; nothing
/// has been written when one is returned.
#[derive(Debug, Copy, Clone, PartialEq, Eq, Structural)]
pub enum AnnounceError {
    /// The instruction is malformed or unknown, or a precondition of the
    /// call does not hold: the registry is initialized twice, an
    /// announcement is made before initialization, a record does not fit
    /// its slot.
    InvalidInstruction,
    /// A target account carries less than the rent-exemption minimum.
    NotRentExempt,
}

impl AnnounceError {
    /// The number under which the host reports this failure.
    pub open spec fn spec_code(self) -> u32 {
        match self {
            AnnounceError::InvalidInstruction => 0,
            AnnounceError::NotRentExempt => 1,
        }
    }

    /// The number under which the host reports this failure.
    pub fn code(&self) -> (c: u32)
        ensures
            c == self.spec_code(),
    {
        match self {
            AnnounceError::InvalidInstruction => 0,
            AnnounceError::NotRentExempt => 1,
        }
    }
}

/// How a call of the program can fail: with one of the registry's own two
/// failures, or because the accounts handed in cannot be used at all.
#[derive(Debug, Copy, Clone, PartialEq, Eq, Structural)]
pub enum ProcessError {
    /// The registry turned the call down; the host sees a custom error
    /// with the failure's code.
    Custom(AnnounceError),
    /// The call names fewer accounts than its instruction expects.
    NotEnoughAccountKeys,
    /// The account in the place of the rent sysvar is not that sysvar, or
    /// its data cannot be read as a rent rule.
    InvalidArgument,
    /// The rent-exemption minimum of the target account cannot be computed
    /// in 64 bits under the rent rule handed in.
    ArithmeticOverflow,
}

/// The registry's verdict as the outcome of a call.
pub open spec fn lift(verdict: Result<(), AnnounceError>) -> Result<(), ProcessError> {
    match verdict {
        Ok(()) => Ok(()),
        Err(e) => Err(ProcessError::Custom(e)),
    }
}

} // verus!
