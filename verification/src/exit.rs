//! The process exit status each failure maps to, in the sysexits convention.

use vstd::prelude::*;
use crate::error::DomainError;

verus! {

/// The command line was wrong.
pub const USAGE: u8 = 64;

/// The input was read but its content is not usable.
pub const DATA_ERROR: u8 = 65;

/// The input does not exist.
pub const NO_INPUT: u8 = 66;

/// The sandbox refused a path.
pub const NO_PERMISSION: u8 = 77;

/// The output could not be created.
pub const CANNOT_CREATE: u8 = 73;

/// Something went wrong inside the renderer itself.
pub const SOFTWARE: u8 = 70;

/// The exit status for `error`.
pub open spec fn exit_code_spec(error: DomainError) -> u8 {
    match error {
        DomainError::InputNotFound { .. } => 66,
        DomainError::InputUnreadable { .. } => 65,
        DomainError::ParseFailed { .. } => 65,
        DomainError::InvalidTheme { .. } => 65,
        DomainError::UnknownTheme { .. } => 65,
        DomainError::OutputUnwritable { .. } => 73,
        DomainError::LayoutFailed { .. } => 70,
        DomainError::PathOutsideRoot { .. } => 77,
        DomainError::ReferenceOutsideRoot { .. } => 77,
        DomainError::RootNotADirectory { .. } => 77,
    }
}

/// Whether the sandbox refused something.
pub open spec fn confinement_spec(error: DomainError) -> bool {
    error is PathOutsideRoot || error is ReferenceOutsideRoot || error is RootNotADirectory
}

/// The exit status for `error`: a missing input, unusable content, an
/// unwritable output, a layout failure and a sandbox refusal each have their
/// own.
pub fn code_for(error: &DomainError) -> (r: u8)
    ensures
        r == exit_code_spec(*error),
{
    match error {
        DomainError::InputNotFound { .. } => NO_INPUT,
        DomainError::InputUnreadable { .. } => DATA_ERROR,
        DomainError::ParseFailed { .. } => DATA_ERROR,
        DomainError::InvalidTheme { .. } => DATA_ERROR,
        DomainError::UnknownTheme { .. } => DATA_ERROR,
        DomainError::OutputUnwritable { .. } => CANNOT_CREATE,
        DomainError::LayoutFailed { .. } => SOFTWARE,
        DomainError::PathOutsideRoot { .. } => NO_PERMISSION,
        DomainError::ReferenceOutsideRoot { .. } => NO_PERMISSION,
        DomainError::RootNotADirectory { .. } => NO_PERMISSION,
    }
}

/// Whether the sandbox refused something.
pub fn is_confinement(error: &DomainError) -> (r: bool)
    ensures
        r == confinement_spec(*error),
{
    match error {
        DomainError::PathOutsideRoot { .. } => true,
        DomainError::ReferenceOutsideRoot { .. } => true,
        DomainError::RootNotADirectory { .. } => true,
        _ => false,
    }
}

/// No failure exits as success or as a usage problem, and every sandbox
/// refusal, and only a sandbox refusal, exits with the permission status.
pub proof fn lemma_exit_codes_tell_failures_apart(error: DomainError)
    ensures
        exit_code_spec(error) != 0,
        exit_code_spec(error) != USAGE,
        (exit_code_spec(error) == NO_PERMISSION) == confinement_spec(error),
{
}

} // verus!
