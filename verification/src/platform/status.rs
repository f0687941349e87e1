//! What the exit status of a run tells whoever started it.

use vstd::prelude::*;

use crate::engine::generate::{Fault, GenerateError};

verus! {

/// The exit status a failed generate ends with: 2 when the volume is not as
/// generate requires (it already holds values, or holds invalid ones), 3 when
/// orma cannot produce a declared type, and 1 for any other failure.
pub open spec fn generate_status(fault: Fault) -> u8 {
    match fault {
        Fault::AlreadyHeld(_) => 2,
        Fault::InvalidValues(_) => 2,
        Fault::Unable { .. } => 3,
        _ => 1,
    }
}

/// The exit status a failed generate ends with.
pub fn generate_exit(err: &GenerateError) -> (status: u8)
    ensures
        status == generate_status(err@),
{
    match err {
        GenerateError::AlreadyHeld(_) | GenerateError::InvalidValues(_) => 2,
        GenerateError::Unable { .. } => 3,
        _ => 1,
    }
}

/// How a resolve failed, as far as whoever started it needs to know.
#[derive(Debug, Clone, Copy, PartialEq, Eq)]
pub enum ResolveFailure {
    /// The command line, a path that is not a directory, an unreadable
    /// schema or a write that failed.
    Unusable,
    /// The volume fails its schema.
    Unsatisfied,
    /// The schema names a version or a field type this build does not
    /// implement.
    Unsupported,
}

/// The exit status a failed resolve ends with: 2 when the volume fails its
/// schema, 3 when orma cannot act on the schema, and 1 for any other failure.
pub open spec fn resolve_status(failure: ResolveFailure) -> u8 {
    match failure {
        ResolveFailure::Unusable => 1,
        ResolveFailure::Unsatisfied => 2,
        ResolveFailure::Unsupported => 3,
    }
}

/// The exit status a failed resolve ends with.
pub fn resolve_exit(failure: ResolveFailure) -> (status: u8)
    ensures
        status == resolve_status(failure),
{
    match failure {
        ResolveFailure::Unusable => 1,
        ResolveFailure::Unsatisfied => 2,
        ResolveFailure::Unsupported => 3,
    }
}

} // verus!
