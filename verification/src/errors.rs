//! Errors surfaced by store configuration, checkpointing and recovery.

use vstd::prelude::*;

verus! {

/// `std::io::Error` carried through [`FasterError::IOError`]; the value is
/// opaque to this layer and only handed back to the caller.
#[verifier::external_type_specification]
#[verifier::external_body]
pub struct ExIoError(std::io::Error);

/// An error reported by the typed operation layer.
#[derive(Debug)]
pub enum FasterError<'a> {
    /// A filesystem operation failed; the underlying error is carried along.
    IOError(std::io::Error),
    /// The operation needs a disk-backed store but the handle has no
    /// backing directory.
    InvalidType,
    /// The engine could not recover from the given checkpoint tokens.
    RecoveryError,
    /// The engine failed to take a checkpoint.
    CheckpointError,
    /// The store was configured with invalid build parameters.
    BuilderError(&'a str),
}

impl<'a> FasterError<'a> {
    /// A short description of the error, for reporting.
    pub fn message(&self) -> (r: &'static str)
        ensures
            r@ =~= match self {
                FasterError::IOError(_) => "filesystem operation failed"@,
                FasterError::InvalidType => "cannot call method with in-memory store"@,
                FasterError::RecoveryError => "failed to recover"@,
                FasterError::CheckpointError => "checkpoint failed"@,
                FasterError::BuilderError(_) => "builder error"@,
            },
    {
        match self {
            FasterError::IOError(_) => "filesystem operation failed",
            FasterError::InvalidType => "cannot call method with in-memory store",
            FasterError::RecoveryError => "failed to recover",
            FasterError::CheckpointError => "checkpoint failed",
            FasterError::BuilderError(_) => "builder error",
        }
    }
}

impl<'a> From<std::io::Error> for FasterError<'a> {
    fn from(e: std::io::Error) -> (r: Self) {
        FasterError::IOError(e)
    }
}

impl<'a> vstd::std_specs::convert::FromSpecImpl<std::io::Error> for FasterError<'a> {
    open spec fn obeys_from_spec() -> bool {
        true
    }

    open spec fn from_spec(e: std::io::Error) -> Self {
        FasterError::IOError(e)
    }
}

} // verus!
