//! The failures that decoding, building and dispatching a batch can report.
use solana_program::program_error::ProgramError;
use vstd::prelude::*;

verus! {

/// Why a buffer could not be decoded, a batch not be built, or a dispatch not
/// be completed.
#[derive(Debug, PartialEq, Eq)]
pub enum AnyIxError {
    /// The buffer is empty or a header array or a payload is cut short; the
    /// fields of a batch disagree; or a batch does not fit the handle list it
    /// is dispatched against.
    FormatError,
    /// More than 255 sub-operations, or a payload or handle list longer than
    /// 255.
    LimitExceeded,
    /// Sub-operation `index` targets the dispatching program itself.
    SelfTargetViolation { index: u8 },
    /// The program invoked for sub-operation `index` failed with `cause`.
    ExecutorError { index: u8, cause: ProgramError },
}

} // verus!
