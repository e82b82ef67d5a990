//! The ways an interaction with the child process can fail.

use vstd::prelude::*;

verus! {

/// Why a step of the interaction failed.
///
/// Every failure is an ordinary return value: none of the operations of
/// this library aborts the calling thread.
#[derive(Clone, Copy, Debug, PartialEq, Eq, Structural)]
pub enum ExpectError {
    /// The child could not be created (for example, the executable is missing).
    SpawnFailed,
    /// Writing to the child's input stream failed (for example, a broken pipe).
    WriteFailed,
    /// The deadline elapsed before any pattern matched.
    TimedOut,
    /// Reading from the child's output stream failed or the stream closed.
    ReadFailed,
    /// The child's output was not valid text.
    DecodeFailed,
    /// A pattern handed to `expect` is not a valid regular expression.
    InvalidPattern,
    /// Waiting on the released child failed; observable, never a crash.
    ReapFailed,
}

} // verus!
