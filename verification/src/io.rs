//! The outcomes of socket calls, as the protocol logic sees them.

use vstd::prelude::*;

verus! {

/// Why an input or output call failed.
#[derive(Debug, Clone, Copy, PartialEq, Eq, Structural)]
pub enum IoErrorKind {
    /// The call would have blocked.
    WouldBlock,
    /// The call ran into its timeout.
    TimedOut,
    /// A signal interrupted the call.
    Interrupted,
    /// The input ended in the middle of a value.
    UnexpectedEof,
    /// The call accepted no bytes at all.
    WriteZero,
    /// Any other failure.
    Other,
}

/// Whether a failure only means that the socket is not ready yet.
///
/// A receive timeout shows as `TimedOut` on Windows, and an idle non-blocking
/// socket as `WouldBlock` on Unix.
pub fn is_transient(kind: IoErrorKind) -> (r: bool)
    ensures
        r == (kind == IoErrorKind::WouldBlock || kind == IoErrorKind::TimedOut),
{
    matches!(kind, IoErrorKind::WouldBlock | IoErrorKind::TimedOut)
}

} // verus!
