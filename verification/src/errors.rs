//! Error taxonomy of the locker. Every failure is terminal for the
//! triggering operation and leaves the stored state untouched.

use vstd::prelude::*;

verus! {

/// Why an operation was refused. Authorization and validation failures are
/// deterministic; `ConfidentialServiceError` stands for an opaque failure
/// reported by the external confidential value service.
#[derive(Clone, Copy, Debug, PartialEq, Eq, Structural)]
pub enum ErrorCode {
    /// A profile already exists for the principal.
    AlreadyInitialized,
    /// Incrementing the per-user document counter would overflow.
    CounterOverflow,
    /// The caller is not the required owner.
    Unauthorized,
    /// A share session was requested with a non-positive time to live.
    InvalidExpiry,
    /// A session already exists for the (document, verifier) pair.
    SessionAlreadyExists,
    /// The external confidential value service failed; nothing was committed.
    ConfidentialServiceError,
}

} // verus!
