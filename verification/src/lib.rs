//! Confidential document locker: a user registry, a document store, and a
//! share-session manager layered on a ledger-style state.
//!
//! A document's sensitive field is tracked only as an opaque confidential
//! handle minted by an external confidential value service; every share grant
//! gets its own derived handle so that revoking one grant can never affect
//! another grant or the source document. This crate verifies the
//! access-control and handle-lifecycle logic; the external service calls are
//! performed by the caller, which hands their results in as plain values.

pub mod errors;
pub mod records;
pub mod locker;
