//! Verified core of a chat-log archiver: a lossless codec between the
//! tagged wire format and typed rows, a staging buffer that bridges the
//! gap between ingestion and durable storage, a query engine that turns
//! large time ranges into bounded store queries, and the decision logic
//! of a liveness-reconciliation loop.

use vstd::prelude::*;

pub mod buffer;
pub mod dates;
pub mod irc;
pub mod live;
pub mod query;
pub mod schema;
pub mod text;
pub mod web;

verus! {

/// Error taxonomy of the library.
///
/// `NotFound` is a user-visible "no data" outcome; the three per-line
/// ingestion defects (`ParseError`, `UnknownMessageKind`,
/// `MissingRequiredTag`) mean the offending line is skipped; `InvalidParam`
/// rejects a malformed caller-supplied range before any store query is
/// issued; `InvalidAuthKey` rejects an unauthorized request.
#[derive(Debug, Clone, Copy, PartialEq, Eq, Structural)]
pub enum Error {
    NotFound,
    ParseError,
    UnknownMessageKind,
    MissingRequiredTag,
    InvalidParam,
    InvalidAuthKey,
}

} // verus!
