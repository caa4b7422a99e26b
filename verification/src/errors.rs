//! Error taxonomy: wire-decoding failures and block/transaction validation
//! failures. Both are always returned, never panicked.

use vstd::prelude::*;

verus! {

/// Failure to decode wire bytes into a message or an entity.
#[derive(Debug, Clone, PartialEq, Eq)]
pub enum DecodeError {
    /// The message had no bytes at all.
    EmptyPayload,
    /// The leading type byte matched no known message kind.
    UnknownMessageType(u8),
    /// The payload bytes did not parse as the expected entity.
    ParseError,
}

/// Rejection of a transaction or block; no shared state is mutated when one
/// of these is returned.
#[derive(Debug, Clone, PartialEq, Eq)]
pub enum ValidationError {
    /// A block already occupies the claimed height.
    DuplicateHeight,
    /// The block's height is not the next sequential height.
    HeightMismatch,
    /// The block's previous-block hash does not match the chain head.
    InvalidLink,
    /// The block's declared data hash does not match its transactions; the
    /// payload is the hash of the offending block.
    DataHashMismatch(Vec<u8>),
    /// The transaction carries no signature or no public key.
    MissingSignature,
    /// The transaction's signature does not verify.
    InvalidSignature,
    /// A height query beyond the current chain height.
    HeightOutOfRange,
}

/// A dispatch-loop failure: the message did not decode, or the decoded
/// entity was rejected.
#[derive(Debug, Clone, PartialEq, Eq)]
pub enum NodeError {
    Decode(DecodeError),
    Validation(ValidationError),
}

} // verus!
