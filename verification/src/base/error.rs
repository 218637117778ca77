use std::sync::Arc;

use vstd::prelude::*;

use crate::base::signals::Signals;

verus! {

/// What kind of connection error occurred.
#[derive(Clone, Copy, Debug, PartialEq, Eq, Structural)]
pub enum ErrorKind {
    NoError,
    Internal,
    FrameEncoding,
    ProtocolViolation,
    CryptoBufferExceeded,
    KeyUpdate,
    AeadLimitReached,
    NoViablePath,
    Crypto(u8),
}

/// A connection error raised by the transport itself.
#[derive(Debug)]
pub struct QuicError {
    pub kind: ErrorKind,
    pub reason: Arc<String>,
}

impl QuicError {
    /// Whether this is an error of `kind` for `reason`.
    pub open spec fn says(&self, kind: ErrorKind, reason: Seq<char>) -> bool {
        self.kind == kind && self.reason@ == reason
    }

    pub fn new(kind: ErrorKind, reason: &str) -> (error: QuicError)
        ensures
            error.says(kind, reason@),
    {
        QuicError { kind, reason: Arc::new(reason.to_owned()) }
    }

    /// The same error, for someone else.
    pub fn share(&self) -> (error: QuicError)
        ensures
            error == *self,
    {
        QuicError { kind: self.kind, reason: self.reason.clone() }
    }
}

/// The cryptographic layer refused to seal or open a packet.
#[derive(Clone, Copy, Debug, PartialEq, Eq, Structural)]
pub enum CryptoError {
    Seal,
    Open,
    HeaderProtection,
}

/// Why a packet could not be put together.
#[derive(Debug)]
pub enum PacketError {
    /// Nothing can be sent until one of these happens.
    Blocked(Signals),
    /// The connection has failed.
    Connection(QuicError),
    /// The packet does not fit its buffer.
    Layout,
    /// Sealing failed.
    Crypto(CryptoError),
}

/// An error says one kind and one reason.
pub proof fn error_says_one_kind_and_one_reason(error: QuicError, kind: ErrorKind, reason: Seq<char>)
    ensures
        error.says(kind, reason) <==> kind == error.kind && reason == error.reason@,
{
}

} // verus!
