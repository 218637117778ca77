//! The life of a connection's handles, and the first reason for which it closes.
use vstd::prelude::*;

use crate::base::error::QuicError;

verus! {

/// An error code and a reason given by the application.
#[derive(Debug)]
pub struct AppError {
    pub code: u64,
    pub reason: String,
}

/// What a peer's close says.
#[derive(Debug)]
pub struct PeerClose {
    pub code: u64,
    pub reason: String,
}

/// A connection error, whoever raised it.
#[derive(Debug)]
pub enum ConnectionError {
    App(AppError),
    Quic(QuicError),
}

/// The source of a connection's first close request.
#[derive(Debug)]
pub enum CloseReason {
    App(AppError),
    Peer(PeerClose),
    Internal(QuicError),
}

impl CloseReason {
    pub open spec fn of(error: ConnectionError) -> CloseReason {
        match error {
            ConnectionError::App(error) => CloseReason::App(error),
            ConnectionError::Quic(error) => CloseReason::Internal(error),
        }
    }

    pub fn from_error(error: ConnectionError) -> (reason: CloseReason)
        ensures
            reason == CloseReason::of(error),
    {
        match error {
            ConnectionError::App(error) => CloseReason::App(error),
            ConnectionError::Quic(error) => CloseReason::Internal(error),
        }
    }
}

/// The handles on one connection, and why it closes. Whoever drives the connection takes the
/// reason once.
#[derive(Debug)]
pub struct ArcConnection {
    pub handles: u64,
    pub reason: Option<CloseReason>,
    pub taken: bool,
}

impl ArcConnection {
    /// Whether the connection was asked to close.
    pub open spec fn is_closed(&self) -> bool {
        self.reason is Some || self.taken
    }

    pub fn new() -> (connection: ArcConnection)
        ensures
            connection.handles == 1,
            connection.reason is None,
            !connection.taken,
    {
        ArcConnection { handles: 1, reason: None, taken: false }
    }

    /// Makes another handle.
    pub fn clone_handle(&mut self)
        requires
            0 < old(self).handles < u64::MAX,
        ensures
            final(self).handles == old(self).handles + 1,
            final(self).reason == old(self).reason,
            final(self).taken == old(self).taken,
    {
        self.handles = self.handles + 1;
    }

    /// Asks the connection to close. Only the first reason counts; returns whether this is it.
    pub fn close(&mut self, reason: CloseReason) -> (first: bool)
        ensures
            first == !old(self).is_closed(),
            final(self).handles == old(self).handles,
            final(self).taken == old(self).taken,
            final(self).reason == if first { Some(reason) } else { old(self).reason },
    {
        if self.taken || self.reason.is_some() {
            return false;
        }
        self.reason = Some(reason);
        true
    }

    /// Drops a handle. The last one closes the connection; returns whether it did so first.
    pub fn drop_handle(&mut self) -> (first: bool)
        requires
            old(self).handles > 0,
        ensures
            final(self).handles == old(self).handles - 1,
            final(self).taken == old(self).taken,
            first == (old(self).handles == 1 && !old(self).is_closed()),
            if first {
                final(self).reason matches Some(CloseReason::App(error)) && error.code == 0 && error.reason@
                    == "last connection handle dropped"@
            } else {
                final(self).reason == old(self).reason
            },
    {
        self.handles = self.handles - 1;
        if self.handles > 0 {
            return false;
        }
        self.close(CloseReason::App(AppError { code: 0, reason: "last connection handle dropped".to_owned() }))
    }

    /// Takes the reason, the first time there is one.
    pub fn take_reason(&mut self) -> (reason: Option<CloseReason>)
        ensures
            reason == old(self).reason,
            final(self).handles == old(self).handles,
            final(self).reason is None,
            final(self).taken == (old(self).taken || old(self).reason is Some),
    {
        let mut reason: Option<CloseReason> = None;
        std::mem::swap(&mut reason, &mut self.reason);
        if reason.is_some() {
            self.taken = true;
        }
        reason
    }
}

/// An error of the application closes a connection as the application's, any other as an internal one.
pub proof fn reason_tells_who_closed(application: AppError, other: QuicError)
    ensures
        CloseReason::of(ConnectionError::App(application)) == CloseReason::App(application),
        CloseReason::of(ConnectionError::Quic(other)) == CloseReason::Internal(other),
{
}

/// A connection counts as closed from its first reason on, also once that was taken.
pub proof fn connection_stays_closed(connection: ArcConnection)
    ensures
        connection.is_closed() <==> connection.reason is Some || connection.taken,
{
}

} // verus!
