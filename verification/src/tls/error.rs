use vstd::prelude::*;

use crate::base::text::join;

verus! {

/// The level at which TLS handshake bytes travel.
#[derive(Clone, Copy, Debug, PartialEq, Eq, Structural)]
pub enum CryptoLevel {
    Initial,
    Handshake,
    OneRtt,
}

/// What the peer did wrong.
#[derive(Debug)]
pub enum PeerTlsError {
    Protocol(String),
    ResourceLimit { resource: &'static str, limit: usize },
    WrongCryptoLevel { expected: CryptoLevel, actual: CryptoLevel },
}

/// An alert that ends the handshake.
#[derive(Clone, Copy, Debug, PartialEq, Eq, Structural)]
pub struct TlsAlert {
    pub description: u8,
}

/// An inconsistency inside the TLS layer.
#[derive(Clone, Copy, Debug)]
pub enum TlsInvariantError {
    Missing(&'static str),
    EventAfterTerminal,
}

/// A configuration that cannot be used.
#[derive(Debug)]
pub enum TlsConfigError {
    Invalid(String),
    RootCertsNotSet,
}

#[derive(Debug)]
pub enum TlsError {
    Peer(PeerTlsError),
    Alert(TlsAlert),
    Invariant(TlsInvariantError),
    Config(TlsConfigError),
}

/// `TlsError` with its text read.
pub enum TlsFault {
    Protocol(Seq<char>),
    ResourceLimit { resource: Seq<char>, limit: usize },
    WrongCryptoLevel { expected: CryptoLevel, actual: CryptoLevel },
    Alert(TlsAlert),
    Missing(Seq<char>),
    EventAfterTerminal,
    InvalidConfig(Seq<char>),
    RootCertsNotSet,
}

pub open spec fn level_name(level: CryptoLevel) -> Seq<char> {
    match level {
        CryptoLevel::Initial => "Initial"@,
        CryptoLevel::Handshake => "Handshake"@,
        CryptoLevel::OneRtt => "OneRtt"@,
    }
}

impl CryptoLevel {
    pub fn name(self) -> (name: &'static str)
        ensures
            name@ == level_name(self),
    {
        match self {
            CryptoLevel::Initial => "Initial",
            CryptoLevel::Handshake => "Handshake",
            CryptoLevel::OneRtt => "OneRtt",
        }
    }
}

impl TlsError {
    pub open spec fn view(&self) -> TlsFault {
        match *self {
            TlsError::Peer(PeerTlsError::Protocol(reason)) => TlsFault::Protocol(reason@),
            TlsError::Peer(PeerTlsError::ResourceLimit { resource, limit }) => TlsFault::ResourceLimit {
                resource: resource@,
                limit,
            },
            TlsError::Peer(PeerTlsError::WrongCryptoLevel { expected, actual }) => TlsFault::WrongCryptoLevel {
                expected,
                actual,
            },
            TlsError::Alert(alert) => TlsFault::Alert(alert),
            TlsError::Invariant(TlsInvariantError::Missing(what)) => TlsFault::Missing(what@),
            TlsError::Invariant(TlsInvariantError::EventAfterTerminal) => TlsFault::EventAfterTerminal,
            TlsError::Config(TlsConfigError::Invalid(reason)) => TlsFault::InvalidConfig(reason@),
            TlsError::Config(TlsConfigError::RootCertsNotSet) => TlsFault::RootCertsNotSet,
        }
    }

    /// Whether the peer broke the protocol for `reason`.
    pub open spec fn is_protocol(&self, reason: Seq<char>) -> bool {
        self.view() == TlsFault::Protocol(reason)
    }

    /// Whether the peer asked for more of `resource` than `limit`.
    pub open spec fn is_limit(&self, resource: Seq<char>, limit: usize) -> bool {
        self.view() == (TlsFault::ResourceLimit { resource, limit })
    }

    /// A one-line description.
    pub fn message(&self) -> (text: String)
        ensures
            text@ == match self.view() {
                TlsFault::Protocol(reason) => "peer TLS protocol error: "@ + reason,
                TlsFault::ResourceLimit { resource, .. } => "peer exceeds the limit of "@ + resource,
                TlsFault::WrongCryptoLevel { expected, actual } => "wrong CRYPTO level: expected "@ + level_name(
                    expected,
                ) + ", got "@ + level_name(actual),
                TlsFault::Alert(_) => "TLS alert"@,
                TlsFault::Missing(what) => "missing "@ + what,
                TlsFault::EventAfterTerminal => "event after the terminal state"@,
                TlsFault::InvalidConfig(reason) => "invalid TLS configuration: "@ + reason,
                TlsFault::RootCertsNotSet => "root certificates are not set"@,
            },
    {
        match self {
            TlsError::Peer(PeerTlsError::Protocol(reason)) => join("peer TLS protocol error: ", reason.as_str()),
            TlsError::Peer(PeerTlsError::ResourceLimit { resource, .. }) => join(
                "peer exceeds the limit of ",
                resource,
            ),
            TlsError::Peer(PeerTlsError::WrongCryptoLevel { expected, actual }) => {
                let expectation = join("wrong CRYPTO level: expected ", expected.name());
                join(join(expectation.as_str(), ", got ").as_str(), actual.name())
            },
            TlsError::Alert(_) => "TLS alert".to_owned(),
            TlsError::Invariant(TlsInvariantError::Missing(what)) => join("missing ", what),
            TlsError::Invariant(TlsInvariantError::EventAfterTerminal) => "event after the terminal state".to_owned(),
            TlsError::Config(TlsConfigError::Invalid(reason)) => join(
                "invalid TLS configuration: ",
                reason.as_str(),
            ),
            TlsError::Config(TlsConfigError::RootCertsNotSet) => "root certificates are not set".to_owned(),
        }
    }
}

/// What is read of an error is all that it says.
pub proof fn errors_are_read_as_they_are(
    reason: String,
    resource: &'static str,
    limit: usize,
    expected: CryptoLevel,
    actual: CryptoLevel,
    alert: TlsAlert,
)
    ensures
        TlsError::Peer(PeerTlsError::Protocol(reason)).view() == TlsFault::Protocol(reason@),
        TlsError::Peer(PeerTlsError::ResourceLimit { resource, limit }).view() == (TlsFault::ResourceLimit {
            resource: resource@,
            limit,
        }),
        TlsError::Peer(PeerTlsError::WrongCryptoLevel { expected, actual }).view() == (TlsFault::WrongCryptoLevel {
            expected,
            actual,
        }),
        TlsError::Alert(alert).view() == TlsFault::Alert(alert),
        TlsError::Invariant(TlsInvariantError::Missing(resource)).view() == TlsFault::Missing(resource@),
        TlsError::Invariant(TlsInvariantError::EventAfterTerminal).view() == TlsFault::EventAfterTerminal,
        TlsError::Config(TlsConfigError::Invalid(reason)).view() == TlsFault::InvalidConfig(reason@),
        TlsError::Config(TlsConfigError::RootCertsNotSet).view() == TlsFault::RootCertsNotSet,
{
}

/// An error is a protocol error for one reason, or a limit on one resource.
pub proof fn errors_are_told_apart(error: TlsError, text: Seq<char>, limit: usize)
    ensures
        error.is_protocol(text) <==> (error matches TlsError::Peer(PeerTlsError::Protocol(reason)) && reason@ == text),
        error.is_limit(text, limit) <==> (error matches TlsError::Peer(PeerTlsError::ResourceLimit {
            resource,
            limit: most,
        }) && resource@ == text && most == limit),
        level_name(CryptoLevel::Initial) == "Initial"@,
        level_name(CryptoLevel::Handshake) == "Handshake"@,
        level_name(CryptoLevel::OneRtt) == "OneRtt"@,
{
}

} // verus!
