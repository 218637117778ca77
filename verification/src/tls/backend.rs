//! Calls into a QUIC connection of rustls.
//!
//! A connection is opaque. What can be read off it is named; what reading and writing turn it into
//! also depends on random numbers and on the clock, so that a relation stands for it.
use vstd::prelude::*;

use crate::tls::error::TlsAlert;

verus! {

#[verifier::external_type_specification]
#[verifier::external_body]
pub struct ExConnection(rustls::quic::Connection);

/// Keys that came with a write.
pub enum KeyStep {
    Unchanged,
    Handshake { opening: rustls::quic::DirectionalKeys, sealing: rustls::quic::DirectionalKeys },
    OneRtt {
        opening: rustls::quic::DirectionalKeys,
        sealing: rustls::quic::DirectionalKeys,
        next_secret: rustls::quic::Secrets,
    },
}

/// Which end a connection is, with the name a client asked its server for.
#[derive(Debug)]
pub enum Side {
    Client,
    Server(Option<String>),
}

/// `Side` with its text read.
pub enum SideView {
    Client,
    Server(Option<Seq<char>>),
}

impl Side {
    pub open spec fn view(&self) -> SideView {
        match *self {
            Side::Client => SideView::Client,
            Side::Server(Some(name)) => SideView::Server(Some(name@)),
            Side::Server(None) => SideView::Server(None),
        }
    }
}

pub open spec fn outcome(result: Result<(), String>) -> Result<(), Seq<char>> {
    match result {
        Ok(_) => Ok(()),
        Err(reason) => Err(reason@),
    }
}

pub open spec fn optional_bytes(bytes: Option<Vec<u8>>) -> Option<Seq<u8>> {
    match bytes {
        Some(bytes) => Some(bytes@),
        None => None,
    }
}

/// Whether reading handshake bytes may turn a connection into another with this outcome.
pub uninterp spec fn may_read(
    before: rustls::quic::Connection,
    bytes: Seq<u8>,
    after: rustls::quic::Connection,
    result: Result<(), Seq<char>>,
) -> bool;

/// Whether writing may turn a connection into another, with these handshake bytes and keys.
pub uninterp spec fn may_write(
    before: rustls::quic::Connection,
    after: rustls::quic::Connection,
    output: Seq<u8>,
    keys: KeyStep,
) -> bool;

/// How many messages and key changes a connection has yet to hand out.
pub uninterp spec fn queued(connection: rustls::quic::Connection) -> nat;

/// The fatal alert that has arisen, by its code.
pub uninterp spec fn alert_of(connection: rustls::quic::Connection) -> Option<TlsAlert>;

/// Whether the handshake is still under way.
pub uninterp spec fn handshaking(connection: rustls::quic::Connection) -> bool;

/// The transport parameters of the peer, once they have come.
pub uninterp spec fn parameters_of(connection: rustls::quic::Connection) -> Option<Seq<u8>>;

/// Which end the connection is.
pub uninterp spec fn side_of(connection: rustls::quic::Connection) -> SideView;

/// The application protocol agreed on.
pub uninterp spec fn protocol_of(connection: rustls::quic::Connection) -> Option<Seq<u8>>;

/// Whether the handshake resumed an earlier session.
pub uninterp spec fn resumed(connection: rustls::quic::Connection) -> bool;

/// The key material of some length for a label and a context.
pub uninterp spec fn exported(
    connection: rustls::quic::Connection,
    length: nat,
    label: Seq<u8>,
    context: Option<Seq<u8>>,
) -> Option<Seq<u8>>;

/// `rustls::quic::Connection::read_hs`: hands it the bytes; on failure the text of its error.
#[verifier::external_body]
pub(crate) fn read_hs(connection: &mut rustls::quic::Connection, bytes: &[u8]) -> (result: Result<(), String>)
    ensures
        may_read(*old(connection), bytes@, *final(connection), outcome(result)),
{
    connection.read_hs(bytes).map_err(|error| error.to_string())
}

/// `rustls::quic::Connection::write_hs` on an empty buffer: the bytes it wrote, and the keys to use
/// from there on. Whatever it hands out leaves its queue.
#[verifier::external_body]
pub(crate) fn write_hs(connection: &mut rustls::quic::Connection) -> (written: (Vec<u8>, KeyStep))
    ensures
        may_write(*old(connection), *final(connection), written.0@, written.1),
        written.0@.len() > 0 || !(written.1 is Unchanged) ==> queued(*final(connection)) < queued(*old(connection)),
{
    let mut output = Vec::new();
    let step = match connection.write_hs(&mut output) {
        None => KeyStep::Unchanged,
        Some(rustls::quic::KeyChange::Handshake { keys }) => KeyStep::Handshake {
            opening: keys.remote,
            sealing: keys.local,
        },
        Some(rustls::quic::KeyChange::OneRtt { keys, next }) => KeyStep::OneRtt {
            opening: keys.remote,
            sealing: keys.local,
            next_secret: next,
        },
    };
    (output, step)
}

/// `rustls::quic::Connection::alert`.
#[verifier::external_body]
pub(crate) fn alert(connection: &rustls::quic::Connection) -> (alert: Option<TlsAlert>)
    ensures
        alert == alert_of(*connection),
{
    connection.alert().map(|description| TlsAlert { description: u8::from(description) })
}

/// `rustls::CommonState::is_handshaking`.
#[verifier::external_body]
pub(crate) fn is_handshaking(connection: &rustls::quic::Connection) -> (under_way: bool)
    ensures
        under_way == handshaking(*connection),
{
    connection.is_handshaking()
}

/// `rustls::quic::Connection::quic_transport_parameters`.
#[verifier::external_body]
pub(crate) fn quic_transport_parameters(connection: &rustls::quic::Connection) -> (parameters: Option<Vec<u8>>)
    ensures
        optional_bytes(parameters) == parameters_of(*connection),
{
    connection.quic_transport_parameters().map(|parameters| parameters.to_vec())
}

/// The two variants of `rustls::quic::Connection`, and `rustls::quic::ServerConnection::server_name`
/// of the second.
#[verifier::external_body]
pub(crate) fn side(connection: &rustls::quic::Connection) -> (side: Side)
    ensures
        side.view() == side_of(*connection),
{
    match connection {
        rustls::quic::Connection::Client(_) => Side::Client,
        rustls::quic::Connection::Server(server) => Side::Server(server.server_name().map(|name| name.to_owned())),
    }
}

/// `rustls::CommonState::alpn_protocol`.
#[verifier::external_body]
pub(crate) fn alpn_protocol(connection: &rustls::quic::Connection) -> (protocol: Option<Vec<u8>>)
    ensures
        optional_bytes(protocol) == protocol_of(*connection),
{
    connection.alpn_protocol().map(|protocol| protocol.to_vec())
}

/// `rustls::CommonState::handshake_kind`: whether it is `Resumed`.
#[verifier::external_body]
pub(crate) fn is_resumed(connection: &rustls::quic::Connection) -> (kind: bool)
    ensures
        kind == resumed(*connection),
{
    match connection.handshake_kind() {
        Some(rustls::HandshakeKind::Resumed) => true,
        _ => false,
    }
}

pub open spec fn optional_slice(bytes: Option<&[u8]>) -> Option<Seq<u8>> {
    match bytes {
        Some(bytes) => Some(bytes@),
        None => None,
    }
}

/// `rustls::quic::Connection::export_keying_material`: fills the output, or fails. What the output
/// holds after a failure is left open.
#[verifier::external_body]
pub(crate) fn export_keying_material(
    connection: &rustls::quic::Connection,
    output: &mut Vec<u8>,
    label: &[u8],
    context: Option<&[u8]>,
) -> (done: bool)
    ensures
        final(output)@.len() == old(output)@.len(),
        if done {
            exported(*connection, old(output)@.len(), label@, optional_slice(context)) == Some(final(output)@)
        } else {
            exported(*connection, old(output)@.len(), label@, optional_slice(context)) is None
        },
{
    connection.export_keying_material(output.as_mut_slice(), label, context).is_ok()
}

/// What is read of an outcome, of bytes and of an end of a connection is all that they are.
pub proof fn outcomes_are_read_as_they_are(reason: String, bytes: Vec<u8>, name: String)
    ensures
        outcome(Ok(())) == Ok::<(), Seq<char>>(()),
        outcome(Err(reason)) == Err::<(), Seq<char>>(reason@),
        optional_bytes(Some(bytes)) == Some(bytes@),
        optional_bytes(None) is None,
        Side::Client.view() == SideView::Client,
        Side::Server(Some(name)).view() == SideView::Server(Some(name@)),
        Side::Server(None).view() == SideView::Server(None),
{
}

} // verus!
