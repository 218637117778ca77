//! The TLS handshake as QUIC sees it: contiguous CRYPTO bytes in, typed events out.
use std::collections::VecDeque;
use std::sync::{Arc, Mutex};

use vstd::prelude::*;

use crate::base::buffer::{contents, from_vec};
use crate::base::text::optional_text;
use crate::tls::authority::{LocalAuthority, RemoteAuthority};
use crate::tls::backend::{
    alert, alert_of, alpn_protocol, export_keying_material, exported, handshaking, is_handshaking, is_resumed, may_read,
    may_write, optional_bytes, optional_slice, outcome, parameters_of, protocol_of, queued, quic_transport_parameters,
    read_hs, resumed, side, side_of, write_hs, KeyStep, Side, SideView,
};
use crate::tls::error::{CryptoLevel, PeerTlsError, TlsAlert, TlsError, TlsFault, TlsInvariantError};

verus! {

/// Which end of a connection this is.
#[derive(Clone, Copy, Debug, PartialEq, Eq, Structural)]
pub enum Role {
    Client,
    Server,
}

/// The versions of QUIC that handshakes can be for.
#[derive(Clone, Copy, Debug, PartialEq, Eq, Structural)]
pub enum QuicVersion {
    V1,
    V2,
}

/// What a peer may make this end hold.
#[derive(Clone, Copy, Debug, PartialEq, Eq, Structural)]
pub struct TlsLimits {
    pub max_handshake_bytes: usize,
    pub max_flight_bytes: usize,
    pub max_certificates: usize,
    pub max_certificate_chain_bytes: usize,
    pub max_ocsp_bytes: usize,
}

pub struct BidirectionalKeys {
    pub opening: rustls::quic::DirectionalKeys,
    pub sealing: rustls::quic::DirectionalKeys,
}

pub struct OneRttKeyMaterial {
    pub opening: rustls::quic::DirectionalKeys,
    pub sealing: rustls::quic::DirectionalKeys,
    pub next_secret: rustls::quic::Secrets,
}

/// Keys that packets can be protected with from now on.
pub enum InstalledKeys {
    ZeroRtt(rustls::quic::DirectionalKeys),
    Handshake(BidirectionalKeys),
    OneRtt(OneRttKeyMaterial),
}

/// What the two ends agreed on.
#[derive(Debug)]
pub struct HandshakeSummary {
    pub alpn: Option<bytes::Bytes>,
    pub local: Option<LocalAuthority>,
    pub remote: Option<RemoteAuthority>,
}

/// What the owner of a handshake has to act on.
pub enum TlsEvent {
    WriteCrypto { level: CryptoLevel, bytes: bytes::Bytes },
    InstallKeys(InstalledKeys),
    ClientHello { server_name: Option<String>, transport_parameters: bytes::Bytes },
    ServerTransportParameters(bytes::Bytes),
    HandshakeComplete(HandshakeSummary),
    Alert(TlsAlert),
}

/// `TlsEvent` with its bytes read.
pub enum EventView {
    WriteCrypto { level: CryptoLevel, bytes: Seq<u8> },
    InstallKeys(InstalledKeys),
    ClientHello { server_name: Option<Seq<char>>, transport_parameters: Seq<u8> },
    ServerTransportParameters(Seq<u8>),
    HandshakeComplete { alpn: Option<Seq<u8>>, local: Option<LocalAuthority>, remote: Option<RemoteAuthority> },
    Alert(TlsAlert),
}

pub open spec fn optional_contents(buffer: Option<bytes::Bytes>) -> Option<Seq<u8>> {
    match buffer {
        Some(buffer) => Some(contents(buffer)),
        None => None,
    }
}

impl TlsEvent {
    pub open spec fn view(&self) -> EventView {
        match *self {
            TlsEvent::WriteCrypto { level, bytes } => EventView::WriteCrypto { level, bytes: contents(bytes) },
            TlsEvent::InstallKeys(keys) => EventView::InstallKeys(keys),
            TlsEvent::ClientHello { server_name, transport_parameters } => EventView::ClientHello {
                server_name: optional_text(server_name),
                transport_parameters: contents(transport_parameters),
            },
            TlsEvent::ServerTransportParameters(parameters) => EventView::ServerTransportParameters(
                contents(parameters),
            ),
            TlsEvent::HandshakeComplete(summary) => EventView::HandshakeComplete {
                alpn: optional_contents(summary.alpn),
                local: summary.local,
                remote: summary.remote,
            },
            TlsEvent::Alert(alert) => EventView::Alert(alert),
        }
    }
}

pub open spec fn events_read(events: Seq<TlsEvent>) -> Seq<EventView> {
    events.map_values(|event: TlsEvent| event.view())
}

/// The authorities found while certificates were chosen and verified.
#[derive(Clone, Debug)]
pub struct AuthorityState {
    pub local: Option<LocalAuthority>,
    pub remote: Option<RemoteAuthority>,
    pub resumed_local: Option<LocalAuthority>,
    pub resumed_remote: Option<RemoteAuthority>,
}

impl AuthorityState {
    pub fn new() -> (state: AuthorityState)
        ensures
            state == (AuthorityState { local: None, remote: None, resumed_local: None, resumed_remote: None }),
    {
        AuthorityState { local: None, remote: None, resumed_local: None, resumed_remote: None }
    }
}

#[verifier::external_type_specification]
#[verifier::external_body]
#[verifier::reject_recursive_types(T)]
pub struct ExMutex<T: ?Sized>(Mutex<T>);

/// Whether a mutex may hold these authorities at some moment, or none because it is poisoned.
pub uninterp spec fn may_hold(peer: Arc<Mutex<AuthorityState>>, authorities: Option<AuthorityState>) -> bool;

/// `std::sync::Mutex::lock`: a copy of what this mutex holds, or nothing where it is poisoned. Which of
/// the values that it may hold that is, other threads decide.
#[verifier::external_body]
fn read_authorities(peer: &Arc<Mutex<AuthorityState>>) -> (authorities: Option<AuthorityState>)
    ensures
        may_hold(*peer, authorities),
{
    peer.lock().ok().map(|held| held.clone())
}

/// How far a handshake has come.
pub struct HandshakeState {
    pub role: Role,
    pub limits: TlsLimits,
    pub events: VecDeque<TlsEvent>,
    pub input_level: CryptoLevel,
    pub output_level: CryptoLevel,
    pub received_bytes: usize,
    pub peer_parameters_emitted: bool,
    pub complete: bool,
    pub terminal: bool,
}

/// `HandshakeState` with its events read.
#[verifier::ext_equal]
pub struct HandshakeView {
    pub role: Role,
    pub limits: TlsLimits,
    pub events: Seq<EventView>,
    pub input_level: CryptoLevel,
    pub output_level: CryptoLevel,
    pub received_bytes: usize,
    pub peer_parameters_emitted: bool,
    pub complete: bool,
    pub terminal: bool,
}

impl HandshakeView {
    /// A handshake that has not begun.
    pub open spec fn fresh(role: Role, limits: TlsLimits) -> HandshakeView {
        HandshakeView {
            role,
            limits,
            events: Seq::empty(),
            input_level: CryptoLevel::Initial,
            output_level: CryptoLevel::Initial,
            received_bytes: 0,
            peer_parameters_emitted: false,
            complete: false,
            terminal: false,
        }
    }

    /// The handshake with one event more.
    pub open spec fn emits(self, event: EventView) -> HandshakeView {
        HandshakeView { events: self.events.push(event), ..self }
    }

    /// The handshake after a failure.
    pub open spec fn ended(self) -> HandshakeView {
        HandshakeView { terminal: true, ..self }
    }
}

/// What becomes of a handshake that is given `len` bytes at a level: whether they go on to the
/// backend, or why they are refused.
pub open spec fn offered(state: HandshakeView, level: CryptoLevel, len: nat) -> (HandshakeView, Result<bool, TlsFault>) {
    let too_much = TlsFault::ResourceLimit { resource: "handshake bytes"@, limit: state.limits.max_handshake_bytes };
    if len == 0 {
        (state, Ok(false))
    } else if state.terminal {
        (state, Err(TlsFault::EventAfterTerminal))
    } else if level != state.input_level {
        (state.ended(), Err(TlsFault::WrongCryptoLevel { expected: state.input_level, actual: level }))
    } else if state.received_bytes + len > usize::MAX {
        (state.ended(), Err(too_much))
    } else {
        let counted = HandshakeView { received_bytes: (state.received_bytes + len) as usize, ..state };
        if counted.received_bytes > state.limits.max_handshake_bytes {
            (counted.ended(), Err(too_much))
        } else {
            (counted, Ok(true))
        }
    }
}

/// What becomes of a handshake whose backend refused its input.
pub open spec fn refused(state: HandshakeView, alert: Option<TlsAlert>, reason: Seq<char>) -> (HandshakeView, TlsFault) {
    match alert {
        Some(alert) => (state.ended().emits(EventView::Alert(alert)), TlsFault::Alert(alert)),
        None => (state.ended(), TlsFault::Protocol(reason)),
    }
}

/// What becomes of a handshake whose backend knows the peer's transport parameters, or not yet.
pub open spec fn informed(state: HandshakeView, parameters: Option<Seq<u8>>, side: SideView) -> (
    HandshakeView,
    Result<(), TlsFault>,
) {
    match parameters {
        Some(parameters) if !state.peer_parameters_emitted => {
            let emitted = HandshakeView { peer_parameters_emitted: true, ..state };
            match (state.role, side) {
                (Role::Server, SideView::Server(server_name)) => (
                    emitted.emits(EventView::ClientHello { server_name, transport_parameters: parameters }),
                    Ok(()),
                ),
                (Role::Client, SideView::Client) => (
                    emitted.emits(EventView::ServerTransportParameters(parameters)),
                    Ok(()),
                ),
                _ => (state, Err(TlsFault::Missing("matching TLS role"@))),
            }
        },
        _ => (state, Ok(())),
    }
}

/// What becomes of a handshake whose backend wrote: whether it may have more to write.
pub open spec fn wrote(state: HandshakeView, output: Seq<u8>, keys: KeyStep) -> (HandshakeView, Result<bool, TlsFault>) {
    if output.len() > state.limits.max_flight_bytes {
        (state, Err(TlsFault::ResourceLimit { resource: "output flight"@, limit: state.limits.max_flight_bytes }))
    } else {
        let sent = if output.len() == 0 {
            state
        } else {
            state.emits(EventView::WriteCrypto { level: state.output_level, bytes: output })
        };
        match keys {
            KeyStep::Unchanged => (sent, Ok(output.len() > 0)),
            KeyStep::Handshake { opening, sealing } => (
                HandshakeView {
                    input_level: CryptoLevel::Handshake,
                    output_level: CryptoLevel::Handshake,
                    ..sent.emits(
                        EventView::InstallKeys(InstalledKeys::Handshake(BidirectionalKeys { opening, sealing })),
                    )
                },
                Ok(true),
            ),
            KeyStep::OneRtt { opening, sealing, next_secret } => (
                HandshakeView {
                    output_level: CryptoLevel::OneRtt,
                    ..sent.emits(
                        EventView::InstallKeys(
                            InstalledKeys::OneRtt(OneRttKeyMaterial { opening, sealing, next_secret }),
                        ),
                    )
                },
                Ok(true),
            ),
        }
    }
}

/// The local authority of a finished handshake: a resumed one takes over that of its session.
pub open spec fn local_of(authorities: AuthorityState, resumed: bool) -> Option<LocalAuthority> {
    if authorities.local is None && resumed {
        authorities.resumed_local
    } else {
        authorities.local
    }
}

/// The remote authority of a finished handshake: a resumed one takes over that of its session.
pub open spec fn remote_of(authorities: AuthorityState, resumed: bool) -> Option<RemoteAuthority> {
    if authorities.remote is None && resumed {
        authorities.resumed_remote
    } else {
        authorities.remote
    }
}

/// What becomes of a handshake whose backend is done.
pub open spec fn concluded(
    state: HandshakeView,
    authorities: Option<AuthorityState>,
    resumed: bool,
    alpn: Option<Seq<u8>>,
) -> (HandshakeView, Result<(), TlsFault>) {
    match authorities {
        None => (state, Err(TlsFault::Missing("authority state lock"@))),
        Some(authorities) => {
            let local = local_of(authorities, resumed);
            let remote = remote_of(authorities, resumed);
            if state.role == Role::Client && remote is None {
                (state, Err(TlsFault::Missing("verified server authority"@)))
            } else if state.role == Role::Server && local is None {
                (state, Err(TlsFault::Missing("selected server authority"@)))
            } else {
                (
                    HandshakeView {
                        complete: true,
                        ..state.emits(EventView::HandshakeComplete { alpn, local, remote })
                    },
                    Ok(()),
                )
            }
        },
    }
}

pub open spec fn fault_of<T>(result: Result<T, TlsError>) -> Result<T, TlsFault> {
    match result {
        Ok(value) => Ok(value),
        Err(error) => Err(error.view()),
    }
}

impl HandshakeState {
    pub open spec fn view(&self) -> HandshakeView {
        HandshakeView {
            role: self.role,
            limits: self.limits,
            events: events_read(self.events@),
            input_level: self.input_level,
            output_level: self.output_level,
            received_bytes: self.received_bytes,
            peer_parameters_emitted: self.peer_parameters_emitted,
            complete: self.complete,
            terminal: self.terminal,
        }
    }

    pub fn new(role: Role, limits: TlsLimits) -> (state: HandshakeState)
        ensures
            state.view() == HandshakeView::fresh(role, limits),
    {
        HandshakeState {
            role,
            limits,
            events: VecDeque::new(),
            input_level: CryptoLevel::Initial,
            output_level: CryptoLevel::Initial,
            received_bytes: 0,
            peer_parameters_emitted: false,
            complete: false,
            terminal: false,
        }
    }

    fn emit(&mut self, event: TlsEvent)
        ensures
            final(self).view() == old(self).view().emits(event.view()),
    {
        let ghost before = self.events@;
        self.events.push_back(event);
        assert(events_read(self.events@) =~= events_read(before).push(event.view()));
    }

    /// The next event, if there is any.
    pub fn next_event(&mut self) -> (event: Option<TlsEvent>)
        ensures
            match event {
                Some(event) => old(self).view().events.len() > 0 && event.view() == old(self).view().events[0]
                    && final(self).view() == (HandshakeView {
                    events: old(self).view().events.skip(1),
                    ..old(self).view()
                }),
                None => old(self).view().events.len() == 0 && final(self).view() == old(self).view(),
            },
    {
        let ghost before = self.events@;
        let event = self.events.pop_front();
        proof {
            if before.len() > 0 {
                assert(events_read(self.events@) =~= events_read(before).skip(1));
            } else {
                assert(self.events@ =~= before);
            }
        }
        event
    }

    /// Decides whether bytes go on to the backend.
    pub fn offer(&mut self, level: CryptoLevel, len: usize) -> (result: Result<bool, TlsError>)
        ensures
            (final(self).view(), fault_of(result)) == offered(old(self).view(), level, len as nat),
    {
        if len == 0 {
            return Ok(false);
        }
        if self.terminal {
            return Err(TlsError::Invariant(TlsInvariantError::EventAfterTerminal));
        }
        if level != self.input_level {
            self.terminal = true;
            return Err(
                TlsError::Peer(PeerTlsError::WrongCryptoLevel { expected: self.input_level, actual: level }),
            );
        }
        let limit = self.limits.max_handshake_bytes;
        let received = match self.received_bytes.checked_add(len) {
            Some(received) => received,
            None => {
                self.terminal = true;
                return Err(TlsError::Peer(PeerTlsError::ResourceLimit { resource: "handshake bytes", limit }));
            },
        };
        self.received_bytes = received;
        if received > limit {
            self.terminal = true;
            return Err(TlsError::Peer(PeerTlsError::ResourceLimit { resource: "handshake bytes", limit }));
        }
        Ok(true)
    }

    /// Takes note that the backend refused its input.
    pub fn refuse(&mut self, alert: Option<TlsAlert>, reason: String) -> (error: TlsError)
        ensures
            (final(self).view(), error.view()) == refused(old(self).view(), alert, reason@),
    {
        self.terminal = true;
        match alert {
            Some(alert) => {
                self.emit(TlsEvent::Alert(alert));
                TlsError::Alert(alert)
            },
            None => TlsError::Peer(PeerTlsError::Protocol(reason)),
        }
    }

    /// Passes on the peer's transport parameters, once.
    pub fn inform(&mut self, parameters: Option<Vec<u8>>, side: Side) -> (result: Result<(), TlsError>)
        ensures
            (final(self).view(), fault_of(result)) == informed(
                old(self).view(),
                optional_bytes(parameters),
                side.view(),
            ),
    {
        if self.peer_parameters_emitted {
            return Ok(());
        }
        let parameters = match parameters {
            Some(parameters) => from_vec(parameters),
            None => return Ok(()),
        };
        match (self.role, side) {
            (Role::Server, Side::Server(server_name)) => {
                self.emit(TlsEvent::ClientHello { server_name, transport_parameters: parameters });
            },
            (Role::Client, Side::Client) => {
                self.emit(TlsEvent::ServerTransportParameters(parameters));
            },
            _ => return Err(TlsError::Invariant(TlsInvariantError::Missing("matching TLS role"))),
        }
        self.peer_parameters_emitted = true;
        Ok(())
    }

    /// Passes on what the backend wrote.
    pub fn take_output(&mut self, output: Vec<u8>, keys: KeyStep) -> (result: Result<bool, TlsError>)
        ensures
            (final(self).view(), fault_of(result)) == wrote(old(self).view(), output@, keys),
    {
        let limit = self.limits.max_flight_bytes;
        if output.len() > limit {
            return Err(TlsError::Peer(PeerTlsError::ResourceLimit { resource: "output flight", limit }));
        }
        let wrote_any = output.len() > 0;
        if wrote_any {
            let level = self.output_level;
            self.emit(TlsEvent::WriteCrypto { level, bytes: from_vec(output) });
        }
        match keys {
            KeyStep::Unchanged => Ok(wrote_any),
            KeyStep::Handshake { opening, sealing } => {
                self.emit(TlsEvent::InstallKeys(InstalledKeys::Handshake(BidirectionalKeys { opening, sealing })));
                self.input_level = CryptoLevel::Handshake;
                self.output_level = CryptoLevel::Handshake;
                Ok(true)
            },
            KeyStep::OneRtt { opening, sealing, next_secret } => {
                self.emit(
                    TlsEvent::InstallKeys(InstalledKeys::OneRtt(OneRttKeyMaterial { opening, sealing, next_secret })),
                );
                self.output_level = CryptoLevel::OneRtt;
                Ok(true)
            },
        }
    }

    /// Concludes a handshake whose backend is done: a client needs a verified server, a server the
    /// authority it presented.
    pub fn conclude(&mut self, authorities: Option<AuthorityState>, resumed: bool, alpn: Option<Vec<u8>>) -> (result:
        Result<(), TlsError>)
        ensures
            (final(self).view(), fault_of(result)) == concluded(
                old(self).view(),
                authorities,
                resumed,
                optional_bytes(alpn),
            ),
    {
        let authorities = match authorities {
            Some(authorities) => authorities,
            None => return Err(TlsError::Invariant(TlsInvariantError::Missing("authority state lock"))),
        };
        let local = if authorities.local.is_none() && resumed {
            authorities.resumed_local
        } else {
            authorities.local
        };
        let remote = if authorities.remote.is_none() && resumed {
            authorities.resumed_remote
        } else {
            authorities.remote
        };
        match self.role {
            Role::Client => if remote.is_none() {
                return Err(TlsError::Invariant(TlsInvariantError::Missing("verified server authority")));
            },
            Role::Server => if local.is_none() {
                return Err(TlsError::Invariant(TlsInvariantError::Missing("selected server authority")));
            },
        }
        let alpn = match alpn {
            Some(alpn) => Some(from_vec(alpn)),
            None => None,
        };
        self.emit(TlsEvent::HandshakeComplete(HandshakeSummary { alpn, local, remote }));
        self.complete = true;
        Ok(())
    }
}

/// How far a handshake is, with the backend that runs it and the place where the authorities are noted.
#[verifier::ext_equal]
pub struct Progress {
    pub state: HandshakeView,
    pub connection: rustls::quic::Connection,
    pub peer: Arc<Mutex<AuthorityState>>,
}

impl Progress {
    /// A handshake that has not begun.
    pub open spec fn fresh(
        connection: rustls::quic::Connection,
        role: Role,
        peer: Arc<Mutex<AuthorityState>>,
        limits: TlsLimits,
    ) -> Progress {
        Progress { state: HandshakeView::fresh(role, limits), connection, peer }
    }

    /// The handshake in another state, with its backend in another.
    pub open spec fn moved(self, state: HandshakeView, connection: rustls::quic::Connection) -> Progress {
        Progress { state, connection, ..self }
    }
}

/// The writes of a backend that is asked until it has nothing more: `outputs[i]` took it from
/// `connections[i]` to `connections[i + 1]` and the handshake from `states[i]` to `states[i + 1]`.
pub struct WriteTrace {
    pub connections: Seq<rustls::quic::Connection>,
    pub states: Seq<HandshakeView>,
    pub outputs: Seq<(Seq<u8>, KeyStep)>,
}

impl WriteTrace {
    /// Whether every write is one that the backend may make and the handshake takes.
    pub open spec fn possible(self) -> bool {
        &&& self.connections.len() == self.outputs.len() + 1
        &&& self.states.len() == self.outputs.len() + 1
        &&& forall|i: int|
            #![trigger self.outputs[i]]
            0 <= i < self.outputs.len() ==> {
                &&& may_write(
                    self.connections[i],
                    self.connections[i + 1],
                    self.outputs[i].0,
                    self.outputs[i].1,
                )
                &&& self.states[i + 1] == wrote(self.states[i], self.outputs[i].0, self.outputs[i].1).0
            }
    }

    /// Whether all of the first `n` writes left the backend with more to write.
    pub open spec fn goes_on(self, n: int) -> bool {
        forall|i: int|
            #![trigger self.outputs[i]]
            0 <= i < n ==> wrote(self.states[i], self.outputs[i].0, self.outputs[i].1).1 == Ok::<bool, TlsFault>(true)
    }

    /// Whether these are the writes that end with `fault`, or with an idle backend.
    pub open spec fn is_drain(
        self,
        before: Progress,
        after: Progress,
        fault: Option<TlsFault>,
    ) -> bool {
        let last = self.outputs.len() - 1;
        &&& self.possible()
        &&& last >= 0
        &&& before == before.moved(self.states[0], self.connections[0])
        &&& after == before.moved(self.states[last + 1], self.connections[last + 1])
        &&& self.goes_on(last)
        &&& wrote(self.states[last], self.outputs[last].0, self.outputs[last].1).1 == match fault {
            Some(fault) => Err::<bool, TlsFault>(fault),
            None => Ok(false),
        }
    }
}

/// Whether draining a backend may take a handshake from one state to another.
pub open spec fn drained(
    before: Progress,
    after: Progress,
    fault: Option<TlsFault>,
) -> bool {
    exists|trace: WriteTrace| #[trigger] trace.is_drain(before, after, fault)
}

/// What the outside decided while one piece of input was taken.
pub struct Turn {
    pub read: rustls::quic::Connection,
    pub outcome: Result<(), Seq<char>>,
    pub drained: HandshakeView,
    pub fault: Option<TlsFault>,
    pub authorities: Option<AuthorityState>,
}

/// The handshake that is done exchanging messages takes further input at the 1-RTT level only.
pub open spec fn levelled(state: HandshakeView, connection: rustls::quic::Connection) -> HandshakeView {
    if handshaking(connection) {
        state
    } else {
        HandshakeView { input_level: CryptoLevel::OneRtt, ..state }
    }
}

/// Whether a drained handshake is about to complete: its backend is done.
pub open spec fn concludes(state: HandshakeView, connection: rustls::quic::Connection) -> bool {
    !state.complete && !handshaking(connection)
}

/// What becomes of a drained handshake: it completes once its backend is done.
pub open spec fn finished(
    state: HandshakeView,
    connection: rustls::quic::Connection,
    authorities: Option<AuthorityState>,
) -> (HandshakeView, Result<(), TlsFault>) {
    if concludes(state, connection) {
        concluded(state, authorities, resumed(connection), protocol_of(connection))
    } else {
        (state, Ok(()))
    }
}

/// A failure ends the handshake.
pub open spec fn settled(step: (HandshakeView, Result<(), TlsFault>)) -> (HandshakeView, Result<(), TlsFault>) {
    match step.1 {
        Ok(_) => step,
        Err(_) => (step.0.ended(), step.1),
    }
}

impl Turn {
    /// Whether, with these outside decisions, input that was let through takes a handshake from
    /// `before` to `after`.
    pub open spec fn explains(
        self,
        before: Progress,
        bytes: Seq<u8>,
        after: Progress,
        result: Result<(), TlsFault>,
    ) -> bool {
        &&& may_read(before.connection, bytes, self.read, self.outcome)
        &&& match self.outcome {
            Err(reason) => {
                let (state, fault) = refused(before.state, alert_of(self.read), reason);
                after == before.moved(state, self.read) && result == Err::<(), TlsFault>(fault)
            },
            Ok(_) => {
                let known = informed(before.state, parameters_of(self.read), side_of(self.read));
                if known.1 is Err {
                    after == before.moved(known.0.ended(), self.read) && result == known.1
                } else {
                    let level = levelled(self.drained, after.connection);
                    &&& drained(
                        before.moved(known.0, self.read),
                        after.moved(self.drained, after.connection),
                        self.fault,
                    )
                    &&& (after.state, result) == match self.fault {
                        Some(fault) => (self.drained.ended(), Err(fault)),
                        None => settled(finished(level, after.connection, self.authorities)),
                    }
                    &&& self.fault is None && concludes(level, after.connection) ==> may_hold(
                        before.peer,
                        self.authorities,
                    )
                }
            },
        }
    }
}

/// Whether input may take a handshake from one state to another with this result.
pub open spec fn received(
    before: Progress,
    level: CryptoLevel,
    bytes: Seq<u8>,
    after: Progress,
    result: Result<(), TlsFault>,
) -> bool {
    let (state, verdict) = offered(before.state, level, bytes.len());
    match verdict {
        Err(fault) => after == before.moved(state, before.connection) && result == Err::<(), TlsFault>(fault),
        Ok(false) => after == before && result == Ok::<(), TlsFault>(()),
        Ok(true) => exists|turn: Turn| #[trigger] turn.explains(before.moved(state, before.connection), bytes, after, result),
    }
}

/// One handshake, with the backend that runs it.
pub struct TlsHandshake {
    pub connection: rustls::quic::Connection,
    pub peer: Arc<Mutex<AuthorityState>>,
    pub state: HandshakeState,
}

impl TlsHandshake {
    pub open spec fn view(&self) -> Progress {
        Progress { state: self.state.view(), connection: self.connection, peer: self.peer }
    }

    /// Starts a handshake: a client's first flight is ready at once.
    pub fn new(
        connection: rustls::quic::Connection,
        role: Role,
        peer: Arc<Mutex<AuthorityState>>,
        limits: TlsLimits,
    ) -> (result: Result<TlsHandshake, TlsError>)
        ensures
            match result {
                Ok(handshake) => drained(Progress::fresh(connection, role, peer, limits), handshake.view(), None),
                Err(error) => exists|after: Progress| #[trigger]
                    drained(Progress::fresh(connection, role, peer, limits), after, Some(error.view())),
            },
    {
        let mut handshake = TlsHandshake { connection, peer, state: HandshakeState::new(role, limits) };
        match handshake.drain_backend() {
            Ok(_) => Ok(handshake),
            Err(error) => {
                assert(drained(
                    Progress::fresh(connection, role, peer, limits),
                    handshake.view(),
                    Some(error.view()),
                ));
                Err(error)
            },
        }
    }

    /// Passes on what the backend has to write, until it has nothing more.
    fn drain_backend(&mut self) -> (result: Result<(), TlsError>)
        ensures
            match result {
                Ok(_) => drained(old(self).view(), final(self).view(), None),
                Err(error) => drained(old(self).view(), final(self).view(), Some(error.view())),
            },
    {
        let ghost start = self.view();
        let ghost mut trace = WriteTrace {
            connections: seq![start.connection],
            states: seq![start.state],
            outputs: Seq::empty(),
        };
        loop
            invariant
                trace.possible(),
                trace.goes_on(trace.outputs.len() as int),
                start == start.moved(trace.states[0], trace.connections[0]),
                self.view() == start.moved(trace.states.last(), trace.connections.last()),
                start == old(self).view(),
            decreases queued(self.connection),
        {
            let ghost before = self.view();
            let ghost earlier = trace;
            let (output, keys) = write_hs(&mut self.connection);
            let ghost step = (output@, keys);
            let result = self.state.take_output(output, keys);
            proof {
                trace = WriteTrace {
                    connections: trace.connections.push(self.connection),
                    states: trace.states.push(self.state.view()),
                    outputs: trace.outputs.push(step),
                };
                let last = earlier.outputs.len() as int;
                assert(trace.outputs[last] == step);
                assert forall|i: int| #![trigger trace.outputs[i]] 0 <= i < trace.outputs.len() implies {
                    &&& may_write(
                        trace.connections[i],
                        trace.connections[i + 1],
                        trace.outputs[i].0,
                        trace.outputs[i].1,
                    )
                    &&& trace.states[i + 1] == wrote(trace.states[i], trace.outputs[i].0, trace.outputs[i].1).0
                } by {
                    if i < last {
                        assert(trace.outputs[i] == earlier.outputs[i]);
                    }
                }
                assert forall|i: int| #![trigger trace.outputs[i]] 0 <= i < last implies wrote(
                    trace.states[i],
                    trace.outputs[i].0,
                    trace.outputs[i].1,
                ).1 == Ok::<bool, TlsFault>(true) by {
                    assert(trace.outputs[i] == earlier.outputs[i]);
                }
            }
            match result {
                Err(error) => {
                    assert(trace.is_drain(start, self.view(), Some(error.view())));
                    return Err(error);
                },
                Ok(more) => {
                    if !more {
                        assert(trace.is_drain(start, self.view(), None));
                        return Ok(());
                    }
                },
            }
        }
    }

    fn emit_peer_parameters(&mut self) -> (result: Result<(), TlsError>)
        ensures
            final(self).connection == old(self).connection,
            final(self).peer == old(self).peer,
            (final(self).state.view(), fault_of(result)) == informed(
                old(self).state.view(),
                parameters_of(old(self).connection),
                side_of(old(self).connection),
            ),
    {
        let parameters = quic_transport_parameters(&self.connection);
        let end = side(&self.connection);
        self.state.inform(parameters, end)
    }

    fn emit_completion(&mut self) -> (result: (Result<(), TlsError>, Ghost<Option<AuthorityState>>))
        ensures
            final(self).connection == old(self).connection,
            final(self).peer == old(self).peer,
            (final(self).state.view(), fault_of(result.0)) == finished(
                old(self).state.view(),
                old(self).connection,
                result.1@,
            ),
            concludes(old(self).state.view(), old(self).connection) ==> may_hold(old(self).peer, result.1@),
    {
        if self.state.complete || is_handshaking(&self.connection) {
            return (Ok(()), Ghost(None));
        }
        let authorities = read_authorities(&self.peer);
        let ghost read = authorities;
        let kind = is_resumed(&self.connection);
        let alpn = alpn_protocol(&self.connection);
        (self.state.conclude(authorities, kind, alpn), Ghost(read))
    }

    /// Takes contiguous CRYPTO bytes of a level. A failure is final: from then on only empty input
    /// is taken.
    pub fn receive_crypto(&mut self, level: CryptoLevel, contiguous: &[u8]) -> (result: Result<(), TlsError>)
        ensures
            received(old(self).view(), level, contiguous@, final(self).view(), fault_of(result)),
    {
        match self.state.offer(level, contiguous.len()) {
            Err(error) => return Err(error),
            Ok(false) => return Ok(()),
            Ok(true) => {},
        }
        let ghost before = self.view();
        let read = read_hs(&mut self.connection, contiguous);
        let ghost mut turn = Turn {
            read: self.connection,
            outcome: outcome(read),
            drained: self.state.view(),
            fault: None,
            authorities: None,
        };
        if let Err(reason) = read {
            let description = alert(&self.connection);
            let error = self.state.refuse(description, reason);
            assert(turn.explains(before, contiguous@, self.view(), Err(error.view())));
            return Err(error);
        }
        if let Err(error) = self.emit_peer_parameters() {
            self.state.terminal = true;
            assert(turn.explains(before, contiguous@, self.view(), Err(error.view())));
            return Err(error);
        }
        let drain = self.drain_backend();
        proof {
            turn.drained = self.state.view();
        }
        if let Err(error) = drain {
            proof {
                turn.fault = Some(error.view());
            }
            self.state.terminal = true;
            assert(turn.explains(before, contiguous@, self.view(), Err(error.view())));
            return Err(error);
        }
        if !is_handshaking(&self.connection) {
            self.state.input_level = CryptoLevel::OneRtt;
        }
        let (completion, read_authorities) = self.emit_completion();
        proof {
            turn.authorities = read_authorities@;
        }
        if let Err(error) = completion {
            self.state.terminal = true;
            assert(turn.explains(before, contiguous@, self.view(), Err(error.view())));
            return Err(error);
        }
        assert(turn.explains(before, contiguous@, self.view(), Ok(())));
        Ok(())
    }

    /// The next event, if there is any.
    pub fn next_event(&mut self) -> (event: Option<TlsEvent>)
        ensures
            final(self).connection == old(self).connection,
            final(self).peer == old(self).peer,
            match event {
                Some(event) => old(self).state.view().events.len() > 0 && event.view() == old(
                    self,
                ).state.view().events[0] && final(self).state.view() == (HandshakeView {
                    events: old(self).state.view().events.skip(1),
                    ..old(self).state.view()
                }),
                None => old(self).state.view().events.len() == 0 && final(self).state.view() == old(
                    self,
                ).state.view(),
            },
    {
        self.state.next_event()
    }

    pub fn is_complete(&self) -> (complete: bool)
        ensures
            complete == self.state.view().complete,
    {
        self.state.complete
    }

    /// The established session, once the handshake is complete.
    pub fn finish(self) -> (result: Result<EstablishedTls, HandshakeNotComplete>)
        ensures
            match result {
                Ok(established) => self.state.view().complete && established.connection == self.connection
                    && established.terminal == self.state.view().terminal,
                Err(_) => !self.state.view().complete,
            },
    {
        if !self.state.complete {
            return Err(HandshakeNotComplete);
        }
        Ok(EstablishedTls { connection: self.connection, terminal: self.state.terminal })
    }
}

/// The handshake cannot be finished before it is complete.
#[derive(Clone, Copy, Debug, PartialEq, Eq, Structural)]
pub struct HandshakeNotComplete;

/// Key material could not be exported.
#[derive(Clone, Copy, Debug, PartialEq, Eq, Structural)]
pub enum ExporterError {
    Failed,
}

/// A session after its handshake.
pub struct EstablishedTls {
    pub connection: rustls::quic::Connection,
    pub terminal: bool,
}

/// What input after the handshake leads to: `written` is what the backend then wrote.
pub open spec fn post_handshake(
    read: Result<(), Seq<char>>,
    alert: Option<TlsAlert>,
    written: (Seq<u8>, KeyStep),
) -> Result<(), TlsFault> {
    match read {
        Err(reason) => match alert {
            Some(alert) => Err(TlsFault::Alert(alert)),
            None => Err(TlsFault::Protocol(reason)),
        },
        Ok(_) => if !(written.1 is Unchanged) || written.0.len() > 0 {
            Err(TlsFault::Missing("post-handshake output sink"@))
        } else {
            Ok(())
        },
    }
}

/// What the outside decided while input after the handshake was taken.
pub struct PostTurn {
    pub read: rustls::quic::Connection,
    pub outcome: Result<(), Seq<char>>,
    pub written: (Seq<u8>, KeyStep),
}

impl PostTurn {
    pub open spec fn explains(
        self,
        before: EstablishedTls,
        bytes: Seq<u8>,
        after: EstablishedTls,
        result: Result<(), TlsFault>,
    ) -> bool {
        &&& may_read(before.connection, bytes, self.read, self.outcome)
        &&& self.outcome is Ok ==> may_write(self.read, after.connection, self.written.0, self.written.1)
        &&& self.outcome is Err ==> after.connection == self.read
        &&& after.terminal == self.outcome is Err
        &&& result == post_handshake(self.outcome, alert_of(self.read), self.written)
    }
}

/// Whether input may take an established session from one state to another with this result.
pub open spec fn received_after(
    before: EstablishedTls,
    bytes: Seq<u8>,
    after: EstablishedTls,
    result: Result<(), TlsFault>,
) -> bool {
    if bytes.len() == 0 {
        after == before && result == Ok::<(), TlsFault>(())
    } else if before.terminal {
        after == before && result == Err::<(), TlsFault>(TlsFault::EventAfterTerminal)
    } else {
        exists|turn: PostTurn| #[trigger] turn.explains(before, bytes, after, result)
    }
}

impl EstablishedTls {
    /// Takes contiguous CRYPTO bytes of the 1-RTT level. They may not make the backend write.
    pub fn receive_post_handshake(&mut self, contiguous_one_rtt_crypto: &[u8]) -> (result: Result<(), TlsError>)
        ensures
            received_after(*old(self), contiguous_one_rtt_crypto@, *final(self), fault_of(result)),
    {
        if contiguous_one_rtt_crypto.len() == 0 {
            return Ok(());
        }
        if self.terminal {
            return Err(TlsError::Invariant(TlsInvariantError::EventAfterTerminal));
        }
        let ghost before = *self;
        let read = read_hs(&mut self.connection, contiguous_one_rtt_crypto);
        let ghost mut turn = PostTurn {
            read: self.connection,
            outcome: outcome(read),
            written: (Seq::empty(), KeyStep::Unchanged),
        };
        if let Err(reason) = read {
            self.terminal = true;
            let error = match alert(&self.connection) {
                Some(alert) => TlsError::Alert(alert),
                None => TlsError::Peer(PeerTlsError::Protocol(reason)),
            };
            assert(turn.explains(before, contiguous_one_rtt_crypto@, *self, Err(error.view())));
            return Err(error);
        }
        let (output, keys) = write_hs(&mut self.connection);
        proof {
            turn.written = (output@, keys);
        }
        let idle = match keys {
            KeyStep::Unchanged => output.len() == 0,
            _ => false,
        };
        if !idle {
            let error = TlsError::Invariant(TlsInvariantError::Missing("post-handshake output sink"));
            assert(turn.explains(before, contiguous_one_rtt_crypto@, *self, Err(error.view())));
            return Err(error);
        }
        assert(turn.explains(before, contiguous_one_rtt_crypto@, *self, Ok(())));
        Ok(())
    }

    /// Fills `output` with key material for a label and a context.
    pub fn export_keying_material(&self, output: &mut Vec<u8>, label: &[u8], context: Option<&[u8]>) -> (result: Result<
        (),
        ExporterError,
    >)
        ensures
            final(output)@.len() == old(output)@.len(),
            match exported(self.connection, old(output)@.len(), label@, optional_slice(context)) {
                Some(material) => result is Ok && final(output)@ == material,
                None => result == Err::<(), ExporterError>(ExporterError::Failed),
            },
    {
        if export_keying_material(&self.connection, output, label, context) {
            Ok(())
        } else {
            Err(ExporterError::Failed)
        }
    }
}

/// Whether the events of one state are those of another and more, of which each satisfies `kind`.
pub open spec fn only_adds(before: HandshakeView, after: HandshakeView, kind: spec_fn(EventView) -> bool) -> bool {
    &&& before.events.len() <= after.events.len()
    &&& forall|i: int| #![trigger after.events[i]] 0 <= i < before.events.len() ==> after.events[i] == before.events[i]
    &&& forall|i: int|
        #![trigger after.events[i]]
        before.events.len() <= i < after.events.len() ==> kind(after.events[i])
}

pub open spec fn is_parameters(event: EventView) -> bool {
    event is ClientHello || event is ServerTransportParameters
}

pub open spec fn is_flight(event: EventView) -> bool {
    event is WriteCrypto || event is InstallKeys
}

proof fn lemma_drain(trace: WriteTrace, n: int)
    requires
        trace.possible(),
        0 <= n <= trace.outputs.len(),
    ensures
        only_adds(trace.states[0], trace.states[n], |event: EventView| is_flight(event)),
        ({
            let start = trace.states[0];
            let end = trace.states[n];
            &&& end.role == start.role
            &&& end.limits == start.limits
            &&& end.received_bytes == start.received_bytes
            &&& end.peer_parameters_emitted == start.peer_parameters_emitted
            &&& end.complete == start.complete
            &&& end.terminal == start.terminal
        }),
    decreases n,
{
    if n > 0 {
        lemma_drain(trace, n - 1);
        let step = trace.outputs[n - 1];
        assert(trace.states[n - 1 + 1] == wrote(trace.states[n - 1], step.0, step.1).0);
        assert(only_adds(trace.states[n - 1], trace.states[n], |event: EventView| is_flight(event)));
        assert forall|i: int|
            #![trigger trace.states[n].events[i]]
            trace.states[0].events.len() <= i < trace.states[n].events.len() implies is_flight(
            trace.states[n].events[i],
        ) by {
            if i < trace.states[n - 1].events.len() {
                assert(trace.states[n].events[i] == trace.states[n - 1].events[i]);
            }
        }
        assert forall|i: int| #![trigger trace.states[n].events[i]] 0 <= i < trace.states[0].events.len() implies
            trace.states[n].events[i] == trace.states[0].events[i] by {
            assert(trace.states[n].events[i] == trace.states[n - 1].events[i]);
        }
    }
}

/// Draining a backend only passes on flights and keys.
pub proof fn draining_passes_on_flights_and_keys(
    before: Progress,
    after: Progress,
    fault: Option<TlsFault>,
)
    requires
        drained(before, after, fault),
    ensures
        only_adds(before.state, after.state, |event: EventView| is_flight(event)),
        after.state.role == before.state.role,
        after.state.limits == before.state.limits,
        after.state.received_bytes == before.state.received_bytes,
        after.state.peer_parameters_emitted == before.state.peer_parameters_emitted,
        after.state.complete == before.state.complete,
        after.state.terminal == before.state.terminal,
        after.peer == before.peer,
{
    let trace = choose|trace: WriteTrace| #[trigger] trace.is_drain(before, after, fault);
    lemma_drain(trace, trace.outputs.len() as int);
}

/// Empty input changes nothing, and after a failure nothing else is taken.
pub proof fn failed_handshake_takes_nothing(
    before: Progress,
    level: CryptoLevel,
    bytes: Seq<u8>,
    after: Progress,
    result: Result<(), TlsFault>,
)
    requires
        received(before, level, bytes, after, result),
        before.state.terminal || bytes.len() == 0,
    ensures
        after == before,
        result == if bytes.len() == 0 {
            Ok::<(), TlsFault>(())
        } else {
            Err(TlsFault::EventAfterTerminal)
        },
{
}

/// Every failure is final, and nothing else ends a handshake.
pub proof fn failure_is_final(
    before: Progress,
    level: CryptoLevel,
    bytes: Seq<u8>,
    after: Progress,
    result: Result<(), TlsFault>,
)
    requires
        received(before, level, bytes, after, result),
    ensures
        after.state.terminal == (before.state.terminal || result is Err),
{
    let (state, verdict) = offered(before.state, level, bytes.len());
    if verdict == Ok::<bool, TlsFault>(true) {
        let turn = choose|turn: Turn| #[trigger] turn.explains(before.moved(state, before.connection), bytes, after, result);
        let known = informed(state, parameters_of(turn.read), side_of(turn.read));
        if turn.outcome is Ok && known.1 is Ok {
            draining_passes_on_flights_and_keys(
                before.moved(known.0, turn.read),
                after.moved(turn.drained, after.connection),
                turn.fault,
            );
        }
    }
}

/// No more input is taken than the limit allows.
pub proof fn taken_input_is_bounded(
    before: Progress,
    level: CryptoLevel,
    bytes: Seq<u8>,
    after: Progress,
    result: Result<(), TlsFault>,
)
    requires
        received(before, level, bytes, after, result),
        result is Ok,
        bytes.len() > 0,
    ensures
        after.state.received_bytes == before.state.received_bytes + bytes.len(),
        after.state.received_bytes <= after.state.limits.max_handshake_bytes,
        after.state.limits == before.state.limits,
{
    let (state, verdict) = offered(before.state, level, bytes.len());
    let turn = choose|turn: Turn| #[trigger] turn.explains(before.moved(state, before.connection), bytes, after, result);
    let known = informed(state, parameters_of(turn.read), side_of(turn.read));
    draining_passes_on_flights_and_keys(
                before.moved(known.0, turn.read),
                after.moved(turn.drained, after.connection),
                turn.fault,
            );
}

/// A handshake that completes is one whose backend is done; a client's has verified its server, and
/// a server's has presented an authority. Completion is reported at that moment, and never again.
pub proof fn completion_is_reported_once(
    before: Progress,
    level: CryptoLevel,
    bytes: Seq<u8>,
    after: Progress,
    result: Result<(), TlsFault>,
)
    requires
        received(before, level, bytes, after, result),
    ensures
        before.state.complete ==> after.state.complete,
        after.state.complete == before.state.complete ==> only_adds(
            before.state,
            after.state,
            |event: EventView| !(event is HandshakeComplete),
        ),
        after.state.complete && !before.state.complete ==> {
            &&& result is Ok
            &&& !handshaking(after.connection)
            &&& only_adds(
                before.state,
                HandshakeView { events: after.state.events.drop_last(), ..after.state },
                |event: EventView| !(event is HandshakeComplete),
            )
            &&& after.state.events.last() matches EventView::HandshakeComplete { local, remote, .. } && match after.state.role {
                Role::Client => remote is Some,
                Role::Server => local is Some,
            }
        },
        after.state.role == before.state.role,
{
    let (state, verdict) = offered(before.state, level, bytes.len());
    if verdict == Ok::<bool, TlsFault>(true) {
        let turn = choose|turn: Turn| #[trigger] turn.explains(before.moved(state, before.connection), bytes, after, result);
        let known = informed(state, parameters_of(turn.read), side_of(turn.read));
        if turn.outcome is Ok && known.1 is Ok {
            draining_passes_on_flights_and_keys(
                before.moved(known.0, turn.read),
                after.moved(turn.drained, after.connection),
                turn.fault,
            );
            let plain = |event: EventView| !(event is HandshakeComplete);
            assert(only_adds(before.state, known.0, plain));
            assert(only_adds(known.0, turn.drained, plain));
            assert forall|i: int| #![trigger turn.drained.events[i]] 0 <= i < before.state.events.len() implies
                turn.drained.events[i] == before.state.events[i] by {
                assert(known.0.events[i] == before.state.events[i]);
            }
            assert forall|i: int|
                #![trigger turn.drained.events[i]]
                before.state.events.len() <= i < turn.drained.events.len() implies plain(turn.drained.events[i]) by {
                if i < known.0.events.len() {
                    assert(turn.drained.events[i] == known.0.events[i]);
                }
            }
            assert(only_adds(before.state, turn.drained, plain));
            if after.state.complete && !before.state.complete {
                assert(after.state.events.drop_last() =~= turn.drained.events);
            }
        }
    }
}

/// A handshake that completes publishes the authorities that were noted for it, where it resumes a
/// session those of that session in their place if there are none, and the protocol agreed on.
pub proof fn completion_publishes_the_noted_authorities(
    before: Progress,
    level: CryptoLevel,
    bytes: Seq<u8>,
    after: Progress,
    result: Result<(), TlsFault>,
) -> (authorities: AuthorityState)
    requires
        received(before, level, bytes, after, result),
        after.state.complete,
        !before.state.complete,
    ensures
        may_hold(before.peer, Some(authorities)),
        after.peer == before.peer,
        after.state.events.last() == (EventView::HandshakeComplete {
            alpn: protocol_of(after.connection),
            local: local_of(authorities, resumed(after.connection)),
            remote: remote_of(authorities, resumed(after.connection)),
        }),
{
    let (state, verdict) = offered(before.state, level, bytes.len());
    let turn = choose|turn: Turn| #[trigger]
        turn.explains(before.moved(state, before.connection), bytes, after, result);
    let known = informed(state, parameters_of(turn.read), side_of(turn.read));
    draining_passes_on_flights_and_keys(
        before.moved(known.0, turn.read),
        after.moved(turn.drained, after.connection),
        turn.fault,
    );
    turn.authorities->Some_0
}

/// The peer's transport parameters are passed on at most once.
pub proof fn parameters_are_reported_once(
    before: Progress,
    level: CryptoLevel,
    bytes: Seq<u8>,
    after: Progress,
    result: Result<(), TlsFault>,
)
    requires
        received(before, level, bytes, after, result),
        before.state.peer_parameters_emitted,
    ensures
        after.state.peer_parameters_emitted,
        only_adds(before.state, after.state, |event: EventView| !is_parameters(event)),
{
    let (state, verdict) = offered(before.state, level, bytes.len());
    if verdict == Ok::<bool, TlsFault>(true) {
        let turn = choose|turn: Turn| #[trigger] turn.explains(before.moved(state, before.connection), bytes, after, result);
        if turn.outcome is Ok {
            draining_passes_on_flights_and_keys(
                before.moved(state, turn.read),
                after.moved(turn.drained, after.connection),
                turn.fault,
            );
        }
    }
}

/// Input is taken exactly if there is any, nothing failed before, it is of the level that is due, and all input
/// together keeps the limit. Whatever is refused but for coming too late ends the handshake.
pub proof fn input_is_taken_at_its_level(state: HandshakeView, level: CryptoLevel, len: nat)
    ensures
        ({
            let (after, verdict) = offered(state, level, len);
            let due = !state.terminal && level == state.input_level;
            let fits = state.received_bytes + len <= state.limits.max_handshake_bytes;
            &&& verdict == Ok::<bool, TlsFault>(true) <==> len > 0 && due && fits
            &&& verdict == Ok::<bool, TlsFault>(false) <==> len == 0
            &&& verdict == Err::<bool, TlsFault>(TlsFault::EventAfterTerminal) <==> len > 0 && state.terminal
            &&& verdict == Err::<bool, TlsFault>(
                TlsFault::WrongCryptoLevel { expected: state.input_level, actual: level },
            ) <==> len > 0 && !state.terminal && level != state.input_level
            &&& verdict is Err ==> after.terminal
            &&& verdict is Ok ==> after.terminal == state.terminal
            &&& len > 0 && due && fits ==> after.received_bytes == state.received_bytes + len
            &&& after.events == state.events
            &&& after.input_level == state.input_level && after.output_level == state.output_level
            &&& after.complete == state.complete && after.role == state.role && after.limits == state.limits
        }),
{
}

/// The transport parameters of the peer are passed on once, as soon as they are known: a server hears of them
/// with the name the client asked for, a client alone.
pub proof fn parameters_are_passed_on_when_known(state: HandshakeView, parameters: Seq<u8>, name: Option<Seq<char>>)
    requires
        !state.peer_parameters_emitted,
    ensures
        informed(state, None, SideView::Client) == (state, Ok::<(), TlsFault>(())),
        state.role is Server ==> {
            let (after, result) = informed(state, Some(parameters), SideView::Server(name));
            result is Ok && after.peer_parameters_emitted && after.events.drop_last() == state.events
                && after.events.last() == (EventView::ClientHello { server_name: name, transport_parameters: parameters })
        },
        state.role is Client ==> {
            let (after, result) = informed(state, Some(parameters), SideView::Client);
            result is Ok && after.peer_parameters_emitted && after.events.drop_last() == state.events
                && after.events.last() == EventView::ServerTransportParameters(parameters)
        },
{
    let event = EventView::ClientHello { server_name: name, transport_parameters: parameters };
    assert(state.events.push(event).drop_last() =~= state.events);
    let event = EventView::ServerTransportParameters(parameters);
    assert(state.events.push(event).drop_last() =~= state.events);
}

/// What the backend writes goes out at the level that was in use, before new keys are installed. With the
/// handshake keys both directions go on at that level, with the 1-RTT keys what is sent does.
pub proof fn flights_go_out_before_new_keys(state: HandshakeView, output: Seq<u8>, keys: KeyStep)
    ensures
        ({
            let (after, result) = wrote(state, output, keys);
            let flight = if output.len() == 0 {
                Seq::<EventView>::empty()
            } else {
                seq![EventView::WriteCrypto { level: state.output_level, bytes: output }]
            };
            let installed = match keys {
                KeyStep::Unchanged => Seq::<EventView>::empty(),
                KeyStep::Handshake { opening, sealing } => seq![
                    EventView::InstallKeys(InstalledKeys::Handshake(BidirectionalKeys { opening, sealing })),
                ],
                KeyStep::OneRtt { opening, sealing, next_secret } => seq![
                    EventView::InstallKeys(
                        InstalledKeys::OneRtt(OneRttKeyMaterial { opening, sealing, next_secret }),
                    ),
                ],
            };
            &&& result is Err <==> output.len() > state.limits.max_flight_bytes
            &&& result is Err ==> after == state
            &&& result is Ok ==> after.events == state.events + flight + installed
            &&& result is Ok ==> after.input_level == if keys is Handshake {
                CryptoLevel::Handshake
            } else {
                state.input_level
            }
            &&& result is Ok ==> after.output_level == match keys {
                KeyStep::Unchanged => state.output_level,
                KeyStep::Handshake { .. } => CryptoLevel::Handshake,
                KeyStep::OneRtt { .. } => CryptoLevel::OneRtt,
            }
            &&& (result matches Ok(more) ==> (more <==> output.len() > 0 || !(keys is Unchanged)))
        }),
{
    let (after, _) = wrote(state, output, keys);
    let none = Seq::<EventView>::empty();
    assert(state.events + none + none =~= state.events);
    if output.len() > 0 {
        let flight = EventView::WriteCrypto { level: state.output_level, bytes: output };
        assert(state.events.push(flight) =~= state.events + seq![flight] + none);
    }
    assert(output.len() <= state.limits.max_flight_bytes ==> after.events =~= state.events + (if output.len() == 0 {
        none
    } else {
        seq![EventView::WriteCrypto { level: state.output_level, bytes: output }]
    }) + (match keys {
        KeyStep::Unchanged => none,
        KeyStep::Handshake { opening, sealing } => seq![
            EventView::InstallKeys(InstalledKeys::Handshake(BidirectionalKeys { opening, sealing })),
        ],
        KeyStep::OneRtt { opening, sealing, next_secret } => seq![
            EventView::InstallKeys(InstalledKeys::OneRtt(OneRttKeyMaterial { opening, sealing, next_secret })),
        ],
    }));
}

/// A handshake concludes exactly if who it is with is known: a client must have verified its server, or resume a
/// session in which it did, and a server must have presented itself. What was found now goes before what the
/// session kept, and without resumption the session counts for nothing.
pub proof fn handshake_concludes_with_whom_it_is(
    state: HandshakeView,
    authorities: AuthorityState,
    resumed: bool,
    alpn: Option<Seq<u8>>,
)
    ensures
        ({
            let (after, result) = concluded(state, Some(authorities), resumed, alpn);
            let local = local_of(authorities, resumed);
            let remote = remote_of(authorities, resumed);
            &&& authorities.local is Some ==> local == authorities.local
            &&& authorities.remote is Some ==> remote == authorities.remote
            &&& authorities.local is None && resumed ==> local == authorities.resumed_local
            &&& authorities.remote is None && resumed ==> remote == authorities.resumed_remote
            &&& authorities.local is None && !resumed ==> local is None
            &&& authorities.remote is None && !resumed ==> remote is None
            &&& result is Ok <==> (state.role is Client ==> remote is Some) && (state.role is Server ==> local is Some)
            &&& result is Err ==> after == state
            &&& result is Ok ==> after.complete && after.events == state.events.push(
                EventView::HandshakeComplete { alpn, local, remote },
            )
        }),
        concluded(state, None, resumed, alpn).1 is Err,
{
}

/// A failure of the backend ends the handshake, and is told as the alert that goes to the peer, or in words.
pub proof fn refusal_is_told(state: HandshakeView, alert: TlsAlert, reason: Seq<char>)
    ensures
        refused(state, Some(alert), reason).1 == TlsFault::Alert(alert),
        refused(state, Some(alert), reason).0.events == state.events.push(EventView::Alert(alert)),
        refused(state, None, reason).1 == TlsFault::Protocol(reason),
        refused(state, None, reason).0.events == state.events,
        refused(state, Some(alert), reason).0.terminal && refused(state, None, reason).0.terminal,
{
}

/// Once the backend is done with the handshake, input is due at the 1-RTT level.
pub proof fn finished_backend_reads_one_rtt(state: HandshakeView, connection: rustls::quic::Connection)
    ensures
        levelled(state, connection).input_level == if handshaking(connection) {
            state.input_level
        } else {
            CryptoLevel::OneRtt
        },
        levelled(state, connection).output_level == state.output_level,
        levelled(state, connection).events == state.events,
        concludes(state, connection) <==> !state.complete && !handshaking(connection),
{
}

/// After the handshake, input must leave the backend with nothing to write; a failure is told as the alert that
/// goes to the peer, or in words.
pub proof fn post_handshake_input_is_silent(
    read: Result<(), Seq<char>>,
    alert: Option<TlsAlert>,
    written: (Seq<u8>, KeyStep),
)
    ensures
        post_handshake(read, alert, written) is Ok <==> read is Ok && written.0.len() == 0 && written.1 is Unchanged,
        read is Err ==> post_handshake(read, alert, written) == match alert {
            Some(alert) => Err::<(), TlsFault>(TlsFault::Alert(alert)),
            None => Err(TlsFault::Protocol(read->Err_0)),
        },
{
}

/// What is read of a handshake is all that it is: its events in order, and how far it has come.
pub proof fn handshakes_are_read_as_they_are(handshake: TlsHandshake, index: int)
    ensures
        ({
            let state = handshake.state;
            let view = state.view();
            &&& handshake.view().state == view
            &&& handshake.view().connection == handshake.connection
            &&& handshake.view().peer == handshake.peer
            &&& view.role == state.role && view.limits == state.limits
            &&& view.input_level == state.input_level && view.output_level == state.output_level
            &&& view.received_bytes == state.received_bytes
            &&& view.peer_parameters_emitted == state.peer_parameters_emitted
            &&& view.complete == state.complete && view.terminal == state.terminal
            &&& view.events.len() == state.events@.len()
            &&& 0 <= index < view.events.len() ==> view.events[index] == state.events@[index].view()
        }),
{
}

/// What is read of an event is all that it says.
pub proof fn events_are_read_as_they_are(
    level: CryptoLevel,
    bytes: bytes::Bytes,
    keys: InstalledKeys,
    name: Option<String>,
    summary: HandshakeSummary,
    alert: TlsAlert,
)
    ensures
        (TlsEvent::WriteCrypto { level, bytes }).view() == (EventView::WriteCrypto { level, bytes: contents(bytes) }),
        TlsEvent::InstallKeys(keys).view() == EventView::InstallKeys(keys),
        (TlsEvent::ClientHello { server_name: name, transport_parameters: bytes }).view() == (EventView::ClientHello {
            server_name: match name {
                Some(name) => Some(name@),
                None => None,
            },
            transport_parameters: contents(bytes),
        }),
        TlsEvent::ServerTransportParameters(bytes).view() == EventView::ServerTransportParameters(contents(bytes)),
        TlsEvent::HandshakeComplete(summary).view() == (EventView::HandshakeComplete {
            alpn: match summary.alpn {
                Some(alpn) => Some(contents(alpn)),
                None => None,
            },
            local: summary.local,
            remote: summary.remote,
        }),
        TlsEvent::Alert(alert).view() == EventView::Alert(alert),
{
}

} // verus!
