use std::sync::{Arc, Mutex};

use dquic::ack::AckFrame;
use dquic::addr::{EndpointAddr, Ipv4Addr, Pathway, SocketAddr};
use dquic::assembly::{Epoch, FrameKind, FrameWrite, Packet, PacketContent, PacketType, PendingPacket};
use dquic::authority::{LocalAuthority, RemoteAuthority};
use dquic::cid::ConnectionId;
use dquic::constraints::{AntiAmplifier, Constraints};
use dquic::crypto_stream::CryptoStream;
use dquic::error::{CryptoError, ErrorKind, PacketError};
use dquic::handshake::{
    AuthorityState, EstablishedTls, HandshakeSummary, InstalledKeys, OneRttKeyMaterial, Role,
    TlsEvent, TlsHandshake, TlsLimits,
};
use dquic::keys::{ArcKeys, ArcOneRttKeys, KeyPoll, KeyRetired, KeyState, OneRttKeys};
use dquic::packet::CipherPacket;
use dquic::packet_number::PacketNumber;
use dquic::path::{Path, PathState};
use dquic::rcvd::ArcRcvdJournal;
use dquic::records::ArcSendJournal;
use dquic::sealing::{open_long, seal_long, DataPacket};
use dquic::sender::{finish_sealing, packet_error, Admission, Journals, PerEpoch, Sender};
use dquic::signals::Signals;
use dquic::space::Space;
use dquic::submission::{Allowed, Readiness, Settled, Submission};
use dquic::tls_error::CryptoLevel;
use dquic::varint::VarInt;
use rustls::client::danger::{HandshakeSignatureValid, ServerCertVerified, ServerCertVerifier};
use rustls::pki_types::{CertificateDer, PrivateKeyDer, PrivatePkcs8KeyDer, ServerName, UnixTime};
use rustls::{DigitallySignedStruct, SignatureScheme};

const SECOND: u64 = 1_000_000;

#[derive(Debug)]
struct AcceptAny;

impl ServerCertVerifier for AcceptAny {
    fn verify_server_cert(
        &self,
        _: &CertificateDer<'_>,
        _: &[CertificateDer<'_>],
        _: &ServerName<'_>,
        _: &[u8],
        _: UnixTime,
    ) -> Result<ServerCertVerified, rustls::Error> {
        Ok(ServerCertVerified::assertion())
    }

    fn verify_tls12_signature(
        &self,
        _: &[u8],
        _: &CertificateDer<'_>,
        _: &DigitallySignedStruct,
    ) -> Result<HandshakeSignatureValid, rustls::Error> {
        Ok(HandshakeSignatureValid::assertion())
    }

    fn verify_tls13_signature(
        &self,
        _: &[u8],
        _: &CertificateDer<'_>,
        _: &DigitallySignedStruct,
    ) -> Result<HandshakeSignatureValid, rustls::Error> {
        Ok(HandshakeSignatureValid::assertion())
    }

    fn supported_verify_schemes(&self) -> Vec<SignatureScheme> {
        vec![SignatureScheme::ED25519]
    }

    fn requires_raw_public_keys(&self) -> bool {
        true
    }
}

fn certified_key() -> rustls::sign::CertifiedKey {
    let mut der = vec![
        0x30, 0x2e, 0x02, 0x01, 0x00, 0x30, 0x05, 0x06, 0x03, 0x2b, 0x65, 0x70, 0x04, 0x22, 0x04,
        0x20,
    ];
    der.extend([7u8; 32]);
    let key = PrivateKeyDer::Pkcs8(PrivatePkcs8KeyDer::from(der));
    let signing = rustls::crypto::ring::sign::any_supported_type(&key).unwrap();
    let public_key = signing.public_key().unwrap();
    rustls::sign::CertifiedKey::new(
        vec![CertificateDer::from(public_key.as_ref().to_vec())],
        signing,
    )
}

fn limits() -> TlsLimits {
    TlsLimits {
        max_handshake_bytes: 65536,
        max_flight_bytes: 65536,
        max_certificates: 8,
        max_certificate_chain_bytes: 65536,
        max_ocsp_bytes: 65536,
    }
}

fn client_connection(alpn: &[&[u8]]) -> rustls::quic::Connection {
    let provider = Arc::new(rustls::crypto::ring::default_provider());
    let mut config = rustls::ClientConfig::builder_with_provider(provider)
        .with_protocol_versions(&[&rustls::version::TLS13])
        .unwrap()
        .dangerous()
        .with_custom_certificate_verifier(Arc::new(AcceptAny))
        .with_no_client_auth();
    config.alpn_protocols = alpn.iter().map(|name| name.to_vec()).collect();
    rustls::quic::ClientConnection::new(
        Arc::new(config),
        rustls::quic::Version::V1,
        ServerName::try_from("localhost").unwrap(),
        b"client-params".to_vec(),
    )
    .unwrap()
    .into()
}

fn server_connection(alpn: &[&[u8]]) -> rustls::quic::Connection {
    let provider = Arc::new(rustls::crypto::ring::default_provider());
    let mut config = rustls::ServerConfig::builder_with_provider(provider)
        .with_protocol_versions(&[&rustls::version::TLS13])
        .unwrap()
        .with_no_client_auth()
        .with_cert_resolver(Arc::new(
            rustls::server::AlwaysResolvesServerRawPublicKeys::new(Arc::new(certified_key())),
        ));
    config.alpn_protocols = alpn.iter().map(|name| name.to_vec()).collect();
    rustls::quic::ServerConnection::new(
        Arc::new(config),
        rustls::quic::Version::V1,
        b"server-params".to_vec(),
    )
    .unwrap()
    .into()
}

fn local() -> LocalAuthority {
    LocalAuthority {
        name: "localhost".to_owned(),
        certificates: vec![vec![1]],
        public_key: vec![2],
        ocsp: vec![3],
        key: Arc::new(certified_key()),
    }
}

fn remote() -> RemoteAuthority {
    RemoteAuthority {
        name: "localhost".to_owned(),
        certificates: vec![vec![1]],
        public_key: vec![2],
    }
}

fn peer(local: Option<LocalAuthority>, remote: Option<RemoteAuthority>) -> Arc<Mutex<AuthorityState>> {
    let mut state = AuthorityState::new();
    state.local = local;
    state.remote = remote;
    Arc::new(Mutex::new(state))
}

fn client() -> TlsHandshake {
    TlsHandshake::new(
        client_connection(&[b"h3", b"ssh"]),
        Role::Client,
        peer(None, Some(remote())),
        limits(),
    )
    .unwrap()
}

fn server() -> TlsHandshake {
    TlsHandshake::new(
        server_connection(&[b"ssh", b"h3"]),
        Role::Server,
        peer(Some(local()), None),
        limits(),
    )
    .unwrap()
}

#[derive(Default)]
struct Observed {
    summary: Option<HandshakeSummary>,
    parameters: Option<Vec<u8>>,
    server_name: Option<Option<String>>,
    handshake_keys: bool,
    one_rtt: Option<OneRttKeyMaterial>,
    zero_rtt: bool,
    levels: Vec<CryptoLevel>,
}

fn transfer(sender: &mut TlsHandshake, receiver: &mut TlsHandshake, observed: &mut Observed) -> bool {
    let mut progressed = false;
    while let Some(event) = sender.next_event() {
        progressed = true;
        match event {
            TlsEvent::WriteCrypto { level, bytes } => {
                observed.levels.push(level);
                for chunk in bytes.chunks(7) {
                    receiver.receive_crypto(level, chunk).unwrap();
                }
            }
            TlsEvent::InstallKeys(InstalledKeys::ZeroRtt(_)) => observed.zero_rtt = true,
            TlsEvent::InstallKeys(InstalledKeys::Handshake(_)) => observed.handshake_keys = true,
            TlsEvent::InstallKeys(InstalledKeys::OneRtt(keys)) => observed.one_rtt = Some(keys),
            TlsEvent::ClientHello {
                server_name,
                transport_parameters,
            } => {
                observed.server_name = Some(server_name);
                observed.parameters = Some(transport_parameters.to_vec());
            }
            TlsEvent::ServerTransportParameters(parameters) => {
                observed.parameters = Some(parameters.to_vec())
            }
            TlsEvent::HandshakeComplete(summary) => observed.summary = Some(summary),
            TlsEvent::Alert(_) => {}
        }
    }
    progressed
}

fn complete(client: &mut TlsHandshake, server: &mut TlsHandshake) -> [Observed; 2] {
    let mut observed = [Observed::default(), Observed::default()];
    for _ in 0..16 {
        let [left, right] = &mut observed;
        let progressed = transfer(client, server, left) | transfer(server, client, right);
        if client.is_complete() && server.is_complete() {
            transfer(client, server, left);
            transfer(server, client, right);
            return observed;
        }
        assert!(progressed, "handshake made no progress");
    }
    panic!("handshake did not complete");
}

fn handshake() -> [OneRttKeys; 2] {
    let observed = complete(&mut client(), &mut server());
    observed.map(|end| {
        let keys = end.one_rtt.unwrap();
        OneRttKeys::new(keys.opening, keys.sealing, keys.next_secret)
    })
}

fn established() -> [EstablishedTls; 2] {
    let (mut client, mut server) = (client(), server());
    complete(&mut client, &mut server);
    [client.finish().unwrap(), server.finish().unwrap()]
}

fn constraints() -> Constraints {
    Constraints {
        capacity: 1200,
        congestion: 1200,
        anti_amplification: 1200,
    }
}

fn ping() -> FrameWrite<u64> {
    FrameWrite {
        kind: FrameKind::Ping,
        bytes: vec![1],
        belongs: true,
    }
}

fn short_packet(tag_len: usize) -> Packet {
    Packet::new(vec![0; 1200], &vec![0x40], PacketType::OneRtt, tag_len).unwrap()
}

fn packet(pn: u64, keys: &mut OneRttKeys) -> Result<PendingPacket, PacketError> {
    let mut packet = short_packet(16);
    let mut frames = Vec::new();
    packet.assemble(&constraints(), &mut frames, &vec![], &vec![ping()], &mut vec![])?;
    let mut journal: ArcSendJournal<u64> = ArcSendJournal::starting_at(pn);
    journal.largest_acked = pn.saturating_sub(1);
    let ((pn, encoded), key) = keys.reserve(&mut journal, &mut frames)?;
    finish_sealing(packet.seal(&key, pn, encoded), pn, &mut journal, &mut frames)
}

fn short(bytes: Vec<u8>) -> DataPacket {
    DataPacket {
        bytes,
        offset: 1,
        long: false,
    }
}

fn open(keys: &mut OneRttKeys, bytes: Vec<u8>, journal: &ArcRcvdJournal) -> Option<u64> {
    open_at(keys, bytes, journal, 0)
}

fn open_at(keys: &mut OneRttKeys, bytes: Vec<u8>, journal: &ArcRcvdJournal, now: u64) -> Option<u64> {
    keys.open(&short(bytes), journal, now, SECOND)
        .unwrap()
        .map(|(pn, _)| pn)
}

fn generation(keys: &OneRttKeys) -> u64 {
    keys.packets.keys.last().unwrap().generation
}

#[test]
fn try_get_never_replaces_the_receive_waiter() {
    let mut keys = ArcKeys::<u64>::new_pending();
    assert_eq!(keys.try_get(), Ok(None));
    assert_eq!(keys.poll(1), KeyPoll::Pending);
    assert_eq!(keys.try_get(), Ok(None));
    assert_eq!(keys.try_get(), Ok(None));
    assert_eq!(keys.install(42).unwrap(), Some(1));
    assert_eq!(keys.try_get(), Ok(Some(&42)));
    assert_eq!(keys.poll(1), KeyPoll::Ready);
    keys.retire();
    assert_eq!(keys.try_get(), Err(KeyRetired));
    assert_eq!(keys.poll(1), KeyPoll::Retired);
}

#[test]
fn one_rtt_wait_yields_shared_material_and_reports_retirement() {
    let mut keys = ArcOneRttKeys::new_pending();
    assert!(matches!(keys.try_get(), Ok(None)));
    assert_eq!(keys.inner.poll(3), KeyPoll::Pending);
    assert!(matches!(keys.try_get(), Ok(None)));
    let [end, _] = complete(&mut client(), &mut server());
    let material = end.one_rtt.unwrap();
    assert_eq!(
        keys.install(material.opening, material.sealing, material.next_secret)
            .unwrap(),
        Some(3)
    );
    assert!(matches!(keys.try_get(), Ok(Some(_))));
    let KeyState::Ready(ready) = &mut keys.inner.state else {
        panic!()
    };
    ready.allow_update();
    ready.update().unwrap();
    assert_eq!(packet(0, ready).unwrap().generation, Some(1));
    keys.retire();
    assert!(matches!(keys.try_get(), Err(KeyRetired)));
    assert_eq!(keys.inner.poll(3), KeyPoll::Retired);
}

#[test]
fn seal_reports_the_phase_authenticated_in_the_header() {
    let [mut sending, mut receiving] = handshake();
    sending.allow_update();
    let journal = ArcRcvdJournal::with_capacity(0);
    for (generation, expected_phase) in [false, true, false].into_iter().enumerate() {
        let generation = generation as u64;
        if generation != 0 {
            sending.on_ack(generation - 1);
            sending.update().unwrap();
        }
        let pn = 100 + generation;
        let tag_len = sending.tag_len();
        let mut buffer = vec![0; 6 + tag_len];
        buffer[0] = 0x43; // Short header, no CID, four-byte PN.
        if !expected_phase {
            buffer[0] |= 0x04;
        }
        buffer[1..5].copy_from_slice(&(pn as u32).to_be_bytes());
        buffer[5] = 0x01; // PING
        let (bytes, sealed_generation, phase) = sending.seal(pn, &buffer, 1, 5, tag_len).unwrap();
        assert_eq!((sealed_generation, phase), (generation, expected_phase));

        let mut unprotected = bytes.clone();
        let (header, sample) = unprotected.split_at_mut(5);
        let (prefix, pn_bytes) = header.split_at_mut(1);
        let header_key = &receiving.headers.opening.header;
        header_key
            .decrypt_in_place(&sample[..header_key.sample_len()], &mut prefix[0], pn_bytes)
            .unwrap();
        assert_eq!(prefix[0] & 0x04 != 0, phase);

        let (opened_pn, frames) = receiving
            .open(&short(bytes), &journal, 0, SECOND)
            .unwrap()
            .unwrap();
        assert_eq!(opened_pn, pn);
        assert_eq!(frames, [1]);
    }
}

#[test]
fn duplicate_packet_skips_aead() {
    let [mut sending, mut receiving] = handshake();
    let bytes = packet(0, &mut sending).unwrap().msg;
    let mut journal = ArcRcvdJournal::with_capacity(0);
    journal.on_rcvd_pn(0, 0);
    assert_eq!(open(&mut receiving, bytes, &journal), None);
    assert_eq!(receiving.packets.failed_opened, 0);
    assert_eq!(receiving.packets.keys[0].received, None);
}

#[test]
fn reserved_packet_keys_stay_bound_across_updates_and_reverse_encryption() {
    let [mut keys, mut peer] = handshake();
    let journal = ArcRcvdJournal::with_capacity(0);
    keys.allow_update();
    let mut records: ArcSendJournal<u64> = ArcSendJournal::new();
    let ((earlier, _), old) = keys.reserve(&mut records, &mut Vec::new()).unwrap();
    keys.update().unwrap();
    let ((later, _), new) = keys.reserve(&mut records, &mut Vec::new()).unwrap();
    assert_eq!((earlier, later), (0, 1));
    let mut bytes = vec![0; 22];
    bytes[0] = 0x43;
    bytes[1..5].copy_from_slice(&(later as u32).to_be_bytes());
    bytes[5] = 1;
    let (sealed, generation, phase) = new.seal(later, &bytes, 1, 5, 16).unwrap();
    assert_eq!((generation, phase), (1, true));
    assert_eq!(open(&mut peer, sealed, &journal), Some(later));
    let mut bytes = vec![0; 22];
    bytes[0] = 0x43;
    bytes[1..5].copy_from_slice(&(earlier as u32).to_be_bytes());
    bytes[5] = 1;
    let (sealed, generation, phase) = old.seal(earlier, &bytes, 1, 5, 16).unwrap();
    assert_eq!((generation, phase), (0, false));
    assert_eq!(open(&mut peer, sealed, &journal), Some(earlier));
}

#[test]
fn first_update_needs_permission_and_later_updates_need_current_generation_ack() {
    let [mut keys, _] = handshake();
    assert_eq!(keys.update().unwrap_err().kind, ErrorKind::KeyUpdate);
    keys.on_ack(0);
    assert!(
        keys.update().is_err(),
        "an initial ACK does not confirm the handshake"
    );
    let [mut keys, _] = handshake();
    keys.allow_update();
    keys.update().unwrap();
    assert!(
        keys.update().is_err(),
        "the new generation has not been acknowledged"
    );
    assert_eq!(packet(1, &mut keys).unwrap().generation, Some(1));
    keys.on_ack(0);
    assert!(
        keys.update().is_err(),
        "old generation's ACK does not authorize another update"
    );
}

#[test]
fn key_updates_preserve_reordering_and_do_not_double_advance_sealing() {
    let [mut sending, mut receiving] = handshake();
    sending.allow_update();
    receiving.allow_update();
    let client_journal = ArcRcvdJournal::with_capacity(0);
    let server_journal = ArcRcvdJournal::with_capacity(0);
    for current in 1..=3 {
        let old = packet(current * 10 - 1, &mut sending).unwrap().msg;
        sending.on_ack(current - 1);
        sending.update().unwrap();
        // The second update is initiated by both endpoints at once.
        let server_generation = if current == 2 {
            receiving.on_ack(1);
            receiving.update().unwrap();
            2
        } else {
            current - 1
        };
        let low = packet(current * 10, &mut sending).unwrap();
        let high = packet(current * 10 + 1, &mut sending).unwrap();
        assert_eq!(high.generation, Some(current));
        let mut forged = high.msg.clone();
        *forged.last_mut().unwrap() ^= 1;
        assert_eq!(open(&mut receiving, forged, &server_journal), None);
        assert_eq!(generation(&receiving), server_generation);
        assert_eq!(
            open(&mut receiving, high.msg, &server_journal),
            Some(current * 10 + 1)
        );
        assert_eq!(
            open(&mut receiving, low.msg, &server_journal),
            Some(current * 10)
        );
        assert_eq!(
            open(&mut receiving, old, &server_journal),
            Some(current * 10 - 1)
        );
        let response = packet(current - 1, &mut receiving).unwrap();
        assert_eq!(response.generation, Some(current));
        assert_eq!(
            open(&mut sending, response.msg, &client_journal),
            Some(current - 1)
        );
        assert_eq!(generation(&sending), current);
        assert!(
            sending.update().is_err(),
            "a new-phase packet is not an ACK"
        );
        assert!(
            receiving.update().is_err(),
            "passive updates do not grant permission"
        );
    }
}

#[test]
fn peer_can_update_again_while_local_update_is_disallowed() {
    let [mut sending, mut receiving] = handshake();
    sending.allow_update();
    receiving.allow_update();
    let journal = ArcRcvdJournal::with_capacity(0);
    let oldest = packet(98, &mut sending).unwrap().msg;
    let first = packet(99, &mut sending).unwrap().msg;
    assert_eq!(open(&mut receiving, first, &journal), Some(99));
    sending.update().unwrap();
    let delayed = packet(100, &mut sending).unwrap().msg;
    let second = packet(101, &mut sending).unwrap().msg;
    assert_eq!(open(&mut receiving, second, &journal), Some(101));
    assert!(receiving.update().is_err());
    // The receiver replies under generation 1; ACK accounting confirms PN 101.
    let response = packet(7, &mut receiving).unwrap();
    assert_eq!(response.generation, Some(1));
    assert_eq!(open(&mut sending, response.msg, &journal), Some(7));
    assert!(sending.update().is_err());
    sending.on_ack(1);
    sending.update().unwrap();
    let next = packet(102, &mut sending).unwrap();
    assert_eq!(next.generation, Some(2));
    let mut forged = next.msg.clone();
    *forged.last_mut().unwrap() ^= 1;
    assert_eq!(open(&mut receiving, forged, &journal), None);
    assert_eq!(generation(&receiving), 1);
    assert_eq!(open(&mut receiving, next.msg, &journal), Some(102));
    assert_eq!(generation(&receiving), 2);
    assert_eq!(open(&mut receiving, delayed, &journal), Some(100));
    // Generations 0 and 2 share phase 0; PN selects the retained generation 0 pair.
    assert_eq!(open(&mut receiving, oldest.clone(), &journal), Some(98));
    // Neither receiving a new generation nor ACKing a previous generation permits updating.
    receiving.on_ack(1);
    assert!(receiving.update().is_err());
    assert_eq!(packet(8, &mut receiving).unwrap().generation, Some(2));
    receiving.on_ack(2);
    receiving.update().unwrap();
    assert_eq!(
        open(&mut receiving, oldest, &journal),
        None,
        "the fourth pair evicts generation 0"
    );
}

#[test]
fn local_update_keeps_old_opening_until_peer_uses_the_new_pair() {
    let [mut receiving, mut sending] = handshake();
    sending.allow_update();
    receiving.allow_update();
    let journal = ArcRcvdJournal::with_capacity(0);
    let mut now = 0;
    let old = packet(0, &mut sending).unwrap().msg;
    let late_old = packet(1, &mut sending).unwrap().msg;
    receiving.update().unwrap();
    now += 4 * SECOND;
    assert_eq!(open_at(&mut receiving, old, &journal, now), Some(0));
    sending.update().unwrap();
    let updated = packet(2, &mut sending).unwrap().msg;
    assert_eq!(open_at(&mut receiving, updated, &journal, now), Some(2));
    assert!(
        receiving.update().is_err(),
        "opening the tail does not grant permission"
    );
    assert_eq!(generation(&receiving), 1);
    now += 3 * SECOND;
    assert_eq!(open_at(&mut receiving, late_old, &journal, now), None);
    let next = packet(3, &mut sending).unwrap().msg;
    assert_eq!(open_at(&mut receiving, next, &journal, now), Some(3));
}

fn seal_limit(keys: &OneRttKeys) -> u64 {
    match &keys.packets.keys.last().unwrap().updated {
        Some(updated) => updated.local.confidentiality_limit(),
        None => keys.headers.sealing.packet.confidentiality_limit(),
    }
}

#[test]
fn sealing_counts_each_use_and_stops_at_the_limit() {
    let [mut keys, _] = handshake();
    let limit = seal_limit(&keys);
    keys.packets.sealed_count = limit - 1;
    let buffer = vec![0x40; 64];
    let (_, generation, phase) = keys.seal(7, &buffer, 9, 11, 16).unwrap();
    assert_eq!((generation, phase), (0, false));
    assert_eq!(keys.packets.sealed_count, limit);
    for _ in 0..2 {
        assert!(matches!(
            keys.seal(8, &buffer, 9, 11, 16),
            Err(PacketError::Connection(error)) if error.kind == ErrorKind::AeadLimitReached
        ));
        assert_eq!(keys.packets.sealed_count, limit);
    }
    // Once an update is permitted, sealing goes on with a new generation, counted anew.
    keys.allow_update();
    let (_, generation, phase) = keys.seal(8, &buffer, 9, 11, 16).unwrap();
    assert_eq!((generation, phase), (1, true));
    assert_eq!(keys.packets.sealed_count, 1);
    assert!(!keys.packets.can_update);
}

#[test]
fn failed_allocation_does_not_consume_the_last_aead_use() {
    let [mut keys, _] = handshake();
    let limit = seal_limit(&keys);
    keys.packets.sealed_count = limit - 1;
    let mut full: ArcSendJournal<u64> = ArcSendJournal::new();
    for _ in 0..dquic::records::MAX_RECORDS {
        full.record_pending(Some(0), &mut Vec::new()).unwrap();
    }
    assert!(matches!(
        keys.reserve(&mut full, &mut Vec::new()),
        Err(PacketError::Blocked(_))
    ));
    let mut journal: ArcSendJournal<u64> = ArcSendJournal::new();
    keys.reserve(&mut journal, &mut Vec::new()).unwrap();
    assert_eq!(keys.packets.sealed_count, limit);
    assert!(keys.reserve(&mut journal, &mut Vec::new()).is_err());
    assert_eq!(journal.next_pn, 1, "allocated beyond the AEAD limit");
}

#[test]
fn confidentiality_limit_updates_when_permitted_and_fails_when_not() {
    let [mut keys, _] = handshake();
    keys.allow_update();
    keys.on_ack(0);
    keys.packets.sealed_count = seal_limit(&keys);
    assert_eq!(packet(0, &mut keys).unwrap().generation, Some(1));
    keys.packets.sealed_count = seal_limit(&keys);
    assert!(
        matches!(packet(1, &mut keys), Err(PacketError::Connection(error)) if error.kind == ErrorKind::AeadLimitReached)
    );
}

#[test]
fn authentication_failures_enforce_the_integrity_limit() {
    let [mut sending, mut receiving] = handshake();
    receiving.packets.failed_opened = receiving.headers.opening.packet.integrity_limit() - 1;
    let mut forged = packet(0, &mut sending).unwrap().msg;
    *forged.last_mut().unwrap() ^= 1;
    let journal = ArcRcvdJournal::with_capacity(0);
    assert!(
        matches!(receiving.open(&short(forged), &journal, 0, SECOND), Err(error) if error.kind == ErrorKind::AeadLimitReached)
    );
    assert_eq!(journal.decode_pn(PacketNumber::encode(0, 0)), Ok(0));
}

#[test]
fn retirement_wakes_a_pending_key_wait_and_cannot_be_reinstalled() {
    let mut keys = ArcKeys::<()>::new_pending();
    assert_eq!(keys.poll(9), KeyPoll::Pending);
    assert_eq!(keys.retire(), Some(9));
    assert_eq!(keys.poll(9), KeyPoll::Retired);
    assert_eq!(keys.try_get(), Err(KeyRetired));
    assert_eq!(keys.install(()).unwrap_err().kind, ErrorKind::Internal);
}

#[test]
fn retiring_pending_one_rtt_keys_wakes_the_waiter_with_key_retired() {
    let mut keys = ArcOneRttKeys::new_pending();
    assert_eq!(keys.inner.poll(4), KeyPoll::Pending);
    assert_eq!(keys.retire(), Some(4));
    assert!(matches!(keys.try_get(), Err(KeyRetired)));
    assert_eq!(keys.inner.poll(4), KeyPoll::Retired);
}

#[test]
fn key_state_future_preserves_ready_material_and_reports_retirement() {
    let material = Arc::new(vec![1, 2, 3]);
    let mut state = KeyState::Pending;
    assert_eq!(state.poll_ready(1), KeyPoll::Pending);
    assert_eq!(state.poll_ready(1), KeyPoll::Pending);
    state = KeyState::Ready(material.clone());
    for _ in 0..2 {
        assert_eq!(state.poll_ready(1), KeyPoll::Ready);
        assert!(matches!(&state, KeyState::Ready(keys) if Arc::ptr_eq(&material, keys)));
    }
    state = KeyState::Retired;
    assert_eq!(state.poll_ready(1), KeyPoll::Retired);
}

#[test]
fn installing_keys_wakes_the_future_and_keeps_the_shared_material() {
    let mut keys = ArcKeys::new_pending();
    assert_eq!(keys.poll(5), KeyPoll::Pending);
    let material = Arc::new(vec![1, 2, 3]);
    assert_eq!(keys.install(material.clone()).unwrap(), Some(5));
    assert_eq!(keys.poll(5), KeyPoll::Ready);
    assert!(Arc::ptr_eq(keys.try_get().unwrap().unwrap(), &material));
    keys.retire();
    assert_eq!(keys.poll(5), KeyPoll::Retired);
}

#[test]
fn failed_sealing_leaves_journal_cancellation_to_the_caller() {
    let [mut keys, _] = handshake();
    let mut journal = ArcSendJournal::new();
    let mut packet = short_packet(keys.tag_len() - 1);
    let mut frames = Vec::new();
    let frame = FrameWrite {
        kind: FrameKind::Guaranteed(42),
        bytes: vec![0x10, 42],
        belongs: true,
    };
    packet
        .assemble(&constraints(), &mut frames, &vec![], &vec![frame], &mut vec![])
        .unwrap();
    let ((pn, encoded), key) = keys.reserve(&mut journal, &mut frames).unwrap();
    let result = packet.seal(&key, pn, encoded);
    assert!(matches!(result, Err(PacketError::Crypto(CryptoError::Seal))));
    // Sealing neither drains recovery records nor cancels their journal entry.
    assert!(frames.is_empty());
    assert!(finish_sealing(result, pn, &mut journal, &mut frames).is_err());
    assert_eq!(frames, [42]);
    let ack = AckFrame {
        largest: VarInt::from_u32(0),
        delay: VarInt::from_u32(0),
        first_range: VarInt::from_u32(0),
        ranges: vec![],
        ecn: None,
    };
    assert!(journal.acknowledge(&ack).is_err());
    assert_eq!(journal.record_pending(Some(0), &mut frames).unwrap().0, 1);
}

#[test]
fn failed_sealing_abandons_pn_and_returns_recovery_frames() {
    let [mut keys, _] = handshake();
    let mut journal = ArcSendJournal::new();
    let mut packet = short_packet(keys.tag_len() + 1);
    let mut frames = Vec::new();
    let frame = FrameWrite {
        kind: FrameKind::Guaranteed(7),
        bytes: vec![0x10, 7],
        belongs: true,
    };
    packet
        .assemble(&constraints(), &mut frames, &vec![], &vec![frame], &mut vec![])
        .unwrap();
    let ((pn, encoded), key) = keys.reserve(&mut journal, &mut frames).unwrap();
    let result = packet.seal(&key, pn, encoded);
    assert!(finish_sealing(result, pn, &mut journal, &mut frames).is_err());
    assert_eq!(frames, [7]);
    assert!(journal.packets.is_empty());
    assert_eq!(journal.skipped_pns, [0]);
    assert_eq!(journal.next_pn, 1);
}

#[test]
fn long_packets_seal_and_open_with_the_keys_of_the_other_end() {
    let suite = rustls::crypto::ring::cipher_suite::TLS13_AES_128_GCM_SHA256
        .tls13()
        .unwrap();
    let keys = |side| {
        rustls::quic::Keys::initial(
            rustls::quic::Version::V1,
            suite,
            suite.quic.unwrap(),
            b"destination cid",
            side,
        )
    };
    let client = keys(rustls::Side::Client);
    let server = keys(rustls::Side::Server);
    let mut wire = vec![0xc3, 0, 0, 0, 5];
    wire.extend([1u8; 30]);
    wire.extend([0u8; 16]);
    let sealed = seal_long(&client.local, 5, &wire, 1, 5, 16).unwrap();
    assert_eq!(sealed.len(), wire.len());
    assert_ne!(sealed, wire);
    let received = DataPacket {
        bytes: sealed.clone(),
        offset: 1,
        long: true,
    };
    let journal = ArcRcvdJournal::with_capacity(0);
    let (pn, payload) = open_long(&server.remote, &received, &journal).unwrap().unwrap();
    assert_eq!((pn, payload), (5, vec![1; 30]));
    assert!(open_long(&client.remote, &received, &journal).unwrap().is_none());

    let opened = CipherPacket::new((), sealed.clone(), 1)
        .decrypt_long_packet(&server.remote, &journal)
        .unwrap()
        .unwrap();
    assert_eq!(opened.pn(), 5);
    assert_eq!(opened.body().as_ref(), [1; 30]);
    assert_eq!(opened.payload_len(), 34);
    assert_eq!(opened.size(), sealed.len());

    let mut forged = sealed;
    forged[20] ^= 1;
    let forged = DataPacket {
        bytes: forged,
        offset: 1,
        long: true,
    };
    assert!(open_long(&server.remote, &forged, &journal).unwrap().is_none());
}

#[test]
fn reserved_bits_are_an_error_only_once_authenticated() {
    let [mut sending, mut receiving] = handshake();
    let journal = ArcRcvdJournal::with_capacity(0);
    let mut wire = vec![0x43 | 0x18, 0, 0, 0, 9, 1];
    wire.extend([0u8; 16]);
    let (sealed, _, _) = sending.seal(9, &wire, 1, 5, 16).unwrap();
    let mut forged = sealed.clone();
    *forged.last_mut().unwrap() ^= 1;
    assert_eq!(open(&mut receiving, forged, &journal), None);
    let error = receiving
        .open(&short(sealed), &journal, 0, SECOND)
        .unwrap_err();
    assert_eq!(error.kind, ErrorKind::ProtocolViolation);
}

#[test]
fn an_authentic_packet_without_frames_is_a_violation() {
    let [mut sending, mut receiving] = handshake();
    let journal = ArcRcvdJournal::with_capacity(0);
    let mut wire = vec![0x43, 0, 0, 0, 9];
    wire.extend([0u8; 16]);
    let (sealed, _, _) = sending.seal(9, &wire, 1, 5, 16).unwrap();
    let error = receiving
        .open(&short(sealed), &journal, 0, SECOND)
        .unwrap_err();
    assert_eq!(error.kind, ErrorKind::ProtocolViolation);
}

#[test]
fn short_packets_open_through_their_header_type() {
    let [mut sending, mut receiving] = handshake();
    let journal = ArcRcvdJournal::with_capacity(0);
    let sealed = packet(3, &mut sending).unwrap();
    let opened = CipherPacket::new("header", sealed.msg, 1)
        .decrypt_short_packet(&mut receiving, &journal, 0, SECOND)
        .unwrap()
        .unwrap();
    assert_eq!(opened.pn(), 3);
    assert_eq!(opened.header, "header");
    assert_eq!(opened.body()[0], 1);
}

#[test]
fn handshake_publishes_parameters_names_keys_and_authorities() {
    let (mut client, mut server) = (client(), server());
    let [client_events, server_events] = complete(&mut client, &mut server);
    assert_eq!(
        client_events.parameters.as_deref(),
        Some(b"server-params".as_slice())
    );
    assert_eq!(
        server_events.parameters.as_deref(),
        Some(b"client-params".as_slice())
    );
    assert_eq!(
        server_events.server_name.flatten().as_deref(),
        Some("localhost")
    );
    assert!(client_events.handshake_keys && server_events.handshake_keys);
    assert!(!client_events.zero_rtt && !server_events.zero_rtt);
    assert_eq!(client_events.levels.first(), Some(&CryptoLevel::Initial));
    assert!(server_events.levels.contains(&CryptoLevel::Handshake));

    let client_summary = client_events.summary.unwrap();
    assert_eq!(client_summary.alpn.as_deref(), Some(b"ssh".as_slice()));
    assert!(client_summary.local.is_none());
    assert_eq!(client_summary.remote.unwrap().name(), "localhost");
    let server_summary = server_events.summary.unwrap();
    assert_eq!(server_summary.local.unwrap().name(), "localhost");
    assert!(server_summary.remote.is_none());
}

#[test]
fn exported_material_agrees_at_both_ends() {
    let [client, server] = established();
    let mut client_export = vec![0u8; 32];
    let mut server_export = vec![0u8; 32];
    client
        .export_keying_material(&mut client_export, b"qtls test", Some(b"context"))
        .unwrap();
    server
        .export_keying_material(&mut server_export, b"qtls test", Some(b"context"))
        .unwrap();
    assert_eq!(client_export, server_export);
    assert_ne!(client_export, vec![0u8; 32]);
    let mut other = vec![0u8; 32];
    server
        .export_keying_material(&mut other, b"other label", Some(b"context"))
        .unwrap();
    assert_ne!(client_export, other);
    assert!(server
        .export_keying_material(&mut Vec::new(), b"qtls test", None)
        .is_err());
}

#[test]
fn wrong_crypto_level_is_rejected_but_empty_input_is_a_noop() {
    let mut handshake = client();
    handshake
        .receive_crypto(CryptoLevel::Handshake, &[])
        .unwrap();
    let error = handshake
        .receive_crypto(CryptoLevel::Handshake, &[1])
        .unwrap_err();
    assert!(error.message().contains("expected Initial"));
    let terminal = handshake
        .receive_crypto(CryptoLevel::Initial, &[1])
        .unwrap_err();
    assert!(terminal.message().contains("terminal state"));
}

#[test]
fn a_handshake_cannot_finish_before_it_is_complete() {
    let handshake = client();
    assert!(!handshake.is_complete());
    assert!(handshake.finish().is_err());
}

#[test]
fn too_much_handshake_input_is_refused_for_good() {
    let mut small = limits();
    small.max_handshake_bytes = 3;
    let mut handshake = TlsHandshake::new(
        client_connection(&[]),
        Role::Client,
        peer(None, Some(remote())),
        small,
    )
    .unwrap();
    let error = handshake
        .receive_crypto(CryptoLevel::Initial, &[2, 0, 0, 40])
        .unwrap_err();
    assert!(error.message().contains("handshake bytes"));
    assert!(handshake
        .receive_crypto(CryptoLevel::Initial, &[2])
        .unwrap_err()
        .message()
        .contains("terminal state"));
}

#[test]
fn too_long_a_flight_is_refused() {
    let mut small = limits();
    small.max_flight_bytes = 10;
    let result = TlsHandshake::new(
        client_connection(&[]),
        Role::Client,
        peer(None, Some(remote())),
        small,
    );
    assert!(result.err().unwrap().message().contains("output flight"));
}

#[test]
fn malformed_input_ends_in_an_alert() {
    let mut handshake = server();
    let error = handshake
        .receive_crypto(CryptoLevel::Initial, &[2, 0, 0, 1, 0])
        .unwrap_err();
    assert_eq!(error.message(), "TLS alert");
    assert!(matches!(handshake.next_event(), Some(TlsEvent::Alert(_))));
}

#[test]
fn a_role_that_is_not_the_connections_is_noticed() {
    let mut client = client();
    let mut server = TlsHandshake::new(
        server_connection(&[b"h3"]),
        Role::Client,
        peer(Some(local()), None),
        limits(),
    )
    .unwrap();
    let Some(TlsEvent::WriteCrypto { level, bytes }) = client.next_event() else {
        panic!()
    };
    let error = server.receive_crypto(level, &bytes).unwrap_err();
    assert_eq!(error.message(), "missing matching TLS role");
}

#[test]
fn completion_requires_the_authority_of_the_role() {
    let mut unverified = TlsHandshake::new(
        client_connection(&[b"h3"]),
        Role::Client,
        peer(None, None),
        limits(),
    )
    .unwrap();
    let mut server = server();
    let mut failure = None;
    for _ in 0..4 {
        while let Some(event) = unverified.next_event() {
            if let TlsEvent::WriteCrypto { level, bytes } = event {
                server.receive_crypto(level, &bytes).unwrap();
            }
        }
        while let Some(event) = server.next_event() {
            if let TlsEvent::WriteCrypto { level, bytes } = event {
                if let Err(error) = unverified.receive_crypto(level, &bytes) {
                    failure = Some(error);
                    break;
                }
            }
        }
        if failure.is_some() {
            break;
        }
    }
    assert_eq!(
        failure.unwrap().message(),
        "missing verified server authority"
    );
    assert!(!unverified.is_complete());
}

#[test]
fn post_handshake_input_is_taken_until_it_fails() {
    let [mut client, _] = established();
    client.receive_post_handshake(&[]).unwrap();
    let error = client.receive_post_handshake(&[0xff, 0, 0, 1, 0]).unwrap_err();
    assert!(error.message().contains("alert") || error.message().contains("protocol"));
    assert!(client
        .receive_post_handshake(&[1])
        .unwrap_err()
        .message()
        .contains("terminal state"));
    client.receive_post_handshake(&[]).unwrap();
}

#[test]
fn initial_keys_interoperate_for_v1_and_v2() {
    let suite = rustls::crypto::ring::cipher_suite::TLS13_AES_128_GCM_SHA256
        .tls13()
        .unwrap();
    for version in [rustls::quic::Version::V1, rustls::quic::Version::V2] {
        let keys = |side| {
            rustls::quic::Keys::initial(version, suite, suite.quic.unwrap(), b"destination cid", side)
        };
        let client_keys = keys(rustls::Side::Client);
        let server_keys = keys(rustls::Side::Server);
        let mut wire = vec![0xc2, 1, 2, 3];
        wire.extend(b"protected payload");
        wire.extend([0u8; 16]);
        let sealed = seal_long(&client_keys.local, 0x010203, &wire, 1, 4, 16).unwrap();
        let mut journal = ArcRcvdJournal::with_capacity(0);
        journal.on_rcvd_pn(0x010200, 0);
        let received = DataPacket {
            bytes: sealed,
            offset: 1,
            long: true,
        };
        let (pn, payload) = open_long(&server_keys.remote, &received, &journal)
            .unwrap()
            .unwrap();
        assert_eq!(pn, 0x010203);
        assert_eq!(payload, b"protected payload");
    }
}

fn original_header() -> Vec<u8> {
    let mut header = vec![0x40];
    header.extend(b"original");
    header
}

fn original_packet(capacity: usize) -> Packet {
    Packet::new(vec![0; capacity], &original_header(), PacketType::OneRtt, 16).unwrap()
}

fn frame(kind: FrameKind<u64>, bytes: Vec<u8>) -> FrameWrite<u64> {
    FrameWrite {
        kind,
        bytes,
        belongs: true,
    }
}

fn ack_write(largest: u64) -> FrameWrite<u64> {
    frame(
        FrameKind::Ack { largest },
        vec![0x02, largest as u8, 0, 0, 0],
    )
}

fn max_data(value: u64) -> FrameWrite<u64> {
    frame(
        FrameKind::Guaranteed(value),
        vec![0x10, 0x40 | (value >> 8) as u8, value as u8],
    )
}

fn crypto(id: u64, len: usize) -> FrameWrite<u64> {
    let mut bytes = vec![0x06, 0, 0x40 | (len >> 8) as u8, len as u8];
    bytes.extend(vec![7; len]);
    frame(FrameKind::Guaranteed(id), bytes)
}

fn ack(pn: u64) -> AckFrame {
    AckFrame {
        largest: VarInt::from_u32(pn as u32),
        delay: VarInt::from_u32(0),
        first_range: VarInt::from_u32(0),
        ranges: vec![],
        ecn: None,
    }
}

fn open_original(keys: &mut OneRttKeys, bytes: &[u8]) -> Option<(u64, Vec<u8>)> {
    let packet = DataPacket {
        bytes: bytes.to_vec(),
        offset: 9,
        long: false,
    };
    let journal = ArcRcvdJournal::with_capacity(0);
    keys.open(&packet, &journal, 0, SECOND).unwrap()
}

#[test]
fn short_packet_numbers_round_trip_with_header_protection_padding() {
    let [mut client, mut server] = handshake();
    for pn in [0, 1 << 15, 1 << 23] {
        let mut packet = original_packet(1200);
        let mut records: Vec<u64> = Vec::new();
        packet
            .assemble(&constraints(), &mut records, &vec![], &vec![ping()], &mut vec![])
            .unwrap();
        let mut journal = ArcSendJournal::starting_at(pn);
        let ((pn, number), key) = client.reserve(&mut journal, &mut records).unwrap();
        assert_eq!(number, PacketNumber::encode(pn, 0));
        let sealed = packet.seal(&key, pn, number).unwrap();
        assert!(sealed.bytes().len() >= 9 + 20);
        let (decoded, frames) = open_original(&mut server, sealed.bytes()).unwrap();
        assert_eq!(decoded, pn);
        assert_eq!(frames[0], 1);
    }
}

#[test]
fn header_protection_padding_obeys_every_packet_limit() {
    let minimum = original_header().len() + 22;
    for limited in 0..3 {
        let mut records: Vec<u64> = Vec::new();
        let mut packet = original_packet(minimum);
        let full = Constraints {
            capacity: minimum,
            congestion: minimum,
            anti_amplification: minimum,
        };
        let mut short = full;
        match limited {
            0 => short.capacity -= 1,
            1 => short.congestion -= 1,
            _ => short.anti_amplification -= 1,
        }
        let frames = vec![ping()];
        assert!(packet
            .assemble(&short, &mut records, &vec![], &frames, &mut vec![])
            .is_err());
        packet
            .assemble(&full, &mut records, &vec![], &frames, &mut vec![])
            .unwrap();
    }
}

#[test]
fn a_large_frame_that_fits_is_assembled_before_later_sources() {
    let mut records = Vec::new();
    let mut packet = original_packet(1200);
    let mut accepted = Vec::new();
    packet
        .assemble(
            &constraints(),
            &mut records,
            &vec![],
            &vec![crypto(800, 800), ping()],
            &mut accepted,
        )
        .unwrap();
    assert_eq!(records, [800]);
    assert_eq!(accepted, [true, true]);
}

#[test]
fn earlier_sources_fill_the_packet_and_remaining_frames_stay_queued() {
    let mut queued: Vec<u64> = (1000..1600).collect();
    let mut sent = Vec::new();
    for pn in 0..2 {
        let mut frames: Vec<FrameWrite<u64>> = queued.iter().map(|value| max_data(*value)).collect();
        frames.push(frame(FrameKind::Guaranteed(5), vec![6, 0, 5, 1, 2, 3, 4, 5]));
        let mut records = Vec::new();
        let mut accepted = Vec::new();
        original_packet(1200)
            .assemble(&constraints(), &mut records, &vec![], &frames, &mut accepted)
            .unwrap();
        sent.extend(records.iter().copied().filter(|value| *value >= 1000));
        if pn == 0 {
            assert!(sent.len() > 300);
            assert!(!records.contains(&5));
        } else {
            assert_eq!(records.last(), Some(&5));
        }
        queued = queued
            .into_iter()
            .zip(accepted)
            .filter(|(_, accepted)| !accepted)
            .map(|(value, _)| value)
            .collect();
    }
    assert_eq!(sent, (1000..1600).collect::<Vec<_>>());
}

#[test]
fn packet_constraints_keep_ack_only_outside_cwnd_but_inside_amplification_budget() {
    let [mut keys, _] = handshake();
    let mut records = Vec::new();
    let mut packet = original_packet(1200);
    let limits = Constraints {
        capacity: 1200,
        congestion: 0,
        anti_amplification: 1200,
    };
    packet
        .assemble(
            &limits,
            &mut records,
            &vec![],
            &vec![ack_write(0), ping()],
            &mut vec![],
        )
        .unwrap();
    assert!(packet.pad_to(1200, &limits).is_err());
    let mut journal = ArcSendJournal::new();
    let ((pn, number), key) = keys.reserve(&mut journal, &mut records).unwrap();
    let sealed = packet.seal(&key, pn, number).unwrap();
    assert!(!sealed.in_flight);
    assert_eq!(sealed.largest_acked, Some(0));
    let result = original_packet(1200).assemble(
        &Constraints {
            capacity: 1200,
            congestion: 1200,
            anti_amplification: 10,
        },
        &mut records,
        &vec![],
        &vec![ack_write(0)],
        &mut vec![],
    );
    assert!(matches!(result, Err(PacketError::Blocked(_))));
}

#[test]
fn packet_assembly_uses_fixed_limits_across_ack_data_and_padding() {
    let mut records: Vec<u64> = Vec::new();
    let mut packet = original_packet(1200);
    let mut limits = Constraints {
        capacity: 100,
        congestion: 0,
        anti_amplification: 100,
    };
    let pings = vec![ping()];
    packet
        .assemble(&limits, &mut records, &vec![], &vec![ack_write(0)], &mut vec![])
        .unwrap();
    assert!(packet
        .assemble(&limits, &mut records, &vec![], &pings, &mut vec![])
        .is_err());
    assert!(packet.pad_to(100, &limits).is_err());

    limits.congestion = 100;
    packet
        .assemble(&limits, &mut records, &vec![], &pings, &mut vec![])
        .unwrap();
    packet.pad_to(100, &limits).unwrap();
    assert!(packet
        .assemble(&limits, &mut records, &vec![], &pings, &mut vec![])
        .is_err());
    assert!(packet.pad_to(101, &limits).is_err());
    assert!(records.is_empty());
    assert_eq!(
        (limits.capacity, limits.congestion, limits.anti_amplification),
        (100, 100, 100)
    );
}

fn padding_before_the_number_obeys_congestion(mut packet: Packet) {
    let limits = Constraints {
        capacity: 1200,
        congestion: 0,
        anti_amplification: 1200,
    };
    let mut records: Vec<u64> = Vec::new();
    packet
        .assemble(&limits, &mut records, &vec![], &vec![ack_write(0)], &mut vec![])
        .unwrap();
    let length = packet.cursor + packet.tag_len;
    assert!(packet.pad_to(length, &limits).is_err());
}

#[test]
fn packet_padding_requested_before_pn_allocation_obeys_congestion() {
    padding_before_the_number_obeys_congestion(short_packet(16));
}

#[test]
fn write_padding_requested_before_pn_allocation_obeys_congestion() {
    padding_before_the_number_obeys_congestion(original_packet(1200));
}

#[test]
fn crypto_data_respects_each_limit_without_losing_unsent_bytes() {
    for limited in 0..3 {
        let mut stream = CryptoStream::new();
        stream.outgoing.sender.poll_write(1, &[0x63; 200]).0.unwrap();
        let mut received = Vec::new();
        for turn in 0..32 {
            let mut limits = constraints();
            let limit = if turn == 0 { 24 } else { 80 };
            match limited {
                0 => limits.capacity = limit,
                1 => limits.congestion = limit,
                _ => limits.anti_amplification = limit,
            }
            let packet = original_packet(1200);
            let room = packet.remaining_mut(&limits);
            let Ok(pieces) = stream.outgoing.try_load_data_into(room, false) else {
                continue;
            };
            assert!(turn > 0, "nothing fits so little room");
            for piece in pieces {
                assert_eq!(piece.offset, received.len() as u64);
                received.extend(piece.data);
            }
        }
        assert_eq!(received, [0x63; 200]);
    }
}

struct Ends {
    client: rustls::quic::Keys,
    server: rustls::quic::Keys,
}

fn fixed_keys() -> Ends {
    let suite = rustls::crypto::ring::cipher_suite::TLS13_AES_128_GCM_SHA256
        .tls13()
        .unwrap();
    let keys = |side| {
        rustls::quic::Keys::initial(
            rustls::quic::Version::V1,
            suite,
            suite.quic.unwrap(),
            b"original",
            side,
        )
    };
    Ends {
        client: keys(rustls::Side::Client),
        server: keys(rustls::Side::Server),
    }
}

fn long_header(first: u8) -> Vec<u8> {
    let mut header = vec![first, 0, 0, 0, 1, 8];
    header.extend(b"original");
    header.push(8);
    header.extend(b"clientid");
    header
}

fn path_sender(credit: AntiAmplifier) -> Sender<u64> {
    Sender::new(0, 64, credit)
}

fn granted() -> AntiAmplifier {
    let mut credit = AntiAmplifier::new(true);
    credit.grant();
    credit
}

fn long_packet(
    sender: &mut Sender<u64>,
    keys: &rustls::quic::DirectionalKeys,
    packet_type: PacketType,
    journal: &mut ArcSendJournal<u64>,
    frames: Vec<FrameWrite<u64>>,
) -> Option<PendingPacket> {
    let first = match packet_type {
        PacketType::Initial => 0xc0,
        PacketType::ZeroRtt => 0xd0,
        _ => 0xe0,
    };
    let header = long_header(first);
    let (mut accepted, mut recovered) = (Vec::new(), Vec::new());
    let limits = constraints();
    match packet_type {
        PacketType::Initial => sender.assemble_initial_packet(
            keys,
            &header,
            journal,
            &limits,
            0,
            &frames,
            &mut accepted,
            &mut recovered,
        ),
        PacketType::ZeroRtt => sender.assemble_0rtt_packet(
            keys,
            &header,
            journal,
            &limits,
            0,
            &frames,
            &mut accepted,
            &mut recovered,
        ),
        _ => sender.assemble_handshake_packet(
            keys,
            &header,
            journal,
            &limits,
            0,
            &frames,
            &mut accepted,
            &mut recovered,
        ),
    }
    .unwrap()
}

fn data_packet(
    sender: &mut Sender<u64>,
    keys: &mut OneRttKeys,
    journal: &mut ArcSendJournal<u64>,
    limits: &Constraints,
    frames: Vec<FrameWrite<u64>>,
) -> Option<PendingPacket> {
    sender
        .assemble_1rtt_packet(
            keys,
            &original_header(),
            journal,
            limits,
            0,
            &frames,
            &mut vec![],
            &mut vec![],
        )
        .unwrap()
}

fn open_fixed(keys: &rustls::quic::DirectionalKeys, bytes: &[u8]) -> Option<(u64, Vec<u8>)> {
    let packet = DataPacket {
        bytes: bytes.to_vec(),
        offset: long_header(0).len() + 2,
        long: true,
    };
    open_long(keys, &packet, &ArcRcvdJournal::with_capacity(0)).unwrap()
}

fn empty_journals() -> Journals<u64> {
    Journals {
        initial: ArcSendJournal::new(),
        handshake: ArcSendJournal::new(),
        data: ArcSendJournal::new(),
    }
}

fn each(value: u64) -> PerEpoch {
    PerEpoch {
        initial: value,
        handshake: value,
        data: value,
    }
}

fn settle(
    sender: &mut Sender<u64>,
    journals: &mut Journals<u64>,
    outcome: Submission,
    recovered: &mut Vec<u64>,
) -> Settled {
    sender.settle_submission(outcome, journals, 0, each(SECOND), each(3 * SECOND), recovered)
}

#[test]
fn all_four_levels_seal_and_open_and_data_shares_packet_numbers() {
    let [mut keys, mut peer] = handshake();
    let fixed = fixed_keys();
    let mut sender = path_sender(granted());
    let mut journals = empty_journals();
    let mut hello = vec![0x06, 0, 12];
    hello.extend(b"client hello");
    let packet = long_packet(
        &mut sender,
        &fixed.client.local,
        PacketType::Initial,
        &mut journals.initial,
        vec![frame(FrameKind::Guaranteed(1), hello.clone())],
    )
    .unwrap();
    assert_eq!(packet.bytes().len(), 1200);
    assert_eq!(packet.pn, 0);
    assert_eq!(packet.epoch(), Epoch::Initial);
    let (_, frames) = open_fixed(&fixed.server.remote, packet.bytes()).unwrap();
    assert!(frames.starts_with(&hello));
    let packet = long_packet(
        &mut sender,
        &fixed.client.local,
        PacketType::Handshake,
        &mut journals.handshake,
        vec![ping()],
    )
    .unwrap();
    assert_eq!(packet.pn, 0);
    assert!(open_fixed(&fixed.server.remote, packet.bytes()).is_some());
    let datagram = frame(FrameKind::Datagram, b"\x31\x05hello".to_vec());
    let zero = long_packet(
        &mut sender,
        &fixed.client.local,
        PacketType::ZeroRtt,
        &mut journals.data,
        vec![datagram, ping()],
    )
    .unwrap();
    assert_eq!((zero.pn, zero.generation), (0, None));
    let (_, frames) = open_fixed(&fixed.server.remote, zero.bytes()).unwrap();
    assert!(frames.starts_with(b"\x31\x05hello\x01"));
    let one = data_packet(
        &mut sender,
        &mut keys,
        &mut journals.data,
        &constraints(),
        vec![ping()],
    )
    .unwrap();
    assert_eq!((one.pn, one.generation), (1, Some(0)));
    assert_eq!(open_original(&mut peer, one.bytes()).unwrap().0, 1);
    journals
        .data
        .mark_sent(zero.pn, zero.in_flight, 0, SECOND, 3 * SECOND);
    let (generations, _) = journals.data.acknowledge(&ack(0)).unwrap();
    assert!(generations.is_empty());
}

#[test]
fn burst_submits_many_packets_and_preserves_partial_suffix_and_recovery() {
    let [mut keys, _] = handshake();
    let mut sender = path_sender(granted());
    let mut journals = empty_journals();
    let mut limits = sender.burst_start(Ok(12_000)).unwrap();
    for value in (1..=8).rev() {
        assert!(sender.burst_has_room());
        let packet = data_packet(
            &mut sender,
            &mut keys,
            &mut journals.data,
            &limits,
            vec![max_data(value)],
        )
        .unwrap();
        sender.burst_push(&mut limits, packet);
    }
    let original: Vec<Vec<u8>> = sender.pending.iter().map(|packet| packet.msg.clone()).collect();
    assert_eq!(sender.submittable(12_000, each(0)), 8);
    let mut recovered = Vec::new();
    assert!(matches!(
        settle(&mut sender, &mut journals, Submission::Pending, &mut recovered),
        Settled::Pending
    ));
    let Settled::Sent(sent) = settle(&mut sender, &mut journals, Submission::Sent(3), &mut recovered)
    else {
        panic!()
    };
    let committed: Vec<u64> = sent.iter().map(|packet| packet.pn).collect();
    assert_eq!(committed, [0, 1, 2]);
    journals.data.acknowledge(&ack(2)).unwrap();
    assert!(journals.data.acknowledge(&ack(3)).is_err());
    assert!(
        sender.burst_start(Ok(12_000)).is_none(),
        "pending suffix must be sent first"
    );
    assert_eq!(sender.submittable(12_000, each(0)), 5);
    for (packet, expected) in sender.pending.iter().zip(&original[3..]) {
        assert_eq!(&packet.msg, expected);
    }
    assert!(matches!(
        settle(
            &mut sender,
            &mut journals,
            Submission::Failed("network unreachable".to_owned()),
            &mut recovered
        ),
        Settled::Failed(error) if error.kind == ErrorKind::NoViablePath
            && error.reason.as_str() == "network unreachable"
    ));
    assert_eq!(recovered.len(), 5);
    journals.data.acknowledge(&ack(0)).unwrap();
    assert!(sender.pending.is_empty());
}

#[test]
fn burst_debits_cumulative_credit_and_congestion_before_submission() {
    let [mut keys, _] = handshake();
    let mut credit = AntiAmplifier::new(true);
    credit.on_received(800);
    let mut sender = path_sender(credit);
    let mut journals = empty_journals();
    let quota = 12_000;
    let mut limits = sender.burst_start(Ok(quota)).unwrap();
    let mut count = 0;
    while let Some(packet) = data_packet(
        &mut sender,
        &mut keys,
        &mut journals.data,
        &limits,
        vec![crypto(count, 800)],
    ) {
        sender.burst_push(&mut limits, packet);
        count += 1;
    }
    assert!(count > 1);
    let size: usize = sender.pending.iter().map(|packet| packet.bytes().len()).sum();
    assert!(size <= 2400 && size <= quota);
    assert_eq!(sender.anti_amplifier.balance(), 2400);
    let ready = sender.submittable(quota, each(0));
    assert_eq!(ready as u64, count);
    settle(
        &mut sender,
        &mut journals,
        Submission::Sent(ready),
        &mut Vec::new(),
    );
    assert_eq!(sender.anti_amplifier.balance(), 2400 - size);
}

#[test]
fn burst_records_ack_and_path_intents_once_and_drop_returns_reliable_data() {
    let [mut keys, _] = handshake();
    let mut sender = path_sender(granted());
    let mut journals = empty_journals();
    let mut limits = sender.burst_start(Ok(12_000)).unwrap();
    for _ in 0..3 {
        let frames = vec![
            ack_write(99),
            frame(FrameKind::PathChallenge(7), vec![0x1a, 0, 0, 0, 0, 0, 0, 0, 7]),
            frame(FrameKind::PathResponse(7), vec![0x1b, 0, 0, 0, 0, 0, 0, 0, 7]),
            max_data(100),
        ];
        let packet = data_packet(
            &mut sender,
            &mut keys,
            &mut journals.data,
            &limits,
            frames,
        )
        .unwrap();
        sender.burst_push(&mut limits, packet);
    }
    let count = |wanted: &dyn Fn(&PendingPacket) -> bool| {
        sender.pending.iter().filter(|packet| wanted(packet)).count()
    };
    assert_eq!(count(&|packet| packet.largest_acked.is_some()), 1);
    assert_eq!(count(&|packet| packet.challenge.is_some()), 1);
    assert_eq!(count(&|packet| packet.response.is_some()), 1);
    let recovered = sender.cancel_pending(&mut journals);
    assert_eq!(recovered, [100, 100, 100]);
    for pn in 0..3 {
        assert!(journals.data.acknowledge(&ack(pn)).is_err());
    }
}

#[test]
fn retired_space_is_removed_without_discarding_other_spaces_in_the_batch() {
    let fixed = fixed_keys();
    let mut sender = path_sender(granted());
    let mut journals = empty_journals();
    let mut limits = sender.burst_start(Ok(12_000)).unwrap();
    let first = long_packet(
        &mut sender,
        &fixed.client.local,
        PacketType::Initial,
        &mut journals.initial,
        vec![ping()],
    )
    .unwrap();
    sender.burst_push(&mut limits, first);
    let second = long_packet(
        &mut sender,
        &fixed.client.local,
        PacketType::Handshake,
        &mut journals.handshake,
        vec![ping()],
    )
    .unwrap();
    sender.burst_push(&mut limits, second);
    let allowed = Allowed {
        initial: false,
        zero_rtt: true,
        handshake: true,
        one_rtt: true,
    };
    assert!(!allowed.get(PacketType::Initial) && allowed.get(PacketType::Handshake));
    let (readiness, recovered) = sender.poll_send(allowed, 12_000, each(0), &mut journals);
    assert_eq!(readiness, Readiness::Ready(1));
    assert!(recovered.is_empty());
    let Settled::Sent(sent) = settle(
        &mut sender,
        &mut journals,
        Submission::Sent(1),
        &mut Vec::new(),
    ) else {
        panic!()
    };
    assert_eq!(sent[0].epoch(), Epoch::Handshake);
    assert!(journals.initial.acknowledge(&ack(0)).is_err());
    journals.handshake.acknowledge(&ack(0)).unwrap();
}

#[test]
fn empty_assembly_does_not_allocate_packet_numbers() {
    let [mut keys, mut peer] = handshake();
    let mut sender = path_sender(granted());
    let mut journals = empty_journals();
    let limits = sender.burst_start(Ok(12_000)).unwrap();
    for _ in 0..5 {
        assert!(data_packet(
            &mut sender,
            &mut keys,
            &mut journals.data,
            &limits,
            vec![]
        )
        .is_none());
    }
    let packet = data_packet(
        &mut sender,
        &mut keys,
        &mut journals.data,
        &limits,
        vec![ping()],
    )
    .unwrap();
    assert_eq!(packet.content, PacketContent::JustPing);
    assert_eq!(open_original(&mut peer, packet.bytes()).unwrap().0, 0);
}

#[test]
fn a_loss_probe_is_not_held_back_by_congestion() {
    let sender = path_sender(granted());
    let limits = Constraints {
        capacity: 1200,
        congestion: 0,
        anti_amplification: 5000,
    };
    let Admission::Granted(granted) = sender.consider(false, &limits, 1, PacketType::OneRtt, 9, 16)
    else {
        panic!()
    };
    assert_eq!(granted.congestion, 1200);
    let Admission::Granted(granted) = sender.consider(false, &limits, 0, PacketType::OneRtt, 9, 16)
    else {
        panic!()
    };
    assert_eq!(granted.congestion, 0);
    assert!(matches!(
        sender.consider(true, &limits, 0, PacketType::OneRtt, 9, 16),
        Admission::NoRecord
    ));
    let narrow = Constraints {
        anti_amplification: 29,
        ..limits
    };
    assert!(matches!(
        sender.consider(false, &narrow, 0, PacketType::OneRtt, 9, 16),
        Admission::NoRoom
    ));
}

#[test]
fn nothing_submitted_is_a_fault_of_the_socket() {
    let [mut keys, _] = handshake();
    let mut sender = path_sender(granted());
    let mut journals = empty_journals();
    let mut limits = sender.burst_start(Ok(12_000)).unwrap();
    let packet = data_packet(
        &mut sender,
        &mut keys,
        &mut journals.data,
        &limits,
        vec![max_data(3)],
    )
    .unwrap();
    sender.burst_push(&mut limits, packet);
    assert!(matches!(
        settle(
            &mut sender,
            &mut journals,
            Submission::Sent(0),
            &mut Vec::new()
        ),
        Settled::Failed(error) if error.kind == ErrorKind::NoViablePath
            && error.reason.as_str() == "UDP submitted zero datagrams"
    ));
}

#[test]
fn duplicate_skips_authentication_and_forgery_is_not_committed() {
    let [mut client, mut server] = handshake();
    let mut journal = ArcRcvdJournal::with_capacity(0);
    let bytes = packet(0, &mut client).unwrap().msg;
    assert_eq!(open(&mut server, bytes.clone(), &journal), Some(0));
    journal.on_rcvd_pn(0, 0);
    assert_eq!(open(&mut server, bytes, &journal), None);
    assert_eq!(server.packets.failed_opened, 0);
    let mut forged = packet(1, &mut client).unwrap().msg;
    *forged.last_mut().unwrap() ^= 1;
    assert_eq!(open(&mut server, forged, &journal), None);
    assert_eq!(journal.decode_pn(PacketNumber::encode(1, 0)), Ok(1));
}

#[test]
fn peer_key_update_is_authenticated_before_installing_and_old_keys_expire() {
    let [mut client, mut server] = handshake();
    client.allow_update();
    server.allow_update();
    let journal = ArcRcvdJournal::with_capacity(0);
    let old = packet(0, &mut client).unwrap().msg;
    let later_old = packet(1, &mut client).unwrap().msg;
    client.on_ack(0);
    client.update().unwrap();
    let next = packet(2, &mut client).unwrap().msg;
    let mut forged = next.clone();
    *forged.last_mut().unwrap() ^= 1;
    assert_eq!(open(&mut server, forged, &journal), None);
    assert_eq!(open(&mut server, old, &journal), Some(0));
    assert_eq!(open(&mut server, next, &journal), Some(2));
    let response = packet(0, &mut server).unwrap();
    assert_eq!(response.generation, Some(1));
    assert_eq!(open(&mut client, response.msg, &journal), Some(0));
    assert_eq!(open_at(&mut server, later_old, &journal, 3 * SECOND), None);
}

#[test]
fn pending_packet_on_a_slow_path_keeps_its_number_and_key_generation() {
    let [mut client, mut server] = handshake();
    client.allow_update();
    let mut journals = empty_journals();
    let mut slow = path_sender(granted());
    let mut limits = slow.burst_start(Ok(12_000)).unwrap();
    let retained = data_packet(
        &mut slow,
        &mut client,
        &mut journals.data,
        &limits,
        vec![max_data(8)],
    )
    .unwrap();
    slow.burst_push(&mut limits, retained);
    assert!(matches!(
        settle(&mut slow, &mut journals, Submission::Pending, &mut Vec::new()),
        Settled::Pending
    ));
    client.update().unwrap();
    let mut fast = path_sender(granted());
    let limits = fast.burst_start(Ok(12_000)).unwrap();
    let probe = data_packet(
        &mut fast,
        &mut client,
        &mut journals.data,
        &limits,
        vec![ping()],
    )
    .unwrap();
    assert_eq!((probe.pn, probe.generation), (1, Some(1)));
    assert_eq!(open_original(&mut server, probe.bytes()).unwrap().0, 1);
    let Settled::Sent(sent) = settle(&mut slow, &mut journals, Submission::Sent(1), &mut Vec::new())
    else {
        panic!()
    };
    assert_eq!((sent[0].pn, sent[0].generation), (0, Some(0)));
    let (pn, frames) = open_original(&mut server, sent[0].bytes()).unwrap();
    assert_eq!((pn, frames[0]), (0, 0x10));
    let (generations, frames) = journals.data.acknowledge(&ack(0)).unwrap();
    assert_eq!((generations, frames), (vec![0], vec![8]));
}

#[test]
fn long_header_receive_uses_each_spaces_keys_and_journal() {
    let fixed = fixed_keys();
    for first in [0xc0u8, 0xe0] {
        for pn_len in 1..=4 {
            let mut bytes = long_header(first | (pn_len as u8 - 1));
            bytes.extend([0x44, 0x80]);
            let offset = bytes.len();
            bytes.resize(1200, 0);
            bytes[offset + pn_len..offset + pn_len + 4].copy_from_slice(&[0x06, 0, 1, 0xaa]);
            let sealed =
                seal_long(&fixed.client.local, 0, &bytes, offset, offset + pn_len, 16).unwrap();
            let mut keys = ArcKeys::new_pending();
            keys.install(fixed_keys().server).unwrap();
            let mut journal = ArcRcvdJournal::with_capacity(0);
            let received = CipherPacket::new((), sealed.clone(), offset);
            let ready = keys.try_get().unwrap().unwrap();
            let opened = received
                .decrypt_long_packet(&ready.remote, &journal)
                .unwrap()
                .unwrap();
            assert_eq!(opened.pn(), 0);
            assert!(opened.body().starts_with(&[0x06, 0, 1, 0xaa]));
            journal.on_rcvd_pn(0, 0);
            let again = CipherPacket::new((), sealed, offset);
            assert!(again.decrypt_long_packet(&ready.remote, &journal).is_none());
            assert!(journal.decode_pn(PacketNumber::encode(0, 0)).is_err());
            keys.retire();
            assert!(keys.try_get().is_err());
        }
    }
}

#[test]
fn packets_wait_for_credit_and_congestion() {
    let [mut keys, _] = handshake();
    let mut credit = AntiAmplifier::new(true);
    credit.on_received(100);
    let mut sender = path_sender(granted());
    let mut journals = empty_journals();
    let everything = Allowed {
        initial: true,
        zero_rtt: true,
        handshake: true,
        one_rtt: true,
    };
    let (readiness, _) = sender.poll_send(everything, 12_000, each(0), &mut journals);
    assert_eq!(readiness, Readiness::Empty);
    let mut limits = sender.burst_start(Ok(12_000)).unwrap();
    let packet = data_packet(
        &mut sender,
        &mut keys,
        &mut journals.data,
        &limits,
        vec![crypto(1, 800)],
    )
    .unwrap();
    sender.burst_push(&mut limits, packet);
    let (readiness, _) = sender.poll_send(everything, 100, each(0), &mut journals);
    assert_eq!(readiness, Readiness::Held);
    assert!(sender.signals.credit && sender.signals.congestion);
    let (readiness, _) = sender.poll_send(everything, 100, each(1), &mut journals);
    assert_eq!(readiness, Readiness::Ready(1), "a loss probe is due");
    sender.anti_amplifier = credit;
    let (readiness, _) = sender.poll_send(everything, 12_000, each(1), &mut journals);
    assert_eq!(readiness, Readiness::Held);
    sender.wait_for_credit();
}

#[test]
fn sent_callback_can_acknowledge_stop_sending_and_retire_path() {
    let [mut keys, _] = handshake();
    let addr = SocketAddr::V4 {
        ip: Ipv4Addr::new(127, 0, 0, 1),
        port: 4433,
    };
    let endpoint = EndpointAddr::Direct { addr };
    let pathway = Pathway {
        local: endpoint,
        remote: endpoint,
    };
    let mut path = Path::new(pathway, ConnectionId::from_slice(b"original"), false);
    path.validate();
    let mut space: Space<u64, u64> = Space::new(Epoch::Data);
    let mut sender = path_sender(path.anti_amplifier);
    let mut journals = empty_journals();
    let mut limits = sender.burst_start(Ok(12_000)).unwrap();
    let packet = data_packet(
        &mut sender,
        &mut keys,
        &mut journals.data,
        &limits,
        vec![ping()],
    )
    .unwrap();
    sender.burst_push(&mut limits, packet);
    let Settled::Sent(sent) = settle(
        &mut sender,
        &mut journals,
        Submission::Sent(1),
        &mut Vec::new(),
    ) else {
        panic!()
    };
    journals.data.acknowledge(&ack(sent[0].pn)).unwrap();
    path.validate();
    space.stop_sending();
    path.retire();
    assert!(!space.can_send());
    assert_eq!(path.state(), PathState::Retired);
}

#[test]
fn idle_sources_say_what_they_wait_for() {
    let [mut keys, _] = handshake();
    let waits = |signals| frame(FrameKind::Idle(signals), vec![]);
    let mut sender = path_sender(granted());
    sender.signals = Signals::empty();
    let mut journal = ArcSendJournal::new();
    let mut accepted = vec![];
    let blocked = sender
        .assemble_1rtt_packet(
            &mut keys,
            &original_header(),
            &mut journal,
            &constraints(),
            0,
            &vec![waits(Signals::transport()), waits(Signals::connection_id())],
            &mut accepted,
            &mut vec![],
        )
        .unwrap();
    assert!(blocked.is_none());
    assert_eq!(accepted, [false, false]);
    assert_eq!(
        sender.signals,
        Signals::transport().union(Signals::connection_id())
    );
    assert_eq!(journal.next_pn, 0);
    // One that waits does not keep another from writing.
    sender.signals = Signals::empty();
    let sent = sender
        .assemble_1rtt_packet(
            &mut keys,
            &original_header(),
            &mut journal,
            &constraints(),
            0,
            &vec![waits(Signals::transport()), max_data(3)],
            &mut vec![],
            &mut vec![],
        )
        .unwrap();
    assert!(sent.is_some());
    assert_eq!(sender.signals, Signals::empty());
}

#[test]
fn a_packet_error_says_what_was_wrong() {
    let both = Signals::congestion().union(Signals::transport());
    for (error, reason) in [
        (
            PacketError::Blocked(both),
            "packet assembly blocked: Signals(CONGESTION | TRANSPORT)",
        ),
        (
            PacketError::Blocked(Signals::empty()),
            "packet assembly blocked: Signals(0x0)",
        ),
        (PacketError::Layout, "invalid packet layout or capacity"),
    ] {
        let fault = packet_error(error);
        assert_eq!(fault.kind, ErrorKind::Internal);
        assert_eq!(fault.reason.as_str(), reason);
    }
}
