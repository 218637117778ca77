use dquic::ack::{AckFrame, EcnCounts};
use dquic::acknowledgement::{acked_frame, acknowledge, scaled_delay, AckedFrame};
use dquic::addr::{EndpointAddr, Ipv4Addr, Link, Pathway, SocketAddr};
use dquic::assembly::{Epoch, PacketContent, PacketType, PendingPacket};
use dquic::channel::{BoundQueue, DataHeader, Inbox, WirePacket, EARLY_CAPACITY};
use dquic::cid::ConnectionId;
use dquic::connection::{AppError, ArcConnection, CloseReason, ConnectionError};
use dquic::constraints::AntiAmplifier;
use dquic::control::Control;
use dquic::error::{ErrorKind, QuicError};
use dquic::frames::{
    CryptoRange, Frame, GuaranteedFrame, ReliableFrame, StreamCtlFrame, StreamRange,
};
use dquic::packet::CipherPacket;
use dquic::path::{Path, PathState, MAX_RESPONSES};
use dquic::rcvd::ArcRcvdJournal;
use dquic::receive::{
    conclude_receive, delivery_step, frame_dispatcher, plan_receive, receive_step, report_first_error,
    route_packet, DeliveryStep, Dispatched, FrameTarget, ReceiveStep, ReceivedFrame,
};
use dquic::records::ArcSendJournal;
use dquic::router::{Delivery, QuicRouter, Signpost};
use dquic::signals::Signals;
use dquic::space::{ArcFeedback, Space};
use dquic::varint::VarInt;

const SECOND: u64 = 1_000_000;

fn local(port: u16) -> SocketAddr {
    SocketAddr::V4 {
        ip: Ipv4Addr::new(127, 0, 0, 1),
        port,
    }
}

fn link() -> Link {
    Link {
        src: local(4433),
        dst: local(9000),
    }
}

fn pathway() -> Pathway {
    Pathway {
        local: EndpointAddr::Direct { addr: local(4433) },
        remote: EndpointAddr::Direct { addr: local(9000) },
    }
}

fn wire(packet_type: PacketType, dcid: ConnectionId) -> WirePacket {
    WirePacket::Data(CipherPacket::new(
        DataHeader { packet_type, dcid },
        Vec::new(),
        0,
    ))
}

fn initial(dcid: ConnectionId) -> WirePacket {
    wire(PacketType::Initial, dcid)
}

fn ack(pn: u64) -> AckFrame {
    AckFrame {
        largest: VarInt::from_u32(pn as u32),
        delay: VarInt::from_u32(0),
        first_range: VarInt::from_u32(0),
        ranges: vec![],
        ecn: None,
    }
}

#[test]
fn empty_cid_routes_by_peer_address() {
    let mut router = QuicRouter::new();
    let entry = router.insert(Signpost::from_peer(link().dst), 3);
    let packet = initial(ConnectionId::empty());
    assert_eq!(router.deliver(&packet, &link()), Delivery::Inbox(3));
    assert_eq!(entry.inbox(), 3);
    entry.remove(&mut router);
    assert_eq!(router.find_entry(&packet, &link()), None);
}

#[test]
fn old_entry_cannot_remove_a_replacement() {
    let mut router = QuicRouter::new();
    let cid = ConnectionId::from_slice(b"replaced");
    let old = router.insert(Signpost::from_cid(cid), 1);
    let current = router.insert(Signpost::from_cid(cid), 2);
    assert_eq!(old.signpost(), current.signpost());
    old.remove(&mut router);
    assert_eq!(router.deliver(&initial(cid), &link()), Delivery::Inbox(2));
    current.remove(&mut router);
    assert_eq!(router.find_entry(&initial(cid), &link()), None);
}

#[test]
fn incoming_initial_uses_the_router_callback() {
    let router = QuicRouter::new();
    let cid = ConnectionId::from_slice(b"unrouted");
    assert_eq!(
        router.deliver(&wire(PacketType::Handshake, cid), &link()),
        Delivery::Dropped
    );
    assert_eq!(router.deliver(&initial(cid), &link()), Delivery::Incoming);
    assert_eq!(
        router.deliver(&WirePacket::Retry { dcid: cid }, &link()),
        Delivery::Dropped
    );
}

#[test]
fn registry_routes_issued_cids_and_forwards_frames() {
    let mut router = QuicRouter::new();
    let (first, second) = (
        ConnectionId::from_slice(b"first id"),
        ConnectionId::from_slice(b"another id"),
    );
    let registry = router.registry_on_issuing_scid(5);
    assert_eq!(registry.gen_unique_cid(&mut router, &vec![first]), Some(first));
    assert_eq!(
        registry.gen_unique_cid(&mut router, &vec![first]),
        None,
        "an identifier in use is not issued again"
    );
    assert_eq!(
        registry.gen_unique_cid(&mut router, &vec![first, second]),
        Some(second)
    );
    assert_eq!(router.deliver(&initial(first), &link()), Delivery::Inbox(5));
    registry.retire_cid(&mut router, first);
    assert_eq!(router.find_entry(&initial(first), &link()), None);
    assert_eq!(router.find_entry(&initial(second), &link()), Some(5));
    router.remove(Signpost::from_cid(second));
    assert_eq!(router.find_entry(&initial(second), &link()), None);
}

#[test]
fn routes_each_level_to_its_typed_receiver() {
    let mut inbox = Inbox::new(1);
    let cid = ConnectionId::from_slice(b"destination");
    assert!(inbox.try_send(initial(cid), pathway(), link()));
    let (packet, came_over, _) = inbox.queues.initial.recv().unwrap();
    assert_eq!(packet.payload_len(), 0);
    assert_eq!(came_over, pathway());
    assert!(inbox.try_send(wire(PacketType::OneRtt, cid), pathway(), link()));
    assert!(inbox.queues.one_rtt.recv().is_some());
    assert!(inbox.queues.handshake.recv().is_none());
    let retry = WirePacket::Retry { dcid: cid };
    assert!(!inbox.try_send(retry, pathway(), link()));
    assert!(inbox.same_channel(&Inbox::new(1)));
    assert!(!inbox.same_channel(&Inbox::new(2)));
}

#[test]
fn full_receiver_does_not_block_routing() {
    let mut inbox = Inbox::new(1);
    let cid = ConnectionId::from_slice(b"destination");
    let mut taken = 0;
    while inbox.try_send(initial(cid), pathway(), link()) {
        taken += 1;
    }
    assert_eq!(taken, EARLY_CAPACITY);
    assert!(!inbox.try_send(initial(cid), pathway(), link()));
    assert!(inbox.try_send(wire(PacketType::Handshake, cid), pathway(), link()));
}

#[test]
fn empty_inbox_wait_ends_when_channel_closes() {
    let mut queue: BoundQueue<u8> = BoundQueue::new(2);
    assert!(queue.try_send(1));
    queue.close();
    assert!(!queue.try_send(2));
    assert_eq!(queue.recv(), Some(1));
    assert_eq!(queue.recv(), None);
    assert!(queue.closed);
}

fn app(code: u64, reason: &str) -> CloseReason {
    CloseReason::App(AppError {
        code,
        reason: reason.to_owned(),
    })
}

#[test]
fn explicit_close_wakes_the_driver_and_preserves_the_first_reason() {
    let mut connection = ArcConnection::new();
    assert!(connection.take_reason().is_none());
    assert!(connection.close(app(42, "first")));
    assert!(!connection.close(app(99, "later")));
    let Some(CloseReason::App(error)) = connection.take_reason() else {
        panic!("expected application close");
    };
    assert_eq!((error.code, error.reason.as_str()), (42, "first"));
    assert!(connection.take_reason().is_none());
    assert!(!connection.close(app(1, "again")));
}

#[test]
fn only_the_last_handle_drop_notifies_the_driver() {
    let mut connection = ArcConnection::new();
    connection.clone_handle();
    assert!(!connection.drop_handle());
    assert!(connection.take_reason().is_none());
    assert!(connection.drop_handle());
    let Some(CloseReason::App(error)) = connection.take_reason() else {
        panic!("expected application close");
    };
    assert_eq!(error.code, 0);
    assert_eq!(error.reason, "last connection handle dropped");
}

#[test]
fn clone_drop_and_explicit_close_have_connection_wide_semantics() {
    let mut connection = ArcConnection::new();
    connection.clone_handle();
    assert!(connection.close(CloseReason::from_error(ConnectionError::Quic(
        QuicError::new(ErrorKind::Internal, "broken")
    ))));
    assert!(!connection.drop_handle());
    assert!(!connection.drop_handle());
    assert!(matches!(
        connection.take_reason(),
        Some(CloseReason::Internal(error)) if error.reason.as_str() == "broken"
    ));
    assert!(matches!(
        CloseReason::from_error(ConnectionError::App(AppError {
            code: 3,
            reason: String::new()
        })),
        CloseReason::App(_)
    ));
}

fn record(journal: &mut ArcSendJournal<u64>) -> u64 {
    let (pn, _) = journal.record_pending(Some(0), &mut vec![10]).unwrap();
    journal.mark_sent(pn, true, 0, SECOND, 3 * SECOND);
    pn
}

#[test]
fn existing_paths_share_activation_and_retirement() {
    let mut feedback = ArcFeedback::Pending;
    let mut space: Space<u64, u64> = Space::new(Epoch::Data);
    assert!(feedback
        .may_loss(&mut space.send_journal, &vec![0])
        .is_empty());
    assert_eq!(feedback, ArcFeedback::Pending);

    feedback.start();
    let first = record(&mut space.send_journal);
    assert_eq!(
        feedback.may_loss(&mut space.send_journal, &vec![first]),
        [10]
    );
    assert!(feedback
        .may_loss(&mut space.send_journal, &vec![first])
        .is_empty());
    let second = record(&mut space.send_journal);
    assert_eq!(
        feedback.may_loss(&mut space.send_journal, &vec![second]),
        [10]
    );
    let third = record(&mut space.send_journal);
    assert!(space.can_send());
    space.stop_sending();
    assert!(!space.can_send());
    feedback.retire();
    assert!(feedback
        .may_loss(&mut space.send_journal, &vec![third])
        .is_empty());
    assert!(space.on_tick(2 * SECOND).is_empty());
}

#[test]
fn pending_retirement_cannot_be_reopened() {
    let mut feedback = ArcFeedback::Pending;
    feedback.retire();
    let mut journal: ArcSendJournal<u64> = ArcSendJournal::new();
    let pn = record(&mut journal);
    feedback.start();
    assert!(feedback.may_loss(&mut journal, &vec![pn]).is_empty());
    assert_eq!(feedback, ArcFeedback::Retired);
}

#[test]
fn a_space_hands_back_what_is_due_and_retires_its_keys() {
    let mut space: Space<u64, u64> = Space::new(Epoch::Initial);
    record(&mut space.send_journal);
    assert!(space.on_tick(SECOND - 1).is_empty());
    assert_eq!(space.on_tick(SECOND), [10]);
    assert!(space.can_receive());
    space.stop_receiving();
    assert!(!space.can_receive());
    space.keys.poll(8);
    assert_eq!(space.retire(), Some(8));
    assert!(space.keys.try_get().is_err());
}

#[test]
fn gates_open_once_and_stay_stopped() {
    let mut control = Control::new();
    assert!(!control.can_receive() && !control.can_send());
    assert_eq!(control.poll_receiving(), None);
    control.enable_receiving();
    control.enable_sending();
    assert!(control.can_receive() && control.can_send());
    assert_eq!(control.poll_receiving(), Some(true));
    control.stop_sending();
    assert!(control.sending_stopped());
    control.enable_sending();
    assert!(!control.can_send());
    control.retire();
    assert_eq!(control.poll_receiving(), Some(false));
}

#[test]
fn acknowledged_frames_go_to_their_owners() {
    let stream = StreamRange {
        stream: 4,
        offset: 10,
        len: 5,
        fin: false,
    };
    assert_eq!(
        acked_frame(GuaranteedFrame::Stream(stream)),
        AckedFrame::Stream {
            stream: 4,
            offset: 10,
            len: 5
        }
    );
    assert_eq!(
        acked_frame(GuaranteedFrame::Crypto(CryptoRange { offset: 3, len: 7 })),
        AckedFrame::Crypto { offset: 3, len: 7 }
    );
    assert_eq!(
        acked_frame(GuaranteedFrame::Reliable(ReliableFrame::StreamCtl(
            StreamCtlFrame::ResetStream(9)
        ))),
        AckedFrame::Reset(9)
    );
    assert_eq!(
        acked_frame(GuaranteedFrame::Reliable(ReliableFrame::HandshakeDone)),
        AckedFrame::Ignored
    );
}

#[test]
fn acknowledgement_delays_are_scaled_by_the_exponent() {
    assert_eq!(scaled_delay(5, 3), 40);
    assert_eq!(scaled_delay(u64::MAX, 3), (1 << 62) - 1);
    assert_eq!(scaled_delay(1, 64), (1 << 62) - 1);
    assert_eq!(scaled_delay(0, 0), 0);
}

#[test]
fn an_acknowledgement_releases_frames_and_names_generations() {
    let mut journal: ArcSendJournal<u64> = ArcSendJournal::new();
    record(&mut journal);
    let mut frame = ack(0);
    frame.delay = VarInt::from_u32(4);
    frame.ecn = Some(EcnCounts {
        ect0: VarInt::from_u32(1),
        ect1: VarInt::from_u32(2),
        ce: VarInt::from_u32(3),
    });
    let told = acknowledge(&mut journal, &frame, 3).unwrap();
    assert_eq!(told.frames, [10]);
    assert_eq!(told.generations, [0]);
    assert_eq!(told.ack.delay.into_u64(), 32);
    assert_eq!(told.ack.ecn, frame.ecn);
    assert!(acknowledge(&mut journal, &ack(7), 3).is_err());
}

#[test]
fn only_frames_that_must_arrive_are_kept() {
    for frame in [
        Frame::Padding,
        Frame::Ping,
        Frame::Ack(1),
        Frame::Close(1),
        Frame::PathChallenge(1),
        Frame::PathResponse(1),
        Frame::Datagram(1),
    ] {
        assert_eq!(GuaranteedFrame::try_from_frame(frame), Err(frame));
    }
    for frame in [
        Frame::MaxData(1),
        Frame::HandshakeDone,
        Frame::Crypto(CryptoRange { offset: 1, len: 2 }),
        Frame::StreamCtl(StreamCtlFrame::Other(4)),
    ] {
        let kept = GuaranteedFrame::try_from_frame(frame).unwrap();
        assert_eq!(kept.into_frame(), frame);
    }
}

fn validation_packet(challenge: u64, response: u64) -> PendingPacket {
    PendingPacket {
        msg: vec![0; 1200],
        packet_type: PacketType::OneRtt,
        challenge: Some(challenge),
        response: Some(response),
        pn: 0,
        generation: Some(0),
        content: PacketContent::EffectivePayload,
        in_flight: true,
        largest_acked: None,
    }
}

#[test]
fn path_validation_fails_after_the_last_attempt() {
    let mut path = Path::new(pathway(), ConnectionId::empty(), true);
    path.start_validation(5, 0);
    for attempt in 0..3 {
        let now = 3 * SECOND * attempt;
        assert_eq!(path.challenge(now).unwrap(), Some(5));
        path.on_packet_sent(&validation_packet(5, 0), now, SECOND);
    }
    assert!(path.challenge(9 * SECOND - 1).unwrap().is_none());
    let error = path.challenge(9 * SECOND).unwrap_err();
    assert_eq!(error.kind, ErrorKind::NoViablePath);
    assert_eq!(error.reason.as_str(), "path validation timed out");
}

#[test]
fn path_validation_replies_on_ingress_and_withholds_stream_data_until_validated() {
    let cid = ConnectionId::from_slice(b"peer");
    let mut path = Path::new(pathway(), cid, true);
    assert_eq!(path.dcid(), cid);
    assert_eq!(path.state(), PathState::Unvalidated);
    let other = ConnectionId::from_slice(b"other");
    assert!(path.set_dcid(other).connection_id);
    assert_eq!(path.dcid(), other);
    assert!(!path.is_validated());
    assert_eq!(path.amplification_credit(), 0);
    path.on_datagram_received(1200);
    assert_eq!(path.amplification_credit(), 3600);
    path.recv_challenge(77);
    path.recv_challenge(77);
    assert_eq!(path.response(), Some(77));
    assert_eq!(path.responses.len(), 1);
    path.start_validation(5, 0);
    assert_eq!(path.challenge(0).unwrap(), Some(5));
    path.recv_response(5);
    assert!(!path.is_validated(), "the challenge was not sent yet");
    path.on_packet_sent(&validation_packet(5, 77), 0, SECOND);
    assert_eq!(path.response(), None);
    assert_eq!(path.challenge(3 * SECOND - 1).unwrap(), None);
    assert_eq!(path.challenge(3 * SECOND).unwrap(), Some(5));
    path.recv_response(6);
    assert!(!path.is_validated());
    path.recv_response(5);
    assert!(path.is_validated());
    assert_eq!(path.amplification_credit(), usize::MAX);
}

#[test]
fn a_path_keeps_a_bounded_number_of_responses() {
    let mut path = Path::new(pathway(), ConnectionId::empty(), false);
    for challenge in 0..20 {
        path.recv_challenge(challenge);
    }
    assert_eq!(path.responses.len(), MAX_RESPONSES);
    path.retire();
    assert_eq!(path.state, PathState::Retired);
    assert!(path.responses.is_empty());
    path.validate();
    assert_eq!(path.state, PathState::Retired);
}

#[test]
fn credit_is_thrice_what_came_until_it_is_granted() {
    let mut credit = AntiAmplifier::new(true);
    credit.on_received(100);
    assert_eq!(credit.balance(), 300);
    credit.on_sent(250);
    assert_eq!(credit.balance(), 50);
    credit.on_sent(100);
    assert_eq!(credit.balance(), 0);
    credit.grant();
    assert_eq!(credit.balance(), usize::MAX);
    assert_eq!(AntiAmplifier::new(false).balance(), 0);
}

#[test]
fn packets_are_routed_to_the_space_of_their_type() {
    assert_eq!(route_packet(PacketType::Initial), Some(Epoch::Initial));
    assert_eq!(route_packet(PacketType::Handshake), Some(Epoch::Handshake));
    assert_eq!(route_packet(PacketType::OneRtt), Some(Epoch::Data));
    assert_eq!(
        receive_step(PacketType::Initial, Epoch::Initial, true, false),
        ReceiveStep::Open
    );
    assert_eq!(
        receive_step(PacketType::Initial, Epoch::Initial, false, false),
        ReceiveStep::Stop
    );
    assert_eq!(
        receive_step(PacketType::Initial, Epoch::Handshake, true, false),
        ReceiveStep::Skip
    );
    assert_eq!(
        receive_step(PacketType::Initial, Epoch::Initial, true, true),
        ReceiveStep::Stop
    );
}

#[test]
fn receive_error_keeps_the_engine_alive_for_peer_close() {
    let mut journal = ArcRcvdJournal::with_capacity(0);
    let (mut errors, mut ordinary, mut closes) = (0, 0, 0);
    let mut closing = false;
    for (pn, frame) in [ReceivedFrame::Ping, ReceivedFrame::Ping, ReceivedFrame::Close]
        .into_iter()
        .enumerate()
    {
        let frames = vec![frame];
        let plan = plan_receive(closing, &frames, &None).unwrap();
        let mut place = 0;
        let dispatched = loop {
            match delivery_step(&plan, Epoch::Data, &frames, place, &mut closing) {
                DeliveryStep::Done => break Dispatched::All,
                DeliveryStep::BreakOff => break Dispatched::Closing,
                DeliveryStep::Deliver { target: FrameTarget::Close, .. } => closes += 1,
                DeliveryStep::Deliver { .. } => {
                    ordinary += 1;
                    break Dispatched::Failed(QuicError::new(ErrorKind::Internal, "component failed"));
                }
            }
            place += 1;
        };
        match conclude_receive(&plan, dispatched, pn as u64, &mut journal, 0) {
            Ok(concluded) => assert!(!concluded.counted),
            Err(error) => {
                assert_eq!(error.reason.as_str(), "component failed");
                if report_first_error(&mut closing) {
                    errors += 1;
                }
            }
        }
    }
    assert_eq!((errors, ordinary, closes), (1, 1, 1));
    assert!(!report_first_error(&mut closing));
    let first = dquic::packet_number::PacketNumber::encode(0, 0);
    assert_eq!(journal.decode_pn(first), Ok(0));

    let plan = plan_receive(
        closing,
        &vec![ReceivedFrame::Stream, ReceivedFrame::Close],
        &Some("unknown frame type".to_owned()),
    )
    .unwrap();
    assert_eq!(plan.dispatch, [1], "only the close is looked at any more");
}

#[test]
fn frame_dispatcher_connects_crypto_cids_tokens_and_peer_close_to_original_components() {
    let mut closing = false;
    let mut target = |frame| frame_dispatcher(Epoch::Data, frame, &mut closing);
    assert_eq!(
        target(ReceivedFrame::Crypto { offset: 0, len: 5 }),
        FrameTarget::CryptoStream(Epoch::Data)
    );
    assert_eq!(target(ReceivedFrame::NewConnectionId), FrameTarget::RemoteCids);
    assert_eq!(target(ReceivedFrame::RetireConnectionId), FrameTarget::LocalCids);
    assert_eq!(target(ReceivedFrame::NewToken), FrameTarget::Tokens);
    assert_eq!(target(ReceivedFrame::MaxData), FrameTarget::SendFlow);
    assert_eq!(target(ReceivedFrame::DataBlocked), FrameTarget::ReceiveFlow);
    assert_eq!(target(ReceivedFrame::PathChallenge), FrameTarget::Path);
    assert_eq!(target(ReceivedFrame::Close), FrameTarget::Close);
    assert!(closing);
}

#[test]
fn pipeline_rejection_does_not_ack_and_close_bypasses_business_delivery() {
    let mut journal = ArcRcvdJournal::with_capacity(0);
    let plan = plan_receive(false, &vec![ReceivedFrame::Ping], &None).unwrap();
    let failed = conclude_receive(
        &plan,
        Dispatched::Failed(QuicError::new(ErrorKind::Internal, "rejected")),
        4,
        &mut journal,
        0,
    );
    assert_eq!(failed.unwrap_err().reason.as_str(), "rejected");
    let number = dquic::packet_number::PacketNumber::encode(4, 0);
    assert_eq!(journal.decode_pn(number), Ok(4));
    let content = conclude_receive(&plan, Dispatched::All, 4, &mut journal, 0).unwrap();
    assert_eq!(content.content, PacketContent::JustPing);
    assert!(content.counted);
    assert_eq!(content.wake, Signals::transport());
    assert!(journal.decode_pn(number).is_err());
    let malformed = Some("unknown frame type".to_owned());
    let error = plan_receive(false, &vec![ReceivedFrame::Ping], &malformed).unwrap_err();
    assert_eq!(error.kind, ErrorKind::FrameEncoding);
    assert_eq!(error.reason.as_str(), "unknown frame type");
    let beyond = ReceivedFrame::Crypto {
        offset: (1 << 62) - 1,
        len: 1,
    };
    let error = plan_receive(false, &vec![beyond], &malformed).unwrap_err();
    assert_eq!(error.reason.as_str(), "CRYPTO range exceeds maximum offset");
}

#[test]
fn delivery_breaks_off_once_the_connection_closes() {
    let frames = vec![
        ReceivedFrame::Padding,
        ReceivedFrame::Stream,
        ReceivedFrame::NewToken,
    ];
    let plan = plan_receive(false, &frames, &None).unwrap();
    let mut closing = false;
    let mut step = |place, closing: &mut bool| delivery_step(&plan, Epoch::Data, &frames, place, closing);
    assert_eq!(
        step(0, &mut closing),
        DeliveryStep::Deliver {
            index: 1,
            target: FrameTarget::Streams
        }
    );
    assert!(!closing);
    assert_eq!(step(2, &mut closing), DeliveryStep::Done);
    closing = true;
    assert_eq!(step(1, &mut closing), DeliveryStep::BreakOff);
    let mut journal = ArcRcvdJournal::with_capacity(0);
    let content = conclude_receive(&plan, Dispatched::Closing, 4, &mut journal, 0).unwrap();
    assert_eq!(content.content, PacketContent::NonAckEliciting);
    assert!(!content.counted);
    assert_eq!(content.wake, Signals::empty());
    assert_eq!(
        journal.decode_pn(dquic::packet_number::PacketNumber::encode(4, 0)),
        Ok(4)
    );
    // A close is handed on though the connection is closing.
    let last = vec![ReceivedFrame::Close];
    let plan = plan_receive(true, &last, &None).unwrap();
    assert_eq!(
        delivery_step(&plan, Epoch::Data, &last, 0, &mut closing),
        DeliveryStep::Deliver {
            index: 0,
            target: FrameTarget::Close
        }
    );
}

#[test]
fn signals_join() {
    let both = Signals::credit().union(Signals::congestion());
    assert!(both.credit && both.congestion && !both.transport);
    assert_eq!(Signals::empty().union(Signals::all()), Signals::all());
}

#[test]
fn exhausted_amplification_credit_suspends_probes_until_another_datagram() {
    let mut path = Path::new(pathway(), ConnectionId::empty(), false);
    path.on_datagram_received(400);
    assert_eq!(path.amplification_credit(), 1200);
    path.anti_amplifier.on_sent(1200);
    assert_eq!(path.amplification_credit(), 0);
    assert!(path.anti_amplifier.limited);
    path.on_datagram_received(400);
    assert!(!path.anti_amplifier.limited);
}
