use dquic::ack::AckFrame;
use dquic::error::ErrorKind;
use dquic::sent::{ArcSentJournal, SentPktState};
use dquic::varint::VarInt;

const SECOND: u64 = 1_000_000;

fn varint(value: u64) -> VarInt {
    VarInt::from_u64(value).unwrap()
}

fn ack_packet(pn: u64) -> AckFrame {
    AckFrame {
        largest: varint(pn),
        delay: varint(0),
        first_range: varint(0),
        ranges: vec![],
        ecn: None,
    }
}

#[test]
fn trivial_packets_only_advance_next_packet_number() {
    let mut journal = ArcSentJournal::<u64>::with_capacity(1);
    for expected in 0..100_000 {
        let mut packet = journal.new_packet();
        assert_eq!(packet.pn().0, expected);
        packet.record_trivial();
        packet.build_trivial(&mut journal);
    }
    assert_eq!(journal.next_pn, 100_000);
    assert!(journal.sent_packets.is_empty());
    assert!(journal.queue.is_empty());
}

#[test]
fn dropped_packet_rolls_back_frames_and_packet_number() {
    let journal = ArcSentJournal::<u64>::with_capacity(1);
    {
        let mut packet = journal.new_packet();
        assert_eq!(packet.pn().0, 0);
        packet.record_frame(7);
    }
    let packet = journal.new_packet();
    assert_eq!(packet.pn().0, 0);
    drop(packet);
    assert_eq!(journal.next_pn, 0);
    assert!(journal.sent_packets.is_empty());
    assert!(journal.queue.is_empty());
}

#[test]
fn sparse_reliable_packets_keep_exact_packet_numbers() {
    let mut journal = ArcSentJournal::<u64>::with_capacity(4);
    for pn in 0..6 {
        let mut packet = journal.new_packet();
        if pn == 1 || pn == 5 {
            packet.record_frame(pn);
            packet.build_with_time(&mut journal, 0, SECOND, 2 * SECOND);
        } else {
            packet.record_trivial();
            packet.build_trivial(&mut journal);
        }
    }

    journal.update_largest(&ack_packet(5)).unwrap();
    assert_eq!(journal.on_packet_acked(5), vec![5]);
    assert!(journal.on_packet_acked(4).is_empty());
}

#[test]
fn ack_for_unsent_packet_is_rejected() {
    let mut journal = ArcSentJournal::<u64>::with_capacity(1);
    let mut packet = journal.new_packet();
    packet.record_trivial();
    packet.build_trivial(&mut journal);
    let error = journal.update_largest(&ack_packet(1)).unwrap_err();
    assert_eq!(error.kind, ErrorKind::ProtocolViolation);
    assert!(journal.update_largest(&ack_packet(0)).is_ok());
}

#[test]
fn an_acknowledged_packet_is_settled() {
    let mut journal = ArcSentJournal::<u64>::with_capacity(4);
    for frame in [10, 11] {
        let mut packet = journal.new_packet();
        packet.record_frame(frame);
        packet.build_with_time(&mut journal, 0, SECOND, 2 * SECOND);
    }
    assert_eq!(journal.on_packet_acked(0), vec![10]);
    assert!(journal.on_packet_acked(0).is_empty());
    assert!(journal.may_loss_packet(0).is_empty());
    assert_eq!(journal.may_loss_packet(1), vec![11]);
}

#[test]
fn overdue_packets_are_retransmitted_once() {
    let mut journal = ArcSentJournal::<u64>::with_capacity(4);
    for frame in [10, 11] {
        let mut packet = journal.new_packet();
        packet.record_frame(frame);
        packet.build_with_time(&mut journal, frame * SECOND, SECOND, 5 * SECOND);
    }
    assert!(journal.fast_retransmit(11 * SECOND + 1).is_empty());
    journal.update_largest(&ack_packet(1)).unwrap();
    assert_eq!(journal.fast_retransmit(11 * SECOND + 1), vec![10]);
    assert!(journal.fast_retransmit(11 * SECOND + 1).is_empty());
}

#[test]
fn settled_prefix_is_dropped() {
    let mut journal = ArcSentJournal::<u64>::with_capacity(4);
    for frame in [10, 11, 12] {
        let mut packet = journal.new_packet();
        packet.record_frame(frame);
        packet.build_with_time(&mut journal, 0, SECOND, 2 * SECOND);
    }
    assert_eq!(journal.sent_packets.len(), 3);
    assert_eq!(journal.on_packet_acked(0), vec![10]);
    journal.resize(3 * SECOND);
    assert!(journal.sent_packets.len() < 3);
    assert_eq!(journal.next_pn, 3);
}

#[test]
fn feedback_moves_a_packet_between_states() {
    let mut state = SentPktState::new(2, 0, SECOND, 3 * SECOND);
    assert_eq!(state.nframes(), 2);
    assert!(!state.should_retransmit_after(SECOND - 1));
    assert!(state.should_remain_after(0));
    assert_eq!(state.maybe_lost(), 2);
    assert_eq!(state.be_acked(), 2);
    assert_eq!(state.be_acked(), 0);
    assert_eq!(state.maybe_lost(), 0);
}

fn send(journal: &mut ArcSentJournal<u64>, frames: &[u64], now: u64) -> u64 {
    let mut packet = journal.new_packet();
    if frames.is_empty() {
        packet.record_trivial();
    }
    for frame in frames {
        packet.record_frame(*frame);
    }
    let pn = packet.packet_number;
    packet.build_with_time(journal, now, 10, 100);
    pn
}

#[test]
fn frames_wait_for_their_acknowledgement_whatever_happens_to_others() {
    let mut journal = ArcSentJournal::with_capacity(4);
    assert_eq!(send(&mut journal, &[1], 0), 0);
    assert_eq!(send(&mut journal, &[20, 21], 0), 1);
    assert_eq!(send(&mut journal, &[], 0), 2);
    assert_eq!(send(&mut journal, &[4], 0), 3);
    assert_eq!(journal.on_packet_acked(3), [4]);
    assert_eq!(journal.may_loss_packet(0), [1]);
    assert_eq!(journal.may_loss_packet(1), [20, 21]);
    assert_eq!(journal.may_loss_packet(1), [20, 21]);
    journal.update_largest(&ack_packet(3)).unwrap();
    // The time of the lost packets is not over yet.
    journal.resize(99);
    assert_eq!(journal.on_packet_acked(1), [20, 21]);
    for pn in [1, 2, 3, 7] {
        assert!(journal.on_packet_acked(pn).is_empty());
        assert!(journal.may_loss_packet(pn).is_empty());
    }
    journal.resize(100);
    assert!(journal.on_packet_acked(0).is_empty());
    assert!(journal.sent_packets.is_empty() && journal.queue.is_empty());
}

#[test]
fn overtaken_packets_are_sent_again_in_order_and_can_still_be_acknowledged() {
    let mut journal = ArcSentJournal::with_capacity(4);
    for frames in [&[1, 2][..], &[3], &[4], &[5]] {
        send(&mut journal, frames, 0);
    }
    send(&mut journal, &[6], 5);
    assert_eq!(journal.on_packet_acked(3), [5]);
    journal.update_largest(&ack_packet(3)).unwrap();
    assert_eq!(journal.on_packet_acked(1), [3]);
    assert!(journal.fast_retransmit(10).is_empty(), "nothing is overdue yet");
    // Below the largest acknowledged number, in flight and overdue.
    assert_eq!(journal.fast_retransmit(11), [1, 2, 4]);
    assert!(journal.fast_retransmit(11).is_empty());
    assert!(journal.fast_retransmit(50).is_empty());
    assert_eq!(journal.on_packet_acked(2), [4]);
    assert_eq!(journal.on_packet_acked(0), [1, 2]);
    assert!(journal.on_packet_acked(0).is_empty());
}
