use dquic::ack::AckFrame;
use dquic::error::{ErrorKind, PacketError};
use dquic::packet_number::PacketNumber;
use dquic::records::{ArcSendJournal, MAX_FRAMES, MAX_SKIPPED_PNS};
use dquic::varint::{VarInt, VARINT_MAX};

const SECOND: u64 = 1_000_000;
const MILLI: u64 = 1_000;

fn varint(value: u64) -> VarInt {
    VarInt::from_u64(value).unwrap()
}

fn ack_range(largest: u64, first_range: u64) -> AckFrame {
    AckFrame {
        largest: varint(largest),
        delay: varint(0),
        first_range: varint(first_range),
        ranges: vec![],
        ecn: None,
    }
}

fn ack(pn: u64) -> AckFrame {
    ack_range(pn, 0)
}

fn acknowledged_values(records: &mut ArcSendJournal<u64>, pn: u64) -> Vec<u64> {
    records.acknowledge(&ack(pn)).unwrap().1
}

fn record(records: &mut ArcSendJournal<u64>, frames: &mut Vec<u64>) -> u64 {
    records.record_pending(Some(0), frames).unwrap().0
}

fn sent(records: &mut ArcSendJournal<u64>, pn: u64, now: u64) {
    records.mark_sent(pn, true, now, SECOND, 3 * SECOND);
}

fn frame_range(records: &ArcSendJournal<u64>, pn: u64) -> (u64, u64) {
    let packet = records.packets.iter().find(|packet| packet.pn == pn).unwrap();
    (packet.frame_start, packet.frame_end)
}

fn contains(records: &ArcSendJournal<u64>, pn: u64) -> bool {
    records.packets.iter().any(|packet| packet.pn == pn)
}

#[test]
fn pending_reliable_records_reuse_scratch_allocation() {
    let mut records = ArcSendJournal::new();
    let mut scratch = vec![10];
    let capacity = scratch.capacity();
    assert_eq!(record(&mut records, &mut scratch), 0);
    assert!(scratch.is_empty());
    assert_eq!(scratch.capacity(), capacity);
    sent(&mut records, 0, 0);
    scratch.extend(records.mark_lost(&vec![0]));
    assert_eq!(scratch, [10]);
    assert_eq!(acknowledged_values(&mut records, 0), [10]);
}

#[test]
fn recovery_keeps_data_headers_and_moves_tokens_without_copying() {
    let mut records = ArcSendJournal::new();
    let crypto = 10;
    let stream = 30;
    let token = 5;
    // Keep an earlier packet live so cancellation cannot drain the queue prefix.
    assert_eq!(record(&mut records, &mut vec![0]), 0);
    let mut scratch = vec![crypto, stream, token];
    assert_eq!(record(&mut records, &mut scratch), 1);
    assert!(scratch.is_empty());
    records.cancel_pending(1, &mut scratch);
    assert_eq!(scratch, [crypto, stream, token]);
    scratch.clear();
    records.cancel_pending(0, &mut scratch);
    assert!(records.slots.is_empty());
}

#[test]
fn reverse_submission_and_ack_order_preserve_frame_ranges() {
    let mut records = ArcSendJournal::new();
    let mut scratch = Vec::with_capacity(4);
    scratch.extend([110, 111]);
    assert_eq!(record(&mut records, &mut scratch), 0);
    assert!(scratch.is_empty());
    scratch.push(100);
    assert_eq!(record(&mut records, &mut scratch), 1);
    assert_eq!(frame_range(&records, 0), (0, 2));
    assert_eq!(frame_range(&records, 1), (2, 3));
    sent(&mut records, 1, 0);
    sent(&mut records, 0, 0);
    assert_eq!(acknowledged_values(&mut records, 1), [100]);
    // The processed slots remain pinned by PN0 until the prefix can be removed.
    assert_eq!(records.slots.len(), 3);
    assert_eq!(acknowledged_values(&mut records, 0), [110, 111]);
    assert!(records.slots.is_empty());
    assert!(acknowledged_values(&mut records, 0).is_empty());
    scratch.push(120);
    assert_eq!(record(&mut records, &mut scratch), 2);
    records.cancel_pending(2, &mut scratch);
    assert_eq!(scratch, [120]);
    assert!(records.slots.is_empty());
    assert!(records.acknowledge(&ack(2)).is_err());
}

#[test]
fn batch_ack_reclaims_prefix_without_moving_pending_frame_indices() {
    let mut records = ArcSendJournal::new();
    let mut scratch = Vec::new();
    assert_eq!(record(&mut records, &mut scratch), 0); // Empty ranges do not pin frames.
    scratch.push(10);
    assert_eq!(record(&mut records, &mut scratch), 1);
    scratch.extend([20, 21]);
    assert_eq!(record(&mut records, &mut scratch), 2);
    scratch.push(30);
    assert_eq!(record(&mut records, &mut scratch), 3);
    sent(&mut records, 1, 0);
    sent(&mut records, 2, 0);
    let ack = ack_range(2, 1);
    assert_eq!(records.acknowledge(&ack).unwrap().1, [10, 20, 21]);
    assert_eq!(records.offset, 3);
    assert_eq!(records.slots.len(), 1);
    assert_eq!(frame_range(&records, 3), (3, 4));
    assert!(records.acknowledge(&ack).unwrap().1.is_empty());
    records.cancel_pending(3, &mut scratch);
    assert_eq!(scratch, [30]);
    assert!(records.slots.is_empty());
}

#[test]
fn concurrent_batches_keep_each_packets_frames_together() {
    let mut records = ArcSendJournal::new();
    let mut scratch = Vec::new();
    for i in 0..100 {
        for worker in 0..4 {
            let value = worker * 100 + i;
            scratch.extend([value, value + 1000]);
            records.record_pending(Some(0), &mut scratch).unwrap();
            assert!(scratch.is_empty());
        }
    }
    let mut values = std::collections::BTreeSet::new();
    for pn in (0..400).rev() {
        records.cancel_pending(pn, &mut scratch);
        assert_eq!(scratch.len(), 2);
        assert_eq!(scratch[1], scratch[0] + 1000);
        assert!(values.insert(scratch[0]));
        scratch.clear();
    }
    assert!(records.packets.is_empty());
    assert!(records.slots.is_empty());
}

#[test]
fn terminal_slots_are_reclaimed_only_when_the_live_prefix_finishes() {
    let mut records = ArcSendJournal::new();
    let mut scratch = Vec::new();
    let now = 0;
    for pn in 0..5 {
        scratch.push(pn);
        assert_eq!(record(&mut records, &mut scratch), pn);
    }
    sent(&mut records, 1, now);
    sent(&mut records, 3, now);
    assert_eq!(acknowledged_values(&mut records, 1), [1]);
    records.cancel_pending(2, &mut scratch);
    assert_eq!(scratch, [2]);
    scratch.clear();
    scratch.extend(records.mark_lost(&vec![3]));
    scratch.extend(records.on_tick(now));
    assert_eq!(scratch, [3]);
    scratch.clear();
    assert!(records.slots[3].is_some());
    scratch.extend(records.on_tick(now + 3 * SECOND));
    assert!(scratch.is_empty());
    assert_eq!(records.offset, 0);
    assert_eq!(records.slots.len(), 5);
    assert!((1..4).all(|index| records.slots[index].is_none()));
    records.cancel_pending(0, &mut scratch);
    assert_eq!(scratch, [0]);
    scratch.clear();
    assert_eq!(records.offset, 4);
    assert_eq!(records.slots.len(), 1);
    assert_eq!(frame_range(&records, 4), (4, 5));
    records.cancel_pending(4, &mut scratch);
    assert_eq!(scratch, [4]);
    assert!(records.slots.is_empty());
}

#[test]
fn pinned_empty_slots_are_bounded_and_failed_append_preserves_frames() {
    let mut records = ArcSendJournal::new();
    let mut scratch = vec![0];
    assert_eq!(record(&mut records, &mut scratch), 0);
    scratch.resize(MAX_FRAMES - 1, 1);
    assert_eq!(record(&mut records, &mut scratch), 1);
    sent(&mut records, 0, 0);
    sent(&mut records, 1, 0);
    assert_eq!(acknowledged_values(&mut records, 1).len(), MAX_FRAMES - 1);
    assert!(!records.has_capacity());
    scratch.push(2);
    assert!(matches!(
        records.record_pending(Some(0), &mut scratch),
        Err(PacketError::Blocked(_))
    ));
    assert_eq!(scratch, [2]);
    assert_eq!(acknowledged_values(&mut records, 0), [0]);
    assert!(records.has_capacity());
    assert_eq!(record(&mut records, &mut scratch), 2);
    assert!(scratch.is_empty());
    records.cancel_pending(2, &mut scratch);
    assert!(records.slots.is_empty());
}

#[test]
fn loss_retains_frames_for_late_ack_and_expiration_reclaims_storage() {
    let mut records = ArcSendJournal::new();
    let now = 0;
    let mut scratch = vec![10];
    assert_eq!(record(&mut records, &mut scratch), 0);
    sent(&mut records, 0, now);
    scratch.extend(records.mark_lost(&vec![0]));
    scratch.extend(records.on_tick(now));
    assert_eq!(scratch, [10]);
    assert_eq!(record(&mut records, &mut scratch), 1);
    scratch.extend(records.on_tick(now));
    assert!(scratch.is_empty());
    sent(&mut records, 1, now);
    // The new PN can itself be lost; the retained original must not requeue again.
    scratch.extend(records.mark_lost(&vec![0, 1]));
    scratch.extend(records.on_tick(now));
    assert_eq!(scratch, [10]);
    scratch.clear();
    assert_eq!(acknowledged_values(&mut records, 0), [10]);
    assert_eq!(acknowledged_values(&mut records, 1), [10]);
    assert!(records.slots.is_empty());

    scratch.push(20);
    assert_eq!(record(&mut records, &mut scratch), 2);
    scratch.extend(records.on_tick(now));
    assert!(scratch.is_empty(), "unsent packets have no loss feedback");
    sent(&mut records, 2, now);
    scratch.extend(records.mark_lost(&vec![2]));
    scratch.extend(records.on_tick(now));
    scratch.clear();
    scratch.extend(records.on_tick(now + 4 * SECOND));
    assert!(scratch.is_empty());
    assert!(records.slots.is_empty());
    assert!(acknowledged_values(&mut records, 2).is_empty());
}

#[test]
fn repeated_loss_never_requeues_retained_packets_or_extends_retention() {
    let mut records = ArcSendJournal::new();
    let mut now = 0;
    let mut scratch = vec![10];
    assert_eq!(record(&mut records, &mut scratch), 0);
    sent(&mut records, 0, now);
    scratch.push(20);
    assert_eq!(record(&mut records, &mut scratch), 1);
    sent(&mut records, 1, now);
    scratch.extend(records.mark_lost(&vec![0, 1, 0, 1]));
    scratch.extend(records.on_tick(now));
    assert_eq!(scratch, [10, 20]);
    scratch.clear();

    now += 2 * SECOND;
    scratch.extend(records.mark_lost(&vec![0, 1]));
    scratch.extend(records.on_tick(now));
    assert!(
        scratch.is_empty(),
        "retained packets must not be requeued twice"
    );
    assert_eq!(acknowledged_values(&mut records, 0), [10]);
    assert!(acknowledged_values(&mut records, 0).is_empty());
    assert!(contains(&records, 1));

    now += SECOND;
    scratch.extend(records.mark_lost(&vec![1]));
    scratch.extend(records.on_tick(now));
    assert!(
        scratch.is_empty(),
        "expiration must not requeue the old packet"
    );
    assert!(
        records.packets.is_empty(),
        "repeat loss must not extend retention"
    );
    assert!(records.slots.is_empty());
}

#[test]
fn late_ack_after_immediate_loss_notification_reclaims_original() {
    let mut records = ArcSendJournal::new();
    let mut scratch = vec![10];
    assert_eq!(record(&mut records, &mut scratch), 0);
    sent(&mut records, 0, 0);
    scratch.extend(records.mark_lost(&vec![0]));
    assert_eq!(scratch, [10]);
    scratch.clear();
    assert_eq!(acknowledged_values(&mut records, 0), [10]);
    scratch.extend(records.mark_lost(&vec![0]));
    scratch.extend(records.on_tick(0));
    assert!(scratch.is_empty());
    assert!(acknowledged_values(&mut records, 0).is_empty());
    assert!(records.slots.is_empty());
}

#[test]
fn retention_starts_at_submission_and_is_not_reset_by_loss() {
    let mut records = ArcSendJournal::new();
    let mut now = 0;
    let mut scratch = vec![10];
    assert_eq!(record(&mut records, &mut scratch), 0);
    // Time spent waiting for the socket is not part of the sent packet's retention.
    now += 5 * SECOND;
    sent(&mut records, 0, now);
    now += SECOND;
    scratch.extend(records.mark_lost(&vec![0]));

    now += SECOND;
    scratch.extend(records.on_tick(now));
    assert_eq!(scratch, [10]);
    assert!(contains(&records, 0));
    scratch.clear();
    now += SECOND;
    scratch.extend(records.on_tick(now));
    assert!(scratch.is_empty());
    assert!(records.packets.is_empty());
    assert!(records.slots.is_empty());
}

#[test]
fn loss_notification_delivers_data_even_after_retention_deadline() {
    for delayed_loss in [false, true] {
        let mut records = ArcSendJournal::new();
        let mut scratch = vec![10];
        assert_eq!(record(&mut records, &mut scratch), 0);
        sent(&mut records, 0, 0);
        let now = 4 * SECOND;
        if delayed_loss {
            assert!(contains(&records, 0));
        }
        scratch.extend(records.mark_lost(&vec![0]));
        scratch.extend(records.on_tick(now));
        assert_eq!(scratch, [10]);
        scratch.clear();
        scratch.extend(records.on_tick(now));
        assert!(scratch.is_empty());
        assert!(records.packets.is_empty());
        assert!(records.slots.is_empty());
    }
}

#[test]
fn timer_and_loss_feedback_schedule_each_packet_once() {
    let mut records = ArcSendJournal::new();
    let mut scratch = Vec::new();
    let now = 0;
    for pn in 0..3 {
        scratch.push(pn);
        assert_eq!(record(&mut records, &mut scratch), pn);
        sent(&mut records, pn, now);
    }
    scratch.push(3);
    assert_eq!(record(&mut records, &mut scratch), 3);
    assert_eq!(acknowledged_values(&mut records, 1), [1]);
    scratch.extend(records.mark_lost(&vec![0]));
    scratch.extend(records.on_tick(now + 999 * MILLI));
    assert_eq!(scratch, [0]);
    scratch.clear();

    scratch.extend(records.on_tick(now + SECOND));
    assert_eq!(scratch, [2]);
    scratch.clear();
    scratch.extend(records.mark_lost(&vec![0, 2]));
    scratch.extend(records.on_tick(now + SECOND));
    assert!(scratch.is_empty());
    assert_eq!(acknowledged_values(&mut records, 0), [0]);
    scratch.extend(records.on_tick(now + 3 * SECOND));
    assert!(scratch.is_empty());
    assert!(acknowledged_values(&mut records, 2).is_empty());
    // A never-submitted packet has no recovery deadline.
    assert!(contains(&records, 3));
    records.cancel_pending(3, &mut scratch);
    assert_eq!(scratch, [3]);
    scratch.clear();

    scratch.push(4);
    assert_eq!(record(&mut records, &mut scratch), 4);
    sent(&mut records, 4, now);
    // Even a late tick must deliver the data before retiring its original record.
    scratch.extend(records.on_tick(now + 4 * SECOND));
    assert_eq!(scratch, [4]);
    assert!(records.packets.is_empty());
    assert!(records.slots.is_empty());
}

#[test]
fn shared_handles_distinguish_cancelled_pending_and_sent_packets() {
    let mut journal = ArcSendJournal::new();
    let mut frames = vec![10];
    let cancelled = record(&mut journal, &mut frames);
    let submitted = record(&mut journal, &mut frames);
    let pending = record(&mut journal, &mut frames);
    assert_eq!((cancelled, submitted, pending), (0, 1, 2));
    journal.cancel_pending(cancelled, &mut frames);
    assert_eq!(frames, [10]);
    frames.clear();
    journal.mark_sent(submitted, false, 0, 0, 0);
    assert!(journal.acknowledge(&ack(submitted)).unwrap().0.is_empty());
    assert!(journal.acknowledge(&ack(cancelled)).is_err());
    assert!(journal.acknowledge(&ack(pending)).is_err());
    journal.mark_sent(pending, false, 0, 0, 0);
    assert!(journal.acknowledge(&ack(pending)).unwrap().0.is_empty());
    assert!(journal.acknowledge(&ack_range(2, 2)).is_err());
    assert!(journal.packets.is_empty());
}

#[test]
fn deadlines_order_by_time_and_keep_packets_with_equal_times() {
    let mut records = ArcSendJournal::new();
    let now = 0;
    let mut scratch = Vec::new();
    for (pn, retransmit, expire) in [(0, 3, 8), (1, 1, 5), (2, 1, 5), (3, 2, 6)] {
        scratch.push(pn);
        assert_eq!(record(&mut records, &mut scratch), pn);
        records.mark_sent(pn, true, now, retransmit * SECOND, expire * SECOND);
    }
    scratch.extend(records.on_tick(now + 999 * MILLI));
    assert!(scratch.is_empty());
    scratch.extend(records.on_tick(now + SECOND));
    assert_eq!(scratch, [1, 2]);
    scratch.clear();
    assert_eq!(acknowledged_values(&mut records, 1), [1]);
    // ACK removes a future retransmission; CC loss notifies immediately.
    assert_eq!(acknowledged_values(&mut records, 0), [0]);
    scratch.extend(records.mark_lost(&vec![3, 3]));
    assert_eq!(
        records.deadlines,
        vec![(now + 5 * SECOND, 2), (now + 6 * SECOND, 3)]
    );
    assert_eq!(scratch, [3]);
    scratch.clear();
    assert_eq!(acknowledged_values(&mut records, 3), [3]);
    scratch.extend(records.on_tick(now + 5 * SECOND));
    assert!(scratch.is_empty());
    assert!(records.packets.is_empty());
    assert!(records.slots.is_empty());
    assert!(records.deadlines.is_empty());
}

#[test]
fn equal_retransmission_and_retirement_deadlines_deliver_data_once() {
    let mut records = ArcSendJournal::new();
    let now = 0;
    let mut scratch = vec![10];
    assert_eq!(record(&mut records, &mut scratch), 0);
    records.mark_sent(0, true, now, 0, 0);
    scratch.extend(records.on_tick(now));
    assert_eq!(scratch, [10]);
    scratch.clear();
    scratch.extend(records.on_tick(now));
    assert!(scratch.is_empty());
    assert!(records.packets.is_empty());
    assert!(records.slots.is_empty());
    assert!(records.deadlines.is_empty());
}

#[test]
fn skipped_numbers_are_explicit_bounded_and_allow_reordered_submission() {
    let mut journal: ArcSendJournal<u64> = ArcSendJournal::new();
    let mut frames = Vec::new();
    for _ in 0..3 {
        journal.record_pending(Some(0), &mut frames).unwrap();
    }
    journal.mark_sent(2, false, 0, 0, 0);
    assert!(journal.skipped_pns.is_empty());
    assert!(journal.acknowledge(&ack(0)).is_err());
    journal.mark_sent(0, false, 0, 0, 0);
    journal.acknowledge(&ack(0)).unwrap();
    journal.cancel_pending(1, &mut frames);
    assert!(journal.acknowledge(&ack(1)).is_err());
    for _ in 0..MAX_SKIPPED_PNS {
        let (pn, _) = journal.record_pending(Some(0), &mut frames).unwrap();
        journal.cancel_pending(pn, &mut frames);
    }
    assert_eq!(journal.skipped_pns.len(), MAX_SKIPPED_PNS);
    assert_eq!(journal.skipped_pns.first(), Some(&3));
    // Old history is deliberately forgotten; retained skipped PNs are still rejected.
    journal.acknowledge(&ack(1)).unwrap();
    assert!(journal.acknowledge(&ack(3)).is_err());
    assert!(journal.acknowledge(&ack(3 + MAX_SKIPPED_PNS as u64)).is_err());
}

#[test]
fn regression_invalid_ack_ranges_return_an_error_without_underflow() {
    let mut records: ArcSendJournal<u64> = ArcSendJournal::new();
    let error = records.acknowledge(&ack_range(0, 1)).unwrap_err();
    assert_eq!(error.kind, ErrorKind::FrameEncoding);
}

#[test]
fn pn_encoding_tracks_valid_ack_even_after_recovery_records_are_removed() {
    let mut records: ArcSendJournal<u64> = ArcSendJournal::new();
    assert_eq!(
        records.record_pending(Some(0), &mut Vec::new()).unwrap(),
        (0, PacketNumber::U16(0))
    );
    records.mark_sent(0, false, 0, 0, 0);
    records.next_pn = 1 << 15;
    let (pn, encoded) = records.record_pending(Some(0), &mut Vec::new()).unwrap();
    assert_eq!(encoded, PacketNumber::U24(pn as u32));
    records.mark_sent(pn, false, 0, 0, 0);
    assert!(records.packets.is_empty());

    assert!(records.acknowledge(&ack(pn + 1)).is_err());
    assert_eq!(records.largest_acked, 0);
    records.acknowledge(&ack(pn)).unwrap();
    records.acknowledge(&ack(0)).unwrap();
    records.acknowledge(&ack(pn)).unwrap();
    assert_eq!(
        records.record_pending(Some(0), &mut Vec::new()).unwrap(),
        (pn + 1, PacketNumber::U16((pn + 1) as u16))
    );
}

#[test]
fn pn_encoding_selects_two_three_and_four_bytes_from_the_ack_gap() {
    let mut records: ArcSendJournal<u64> = ArcSendJournal::new();
    let largest = 1 << 40;
    records.largest_acked = largest;
    for (gap, size) in [(32767, 2), (32768, 3), (8388607, 3), (8388608, 4)] {
        records.next_pn = largest + gap;
        let (pn, encoded) = records.record_pending(Some(0), &mut Vec::new()).unwrap();
        assert_eq!(pn, largest + gap);
        assert_eq!(encoded.size(), size);
        assert_eq!(encoded.decode(pn), pn);
    }
}

#[test]
fn concurrent_packet_allocation_is_unique_and_exhaustion_never_wraps() {
    let mut records: ArcSendJournal<u64> = ArcSendJournal::new();
    let mut unique = std::collections::BTreeSet::new();
    for _ in 0..4000 {
        unique.insert(records.record_pending(Some(0), &mut Vec::new()).unwrap().0);
    }
    assert_eq!(unique.len(), 4000);
    assert_eq!(
        records.record_pending(Some(0), &mut Vec::new()).unwrap().0,
        4000
    );
    records.next_pn = VARINT_MAX;
    records.largest_acked = VARINT_MAX - 1;
    assert_eq!(
        records.record_pending(Some(0), &mut Vec::new()).unwrap().0,
        VARINT_MAX
    );
    for _ in 0..2 {
        assert!(matches!(
            records.record_pending(Some(0), &mut Vec::new()),
            Err(PacketError::Connection(error)) if error.kind == ErrorKind::AeadLimitReached
        ));
    }
}

#[test]
fn an_acknowledgement_reports_the_generations_of_its_packets() {
    let mut records = ArcSendJournal::new();
    for (generation, frame) in [(Some(3), 10), (None, 11), (Some(4), 12)] {
        let (pn, _) = records.record_pending(generation, &mut vec![frame]).unwrap();
        sent(&mut records, pn, 0);
    }
    let (generations, frames) = records.acknowledge(&ack_range(2, 2)).unwrap();
    assert_eq!(generations, [3, 4]);
    assert_eq!(frames, [10, 11, 12]);
}

#[test]
fn a_journal_can_start_at_any_number() {
    let mut records: ArcSendJournal<u64> = ArcSendJournal::starting_at(7);
    assert_eq!(record(&mut records, &mut vec![1]), 7);
    assert_eq!(record(&mut records, &mut vec![2]), 8);
}

#[test]
fn ticks_report_a_packet_once_and_retire_it() {
    // Sent again before its retention ends, and after.
    for (retransmit_after, retention) in [(10, 30), (30, 10)] {
        let mut records = ArcSendJournal::new();
        assert_eq!(record(&mut records, &mut vec![1, 2]), 0);
        assert_eq!(record(&mut records, &mut vec![3]), 1);
        records.mark_sent(0, true, 0, retransmit_after, retention);
        let mut reported = Vec::new();
        for now in 0..30 {
            let frames = records.on_tick(now);
            assert_eq!(frames.is_empty(), now != retransmit_after);
            reported.extend(frames);
            assert!(contains(&records, 0), "kept for a late acknowledgement");
        }
        reported.extend(records.on_tick(30));
        assert_eq!(reported, [1, 2]);
        assert!(!contains(&records, 0));
        assert!(acknowledged_values(&mut records, 0).is_empty());
        assert!(contains(&records, 1), "never submitted, never reported");
        assert!(records.on_tick(u64::MAX).is_empty());
    }
}
