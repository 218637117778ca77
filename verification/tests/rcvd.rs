use dquic::packet_number::{InvalidPacketNumber, PacketNumber};
use dquic::rcvd::{ArcRcvdJournal, PnRange, MAX_TRACKED_ACK_RANGES};
use dquic::signals::Signals;
use dquic::varint::{VarInt, VARINT_MAX};

fn range(start: u64, end: u64) -> PnRange {
    PnRange { start, end }
}

fn varint(value: u64) -> VarInt {
    VarInt::from_u64(value).unwrap()
}

#[test]
fn contiguous_packets_merge_into_one_range() {
    let mut records = ArcRcvdJournal::with_capacity(16);
    for pn in [10, 12, 11] {
        records.on_rcvd_pn(pn, 0);
    }
    assert_eq!(records.packets.ranges, vec![range(10, 13)]);
    assert_eq!(records.packets.ranges.len(), 1);
}

#[test]
fn large_packet_number_gap_does_not_allocate_empty_states() {
    let mut records = ArcRcvdJournal::with_capacity(16);
    records.on_rcvd_pn(10, 0);
    records.on_rcvd_pn(10_000_000, 0);
    assert_eq!(
        records.packets.ranges,
        vec![range(10, 11), range(10_000_000, 10_000_001)]
    );
}

#[test]
fn range_bound_evicts_oldest_and_retires_it() {
    let mut records = ArcRcvdJournal::with_capacity(MAX_TRACKED_ACK_RANGES);
    for pn in (0..=MAX_TRACKED_ACK_RANGES as u64 * 2).step_by(2) {
        records.on_rcvd_pn(pn, 0);
    }
    assert_eq!(records.packets.ranges.len(), MAX_TRACKED_ACK_RANGES);
    assert!(records.packets.retired_before > 0);
    assert_eq!(
        records.decode_pn(PacketNumber::encode(0, 0)),
        Err(InvalidPacketNumber::TooOld)
    );
}

#[test]
fn ack_ranges_preserve_holes_and_encode_exactly() {
    let mut records = ArcRcvdJournal::with_capacity(16);
    for pn in [100, 101, 104, 105, 110] {
        records.on_rcvd_pn(pn, 0);
    }
    let ack = records.gen_ack_frame_util(110, 0, 0, 1200).unwrap();
    assert_eq!(ack.largest.value, 110);
    assert_eq!(ack.first_range.value, 0);
    assert_eq!(
        ack.ranges,
        vec![(varint(3), varint(1)), (varint(1), varint(1))]
    );
    let ranges = ack.checked_ranges().unwrap();
    assert!(ranges.iter().any(|range| *range == (100, 101)));
    assert!(ranges.iter().any(|range| *range == (104, 105)));
}

#[test]
fn ack_generation_is_read_only() {
    let mut records = ArcRcvdJournal::with_capacity(16);
    records.on_rcvd_pn(1, 0);
    let before = (records.packets.ranges.clone(), records.packets.retired_before);
    assert!(records.gen_ack_frame_util(1, 0, 0, 1200).is_ok());
    let after = (records.packets.ranges.clone(), records.packets.retired_before);
    assert_eq!(after, before);
}

#[test]
fn high_packet_number_does_not_retire_slow_path_range() {
    let mut records = ArcRcvdJournal::with_capacity(16);
    records.on_rcvd_pn(100, 0);
    records.on_rcvd_pn(10_000, 0);
    assert_eq!(
        records.packets.ranges,
        vec![range(100, 101), range(10_000, 10_001)]
    );
}

#[test]
fn path_local_trigger_selects_ack_largest_in_shared_journal() {
    let mut records = ArcRcvdJournal::with_capacity(16);
    records.on_rcvd_pn(100, 0);
    records.on_rcvd_pn(10_000, 0);

    let ack = records
        .ack_package(Some((100, 0)))
        .gen_ack_frame(0, 1200)
        .unwrap();

    assert_eq!(ack.largest.value, 100);
    let ranges = ack.checked_ranges().unwrap();
    assert!(ranges.iter().any(|range| range.0 <= 100 && 100 <= range.1));
    assert!(!ranges.iter().any(|range| range.0 <= 10_000 && 10_000 <= range.1));
}

#[test]
fn retired_path_trigger_can_still_generate_singleton_ack() {
    let mut records = ArcRcvdJournal::with_capacity(MAX_TRACKED_ACK_RANGES);
    records.on_rcvd_pn(0, 0);
    for pn in (2..=MAX_TRACKED_ACK_RANGES as u64 * 2).step_by(2) {
        records.on_rcvd_pn(pn, 0);
    }
    assert!(!records.packets.contains(0));

    let ack = records
        .ack_package(Some((0, 0)))
        .gen_ack_frame(0, 1200)
        .unwrap();

    assert_eq!(ack.largest.value, 0);
    assert_eq!(ack.first_range.value, 0);
    assert_eq!(ack.ranges, vec![]);
}

#[test]
fn an_ack_without_a_reason_or_room_is_refused() {
    let mut records = ArcRcvdJournal::with_capacity(16);
    records.on_rcvd_pn(3, 0);
    assert_eq!(
        records.gen_ack_frame_util(4, 0, 0, 1200).unwrap_err(),
        Signals::transport()
    );
    assert_eq!(
        records.gen_ack_frame_util(3, 0, 0, 4).unwrap_err(),
        Signals::congestion()
    );
    assert_eq!(
        records.ack_package(None).gen_ack_frame(0, 1200).unwrap_err(),
        Signals::transport()
    );
}

#[test]
fn a_short_ack_keeps_the_highest_ranges() {
    let mut records = ArcRcvdJournal::with_capacity(16);
    for pn in [1, 3, 5, 7] {
        records.on_rcvd_pn(pn, 0);
    }
    let full = records.gen_ack_frame_util(7, 0, 0, 1200).unwrap();
    assert_eq!(full.ranges.len(), 3);
    let short = records.gen_ack_frame_util(7, 0, 0, 9).unwrap();
    assert_eq!(short.ranges, full.ranges[..2].to_vec());
}

#[test]
fn the_ack_delay_saturates() {
    let mut records = ArcRcvdJournal::with_capacity(16);
    records.on_rcvd_pn(0, 0);
    assert_eq!(records.gen_ack_frame_util(0, 5, 3, 1200).unwrap().delay, varint(0));
    assert_eq!(records.gen_ack_frame_util(0, 3, 10, 1200).unwrap().delay, varint(7));
    assert_eq!(
        records.gen_ack_frame_util(0, 0, u64::MAX, 1200).unwrap().delay,
        varint(VARINT_MAX)
    );
}

#[test]
fn a_duplicate_is_refused() {
    let mut records = ArcRcvdJournal::with_capacity(16);
    records.on_rcvd_pn(5, 0);
    assert_eq!(
        records.decode_pn(PacketNumber::encode(5, 0)),
        Err(InvalidPacketNumber::Duplicate)
    );
    assert_eq!(records.decode_pn(PacketNumber::encode(6, 0)), Ok(6));
}
