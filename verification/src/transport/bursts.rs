//! What becomes of the packets of a burst.
use vstd::multiset::Multiset;
use vstd::prelude::*;
use vstd::seq_lib::{lemma_flatten_concat, lemma_multiset_commutative};

use crate::transport::assembly::{epoch_of, Epoch, PacketType, PendingPacket};
use crate::transport::constraints::AntiAmplifier;
use crate::transport::history::{by_number, lemma_by_number, lemma_on_record, lemma_same_number, on_record};
use crate::transport::records::{ArcSendJournal, SentPacketState, SentRecord};
use crate::transport::sender::{Journals, PerEpoch};
use crate::transport::submission::{admissible, charged, dropped, joined, kept, Allowed};

verus! {

/// Of the packets that wait, those of a type that may still be sent stay in order, and all others are given up.
pub proof fn only_what_may_be_sent_waits(pending: Seq<PendingPacket>, allowed: Allowed)
    ensures
        kept(pending, allowed) == pending.filter(
            |packet: PendingPacket|
                match packet.packet_type {
                    PacketType::Initial => allowed.initial,
                    PacketType::ZeroRtt => allowed.zero_rtt,
                    PacketType::Handshake => allowed.handshake,
                    PacketType::OneRtt => allowed.one_rtt,
                },
        ),
        dropped(pending, allowed) == pending.filter(
            |packet: PendingPacket|
                match packet.packet_type {
                    PacketType::Initial => !allowed.initial,
                    PacketType::ZeroRtt => !allowed.zero_rtt,
                    PacketType::Handshake => !allowed.handshake,
                    PacketType::OneRtt => !allowed.one_rtt,
                },
        ),
    decreases pending.len(),
{
    reveal(Seq::filter);
    if pending.len() > 0 {
        only_what_may_be_sent_waits(pending.drop_last(), allowed);
    }
}

/// The bytes that packets take with what is added around each, of those that `counted` holds of.
pub open spec fn bytes_of(packets: Seq<PendingPacket>, overhead: int, counted: spec_fn(PendingPacket) -> bool) -> int
    decreases packets.len(),
{
    if packets.len() == 0 {
        0
    } else {
        bytes_of(packets.drop_last(), overhead, counted) + if counted(packets.last()) {
            packets.last().msg@.len() + overhead
        } else {
            0
        }
    }
}

proof fn lemma_bytes_first(packets: Seq<PendingPacket>, overhead: int, counted: spec_fn(PendingPacket) -> bool)
    requires
        packets.len() > 0,
    ensures
        bytes_of(packets, overhead, counted) == bytes_of(packets.drop_first(), overhead, counted) + if counted(packets[0]) {
            packets[0].msg@.len() + overhead
        } else {
            0
        },
    decreases packets.len(),
{
    if packets.len() == 1 {
        assert(packets.drop_first().len() == 0);
        assert(packets.drop_last().len() == 0);
        assert(bytes_of(packets.drop_last(), overhead, counted) == 0);
    } else {
        lemma_bytes_first(packets.drop_last(), overhead, counted);
        assert(packets.drop_last().drop_first() =~= packets.drop_first().drop_last());
        assert(packets.drop_first().last() == packets.last());
    }
}

/// How many of packets are of a space and elicit an acknowledgement.
pub open spec fn probes_in(packets: Seq<PendingPacket>, space: Epoch) -> nat {
    packets.filter(
        |packet: PendingPacket| epoch_of(packet.packet_type) == space && !(packet.content is NonAckEliciting),
    ).len()
}

proof fn lemma_probes_first(packets: Seq<PendingPacket>, space: Epoch)
    requires
        packets.len() > 0,
    ensures
        probes_in(packets, space) == probes_in(packets.drop_first(), space) + if epoch_of(packets[0].packet_type)
            == space && !(packets[0].content is NonAckEliciting) {
            1nat
        } else {
            0
        },
    decreases packets.len(),
{
    reveal(Seq::filter);
    let counted = |packet: PendingPacket|
        epoch_of(packet.packet_type) == space && !(packet.content is NonAckEliciting);
    if packets.len() == 1 {
        assert(packets.drop_first() =~= Seq::empty());
        assert(packets.drop_last() =~= Seq::empty());
        assert(packets.drop_last().filter(counted).len() == 0);
    } else {
        lemma_probes_first(packets.drop_last(), space);
        assert(packets.drop_last().drop_first() =~= packets.drop_first().drop_last());
        assert(packets.drop_first().last() == packets.last());
    }
}

/// What is left of a congestion limit.
spec fn left_of(congestion: int, used: int) -> int {
    if used < congestion {
        congestion - used
    } else {
        0
    }
}

/// Packets are submitted from the front, as many as can go: all together stay within the credit. A packet in
/// flight stays within what those before it leave of the congestion limit, unless a loss probe is due that
/// none of these was. The first that does not go would break one of these.
pub proof fn burst_goes_as_far_as_it_may(
    pending: Seq<PendingPacket>,
    overhead: int,
    credit: int,
    congestion: int,
    probes: PerEpoch,
    index: int,
)
    requires
        0 <= overhead,
        0 <= credit,
        0 <= congestion,
        0 <= index < pending.len(),
    ensures
        ({
            let count = admissible(pending, overhead, credit, congestion, probes);
            let length = pending[index].msg@.len() + overhead;
            let space = epoch_of(pending[index].packet_type);
            let before = pending.take(index);
            let used = bytes_of(before, overhead, |packet: PendingPacket| true);
            let in_flight = bytes_of(before, overhead, |packet: PendingPacket| packet.in_flight);
            let fits = {
                &&& used + length <= credit
                &&& !pending[index].in_flight || in_flight + length <= congestion || (!(pending[index].content
                    is NonAckEliciting) && probes_in(before, space) < match space {
                    Epoch::Initial => probes.initial,
                    Epoch::Handshake => probes.handshake,
                    Epoch::Data => probes.data,
                }) || length == 0
            };
            &&& count <= pending.len()
            &&& index < count ==> fits
            &&& index == count ==> !fits || length == 0
        }),
    decreases pending.len(),
{
    let packet = pending[0];
    let space = epoch_of(packet.packet_type);
    let length = packet.msg@.len() + overhead;
    let all = |packet: PendingPacket| true;
    let flying = |packet: PendingPacket| packet.in_flight;
    let rest = pending.drop_first();
    let goes = admissible(pending, overhead, credit, congestion, probes) > 0;
    let left_congestion = if packet.in_flight {
        left_of(congestion, length as int)
    } else {
        congestion
    };
    let left_probes = if packet.content.elicits() {
        probes.with(space, if probes.of(space) == 0 { 0 } else { (probes.of(space) - 1) as u64 })
    } else {
        probes
    };
    lemma_admissible_len(pending, overhead, credit, congestion, probes);
    if index == 0 {
        assert(pending.take(0).len() == 0);
        assert(bytes_of(pending.take(0), overhead, all) == 0);
        assert(bytes_of(pending.take(0), overhead, flying) == 0);
        reveal(Seq::filter);
        assert(probes_in(pending.take(0), space) == 0);
    } else if goes {
        burst_goes_as_far_as_it_may(rest, overhead, credit - length, left_congestion, left_probes, index - 1);
        let before = pending.take(index);
        assert(before.drop_first() =~= rest.take(index - 1));
        assert(before[0] == packet);
        assert(rest[index - 1] == pending[index]);
        lemma_bytes_first(before, overhead, all);
        lemma_bytes_first(before, overhead, flying);
        lemma_probes_first(before, epoch_of(pending[index].packet_type));
        lemma_bytes_at_least(rest.take(index - 1), overhead, flying);
    }
}

proof fn lemma_bytes_at_least(packets: Seq<PendingPacket>, overhead: int, counted: spec_fn(PendingPacket) -> bool)
    requires
        0 <= overhead,
    ensures
        bytes_of(packets, overhead, counted) >= 0,
    decreases packets.len(),
{
    if packets.len() > 0 {
        lemma_bytes_at_least(packets.drop_last(), overhead, counted);
    }
}

proof fn lemma_admissible_len(
    pending: Seq<PendingPacket>,
    overhead: int,
    credit: int,
    congestion: int,
    probes: PerEpoch,
)
    ensures
        admissible(pending, overhead, credit, congestion, probes) <= pending.len(),
    decreases pending.len(),
{
    if pending.len() > 0 {
        let packet = pending[0];
        let space = epoch_of(packet.packet_type);
        let length = packet.msg@.len() + overhead;
        lemma_admissible_len(
            pending.drop_first(),
            overhead,
            credit - length,
            if packet.in_flight {
                left_of(congestion, length as int)
            } else {
                congestion
            },
            if packet.content.elicits() {
                probes.with(space, if probes.of(space) == 0 { 0 } else { (probes.of(space) - 1) as u64 })
            } else {
                probes
            },
        );
    }
}

/// What is submitted counts against the credit, every byte of it with what is added around each packet.
pub proof fn submitted_bytes_are_charged(amplifier: AntiAmplifier, packets: Seq<PendingPacket>, overhead: int)
    requires
        0 <= overhead,
        amplifier.sent + bytes_of(packets, overhead, |packet: PendingPacket| true) <= u64::MAX,
    ensures
        ({
            let after = charged(amplifier, packets, overhead);
            &&& after.sent == amplifier.sent + bytes_of(packets, overhead, |packet: PendingPacket| true)
            &&& after.received == amplifier.received
            &&& after.validated == amplifier.validated
            &&& amplifier.limited ==> after.limited
            &&& packets.len() > 0 && after.credit() < 1200 ==> after.limited
        }),
    decreases packets.len(),
{
    if packets.len() > 0 {
        lemma_bytes_at_least(packets.drop_last(), overhead, |packet: PendingPacket| true);
        submitted_bytes_are_charged(amplifier, packets.drop_last(), overhead);
    }
}

/// The frames on record in a journal.
pub open spec fn on_hand<T: Copy>(journal: ArcSendJournal<T>) -> Multiset<T> {
    journal.records().map_values(|record: SentRecord<T>| record.frames).flatten().to_multiset()
}

/// The frames on record in the journals of all spaces.
pub open spec fn all_on_hand<T: Copy>(journals: Journals<T>) -> Multiset<T> {
    on_hand(journals.initial).add(on_hand(journals.handshake)).add(on_hand(journals.data))
}

proof fn lemma_removed<T>(records: Seq<SentRecord<T>>, index: int)
    requires
        0 <= index < records.len(),
    ensures
        records.map_values(|record: SentRecord<T>| record.frames).flatten().to_multiset() == records[index].frames.to_multiset().add(
            records.remove(index).map_values(|record: SentRecord<T>| record.frames).flatten().to_multiset(),
        ),
{
    broadcast use vstd::multiset::group_multiset_axioms;

    let frames = |record: SentRecord<T>| record.frames;
    let pieces = records.map_values(frames);
    let front = pieces.take(index);
    let back = pieces.skip(index + 1);
    assert(pieces =~= front.push(records[index].frames) + back);
    lemma_flatten_concat(front.push(records[index].frames), back);
    front.lemma_flatten_push(records[index].frames);
    assert(records.remove(index).map_values(frames) =~= front + back);
    lemma_flatten_concat(front, back);
    lemma_multiset_commutative(front.flatten(), records[index].frames);
    lemma_multiset_commutative(front.flatten() + records[index].frames, back.flatten());
    lemma_multiset_commutative(front.flatten(), back.flatten());
}

/// Giving packets up hands every frame of theirs back to its owner: what is handed back and what is still on
/// record, in whatever space, is what was on record before.
pub proof fn cancelled_packets_hand_back_their_frames<T: Copy>(
    before: Journals<T>,
    after: Journals<T>,
    packets: Seq<PendingPacket>,
    frames: Seq<T>,
)
    requires
        before.cancels(&after, packets, frames),
    ensures
        all_on_hand(before) == frames.to_multiset().add(all_on_hand(after)),
{
    let (trace, pieces) = choose|trace: Seq<Journals<T>>, pieces: Seq<Seq<T>>| #[trigger]
        before.cancel_trace(&after, packets, trace, pieces) && frames == joined(pieces);
    lemma_cancelled(packets, trace, pieces, packets.len() as int);
    assert(pieces.take(packets.len() as int) =~= pieces);
}

proof fn lemma_cancelled<T: Copy>(
    packets: Seq<PendingPacket>,
    trace: Seq<Journals<T>>,
    pieces: Seq<Seq<T>>,
    count: int,
)
    requires
        0 <= count <= packets.len(),
        trace.len() == packets.len() + 1,
        pieces.len() == packets.len(),
        forall|i: int|
            #![trigger packets[i]]
            0 <= i < packets.len() ==> trace[i].cancels_one(&trace[i + 1], packets[i], pieces[i]),
    ensures
        all_on_hand(trace[0]) == joined(pieces.take(count)).to_multiset().add(all_on_hand(trace[count])),
    decreases count,
{
    broadcast use vstd::multiset::group_multiset_axioms;

    if count == 0 {
        assert(pieces.take(0).len() == 0);
        assert(joined(pieces.take(0)) =~= Seq::<T>::empty());
        lemma_multiset_commutative(Seq::<T>::empty(), Seq::<T>::empty());
        assert(Seq::<T>::empty() + Seq::<T>::empty() =~= Seq::<T>::empty());
        assert(Seq::<T>::empty().to_multiset() =~= Multiset::empty()) by {
            Seq::<T>::empty().to_multiset_ensures();
        }
        assert(all_on_hand(trace[0]) =~= joined(pieces.take(0)).to_multiset().add(all_on_hand(trace[0])));
    } else {
        let last = count - 1;
        lemma_cancelled(packets, trace, pieces, last);
        assert(trace[last].cancels_one(&trace[last + 1], packets[last], pieces[last]));
        let space = epoch_of(packets[last].packet_type);
        let journal = trace[last].of(space);
        let left = trace[last + 1].of(space);
        if journal.has(packets[last].pn) {
            lemma_removed(journal.records(), journal.index_of(packets[last].pn));
        } else {
            Seq::<T>::empty().to_multiset_ensures();
            assert(pieces[last].to_multiset() =~= Multiset::empty());
        }
        assert(on_hand(journal) =~= pieces[last].to_multiset().add(on_hand(left)));
        assert(pieces.take(count).drop_last() =~= pieces.take(last));
        assert(pieces.take(count).last() == pieces[last]);
        lemma_multiset_commutative(joined(pieces.take(last)), pieces[last]);
        assert(all_on_hand(trace[0]) =~= joined(pieces.take(count)).to_multiset().add(all_on_hand(trace[count])));
    }
}

proof fn lemma_submitted<T: Copy>(
    before: ArcSendJournal<T>,
    after: ArcSendJournal<T>,
    pn: u64,
    in_flight: bool,
    now: u64,
    delay: u64,
    retention: u64,
    other: u64,
)
    requires
        by_number(before.records()),
        on_record(before.records(), pn) is Some,
        before.submitted(&after, pn, in_flight, now, delay, retention),
    ensures
        by_number(after.records()),
        on_record(after.records(), other) == if other != pn {
            on_record(before.records(), other)
        } else if in_flight {
            Some(
                SentRecord {
                    state: SentPacketState::Flighting {
                        retrans_at: (now + delay) as u64,
                        expire_after: (now + retention) as u64,
                    },
                    ..on_record(before.records(), pn)->Some_0
                },
            )
        } else {
            None
        },
{
    let records = before.records();
    let left = after.records();
    let at = choose|i: int| #![trigger records[i]] 0 <= i < records.len() && records[i].pn == pn;
    assert(before.packets@[at].pn == pn);
    assert(before.has(pn));
    let index = before.index_of(pn);
    assert(records[index].pn == pn);
    lemma_same_number(records, at, index);
    lemma_on_record(records, index);
    assert forall|i: int, j: int| #![trigger left[i], left[j]] 0 <= i < j < left.len() implies left[i].pn < left[j].pn by {
        if in_flight {
            assert(records[i].pn < records[j].pn);
        } else {
            let (a, b) = (if i < index { i } else { i + 1 }, if j < index { j } else { j + 1 });
            assert(records[a].pn < records[b].pn);
        }
    }
    if exists|i: int| #![trigger records[i]] 0 <= i < records.len() && records[i].pn == other {
        let i = choose|i: int| #![trigger records[i]] 0 <= i < records.len() && records[i].pn == other;
        lemma_on_record(records, i);
        if other == pn {
            lemma_same_number(records, i, index);
        }
        if in_flight {
            lemma_on_record(left, i);
        } else if other != pn {
            lemma_on_record(left, if i < index { i } else { i - 1 });
        } else if exists|k: int| #![trigger left[k]] 0 <= k < left.len() && left[k].pn == other {
            let k = choose|k: int| #![trigger left[k]] 0 <= k < left.len() && left[k].pn == other;
            lemma_same_number(records, if k < index { k } else { k + 1 }, index);
        }
    } else if exists|k: int| #![trigger left[k]] 0 <= k < left.len() && left[k].pn == other {
        let k = choose|k: int| #![trigger left[k]] 0 <= k < left.len() && left[k].pn == other;
        let at = if in_flight || k < index {
            k
        } else {
            k + 1
        };
        assert(records[at].pn == other);
    }
}

/// Every packet that was submitted is then in flight, to be sent again and forgotten at the times of its space,
/// with the frames it had; or off the record, if it needs no recovery. All other packets stay as they were.
pub proof fn submitted_packets_are_in_flight<T: Copy>(
    before: Journals<T>,
    after: Journals<T>,
    packets: Seq<PendingPacket>,
    now: u64,
    delays: PerEpoch,
    retentions: PerEpoch,
    space: Epoch,
    pn: u64,
)
    requires
        before.wf(),
        before.await_all(packets),
        before.submits(&after, packets, now, delays, retentions),
    ensures
        ({
            let was = on_record(before.of(space).records(), pn);
            let is = on_record(after.of(space).records(), pn);
            &&& (forall|i: int|
                #![trigger packets[i]]
                0 <= i < packets.len() ==> !(epoch_of(packets[i].packet_type) == space && packets[i].pn == pn)) ==> is
                == was
            &&& forall|i: int|
                #![trigger packets[i]]
                0 <= i < packets.len() && epoch_of(packets[i].packet_type) == space && packets[i].pn == pn ==> was
                    is Some && is == if packets[i].in_flight {
                    Some(
                        SentRecord {
                            state: SentPacketState::Flighting {
                                retrans_at: (now + delays.of(space)) as u64,
                                expire_after: (now + retentions.of(space)) as u64,
                            },
                            ..was->Some_0
                        },
                    )
                } else {
                    None
                }
        }),
{
    let trace = choose|trace: Seq<Journals<T>>| #[trigger]
        before.submit_trace(&after, packets, now, delays, retentions, trace);
    lemma_by_number(before.initial);
    lemma_by_number(before.handshake);
    lemma_by_number(before.data);
    assert forall|i: int| #![trigger packets[i]] 0 <= i < packets.len() implies on_record(
        before.of(epoch_of(packets[i].packet_type)).records(),
        packets[i].pn,
    ) is Some by {
        let journal = before.of(epoch_of(packets[i].packet_type));
        assert(journal.awaits(packets[i].pn));
        let index = journal.index_of(packets[i].pn);
        assert(journal.records()[index].pn == packets[i].pn);
    }
    lemma_submits(packets, now, delays, retentions, trace, packets.len() as int, space, pn);
}

proof fn lemma_submits<T: Copy>(
    packets: Seq<PendingPacket>,
    now: u64,
    delays: PerEpoch,
    retentions: PerEpoch,
    trace: Seq<Journals<T>>,
    count: int,
    space: Epoch,
    pn: u64,
)
    requires
        0 <= count <= packets.len(),
        trace.len() == packets.len() + 1,
        forall|i: int|
            #![trigger packets[i]]
            0 <= i < packets.len() ==> trace[i].submits_one(&trace[i + 1], packets[i], now, delays, retentions),
        by_number(trace[0].initial.records()),
        by_number(trace[0].handshake.records()),
        by_number(trace[0].data.records()),
        forall|i: int|
            #![trigger packets[i]]
            0 <= i < packets.len() ==> on_record(
                trace[0].of(epoch_of(packets[i].packet_type)).records(),
                packets[i].pn,
            ) is Some,
        forall|i: int, j: int|
            #![trigger packets[i], packets[j]]
            0 <= i < j < packets.len() && epoch_of(packets[i].packet_type) == epoch_of(packets[j].packet_type)
                ==> packets[i].pn != packets[j].pn,
    ensures
        by_number(trace[count].initial.records()),
        by_number(trace[count].handshake.records()),
        by_number(trace[count].data.records()),
        ({
            let was = on_record(trace[0].of(space).records(), pn);
            let is = on_record(trace[count].of(space).records(), pn);
            &&& (forall|i: int|
                #![trigger packets[i]]
                0 <= i < count ==> !(epoch_of(packets[i].packet_type) == space && packets[i].pn == pn)) ==> is == was
            &&& forall|i: int|
                #![trigger packets[i]]
                0 <= i < count && epoch_of(packets[i].packet_type) == space && packets[i].pn == pn ==> was is Some && is
                    == if packets[i].in_flight {
                    Some(
                        SentRecord {
                            state: SentPacketState::Flighting {
                                retrans_at: (now + delays.of(space)) as u64,
                                expire_after: (now + retentions.of(space)) as u64,
                            },
                            ..was->Some_0
                        },
                    )
                } else {
                    None
                }
        }),
    decreases count,
{
    if count > 0 {
        let last = count - 1;
        let packet = packets[last];
        let at = epoch_of(packet.packet_type);
        lemma_submits(packets, now, delays, retentions, trace, last, space, pn);
        lemma_submits(packets, now, delays, retentions, trace, last, at, packet.pn);
        assert(trace[last].submits_one(&trace[last + 1], packet, now, delays, retentions));
        assert forall|i: int| #![trigger packets[i]] 0 <= i < last implies !(epoch_of(packets[i].packet_type) == at
            && packets[i].pn == packet.pn) by {
            assert(packets[last].pn == packet.pn);
        }
        assert(on_record(trace[last].of(at).records(), packet.pn) is Some);
        lemma_submitted(
            trace[last].of(at),
            trace[count].of(at),
            packet.pn,
            packet.in_flight,
            now,
            delays.of(at),
            retentions.of(at),
            pn,
        );
        if space == at && pn == packet.pn {
            assert(packets[last].pn == pn);
        }
    }
}

/// Each space has a journal and times of its own. Early data and 1-RTT packets share one.
pub proof fn spaces_are_kept_apart<T: Copy>(journals: Journals<T>, times: PerEpoch, space: Epoch, other: Epoch, time: u64)
    ensures
        journals.of(Epoch::Initial) == journals.initial,
        journals.of(Epoch::Handshake) == journals.handshake,
        journals.of(Epoch::Data) == journals.data,
        times.of(Epoch::Initial) == times.initial,
        times.of(Epoch::Handshake) == times.handshake,
        times.of(Epoch::Data) == times.data,
        times.with(space, time).of(other) == if other == space {
            time
        } else {
            times.of(other)
        },
        epoch_of(PacketType::Initial) == Epoch::Initial,
        epoch_of(PacketType::Handshake) == Epoch::Handshake,
        epoch_of(PacketType::ZeroRtt) == Epoch::Data,
        epoch_of(PacketType::OneRtt) == Epoch::Data,
{
}

} // verus!
