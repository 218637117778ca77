//! What becomes of a sent packet, whatever else happens to its journal.
use vstd::prelude::*;

use crate::base::ack::AckFrame;
use crate::transport::records::{
    acked_frames, deadline, due, expired, lemma_due, lemma_lose_all, lemma_unexpired, lose_all, loss_frames, lost_record,
    scheduled, unacked, unexpired, ArcSendJournal, SentPacketState, SentRecord,
};

verus! {

/// What is on record of `pn`.
pub open spec fn on_record<T>(records: Seq<SentRecord<T>>, pn: u64) -> Option<SentRecord<T>> {
    if exists|i: int| #![trigger records[i]] 0 <= i < records.len() && records[i].pn == pn {
        Some(records[choose|i: int| #![trigger records[i]] 0 <= i < records.len() && records[i].pn == pn])
    } else {
        None
    }
}

/// The frames that a report of losses hands out for the packet it names at `index`.
pub open spec fn share<T>(records: Seq<SentRecord<T>>, pns: Seq<u64>, index: int) -> Seq<T> {
    loss_frames(lose_all(records, pns.take(index)).0, pns[index])
}

/// The frames that a report of losses hands out for `pn`, wherever it names that.
pub open spec fn loss_share<T>(records: Seq<SentRecord<T>>, pns: Seq<u64>, pn: u64) -> Seq<T>
    decreases pns.len(),
{
    if pns.len() == 0 {
        Seq::empty()
    } else {
        loss_share(records, pns.drop_last(), pn) + if pns.last() == pn {
            share(records, pns, pns.len() - 1)
        } else {
            Seq::empty()
        }
    }
}

proof fn lemma_loss_share<T>(records: Seq<SentRecord<T>>, pns: Seq<u64>, index: int)
    requires
        0 <= index < records.len(),
        by_number(records),
    ensures
        loss_share(records, pns, records[index].pn) == if pns.contains(records[index].pn)
            && records[index].state is Flighting {
            records[index].frames
        } else {
            Seq::empty()
        },
    decreases pns.len(),
{
    let pn = records[index].pn;
    if pns.len() > 0 {
        let rest = pns.drop_last();
        lemma_loss_share(records, rest, index);
        lemma_lose_all(records, rest);
        assert(pns.take(pns.len() - 1) =~= rest);
        let left = lose_all(records, rest).0;
        if pns.last() == pn {
            assert(pns[pns.len() - 1] == pn);
            if rest.contains(pn) {
                assert(left[index] == lost_record(records[index]));
                assert forall|i: int| #![trigger left[i]] 0 <= i < left.len() && left[i].pn == pn implies !(
                left[i].state is Flighting) by {
                    assert(records[i].pn == pn);
                    lemma_same_number(records, i, index);
                }
            } else {
                assert(left[index] == records[index]);
                lemma_loss_frames(records, left, index);
            }
        } else if pns.contains(pn) {
            let k = choose|k: int| 0 <= k < pns.len() && pns[k] == pn;
            assert(rest[k] == pn);
        }
        if rest.contains(pn) {
            let k = choose|k: int| 0 <= k < rest.len() && rest[k] == pn;
            assert(pns[k] == pn);
        }
        assert(Seq::<T>::empty() + records[index].frames =~= records[index].frames);
        assert(records[index].frames + Seq::<T>::empty() =~= records[index].frames);
        assert(Seq::<T>::empty() + Seq::<T>::empty() =~= Seq::<T>::empty());
    }
}

proof fn lemma_no_loss_share<T>(records: Seq<SentRecord<T>>, pns: Seq<u64>, pn: u64)
    requires
        forall|i: int| #![trigger records[i]] 0 <= i < records.len() ==> records[i].pn != pn,
    ensures
        loss_share(records, pns, pn) == Seq::<T>::empty(),
    decreases pns.len(),
{
    if pns.len() > 0 {
        let rest = pns.drop_last();
        lemma_no_loss_share(records, rest, pn);
        lemma_lose_all(records, rest);
        assert(pns.take(pns.len() - 1) =~= rest);
        let left = lose_all(records, rest).0;
        assert forall|i: int| #![trigger left[i]] 0 <= i < left.len() implies left[i].pn != pn by {
            assert(left[i].pn == records[i].pn);
        }
        assert(Seq::<T>::empty() + Seq::<T>::empty() =~= Seq::<T>::empty());
    }
}

/// Records stand by ascending packet number.
pub open spec fn by_number<T>(records: Seq<SentRecord<T>>) -> bool {
    forall|i: int, j: int|
        #![trigger records[i], records[j]]
        0 <= i < j < records.len() ==> records[i].pn < records[j].pn
}

pub(crate) proof fn lemma_same_number<T>(records: Seq<SentRecord<T>>, left: int, right: int)
    requires
        by_number(records),
        0 <= left < records.len(),
        0 <= right < records.len(),
        records[left].pn == records[right].pn,
    ensures
        left == right,
{
    if left < right {
        assert(records[left].pn < records[right].pn);
    }
    if right < left {
        assert(records[right].pn < records[left].pn);
    }
}

pub(crate) proof fn lemma_by_number<T: Copy>(journal: ArcSendJournal<T>)
    requires
        journal.wf(),
    ensures
        by_number(journal.records()),
{
    let records = journal.records();
    assert forall|i: int, j: int|
        #![trigger records[i], records[j]]
        0 <= i < j < records.len() implies records[i].pn < records[j].pn by {
        assert(journal.packets@[i].pn < journal.packets@[j].pn);
    }
}

/// The frames that a tick hands out for `pn`.
pub open spec fn tick_share<T: Copy>(journal: ArcSendJournal<T>, now: u64, pn: u64) -> Seq<T> {
    loss_share(journal.records(), due(journal.deadlines@, now), pn)
}

/// A report of losses hands out the shares of the packets it names, one after the other.
pub proof fn losses_are_handed_out_in_turn<T>(records: Seq<SentRecord<T>>, pns: Seq<u64>)
    ensures
        lose_all(records, pns).1 == Seq::new(pns.len(), |i: int| share(records, pns, i)).flatten(),
    decreases pns.len(),
{
    let shares = Seq::new(pns.len(), |i: int| share(records, pns, i));
    if pns.len() == 0 {
        assert(shares =~= Seq::empty());
        assert(shares.flatten() =~= Seq::<T>::empty());
    } else {
        let rest = pns.drop_last();
        losses_are_handed_out_in_turn(records, rest);
        let earlier = Seq::new(rest.len(), |i: int| share(records, rest, i));
        assert forall|i: int| 0 <= i < rest.len() implies earlier[i] == #[trigger] shares[i] by {
            assert(rest.take(i) =~= pns.take(i));
        }
        assert(pns.take(rest.len() as int) =~= rest);
        assert(shares.last() == loss_frames(lose_all(records, rest).0, pns.last()));
        assert(shares.drop_last() =~= earlier);
        assert(shares =~= earlier.push(shares.last()));
        earlier.lemma_flatten_push(shares.last());
    }
}

pub(crate) proof fn lemma_on_record<T>(records: Seq<SentRecord<T>>, index: int)
    requires
        0 <= index < records.len(),
        by_number(records),
    ensures
        on_record(records, records[index].pn) == Some(records[index]),
{
    let pn = records[index].pn;
    let found = choose|i: int| #![trigger records[i]] 0 <= i < records.len() && records[i].pn == pn;
    lemma_same_number(records, found, index);
}

proof fn lemma_due_named(deadlines: Seq<(u64, u64)>, now: u64, pn: u64)
    requires
        due(deadlines, now).contains(pn),
    ensures
        exists|i: int|
            #![trigger deadlines[i]]
            0 <= i < deadlines.len() && deadlines[i].1 == pn && deadlines[i].0 <= now,
    decreases deadlines.len(),
{
    let pns = due(deadlines, now);
    let rest = deadlines.drop_last();
    let earlier = due(rest, now);
    let k = choose|k: int| 0 <= k < pns.len() && pns[k] == pn;
    if k < earlier.len() {
        assert(earlier[k] == pn);
        lemma_due_named(rest, now, pn);
        let i = choose|i: int| #![trigger rest[i]] 0 <= i < rest.len() && rest[i].1 == pn && rest[i].0 <= now;
        assert(deadlines[i] == rest[i]);
    } else {
        assert(deadlines[deadlines.len() - 1].1 == pn);
    }
}

/// A tick names exactly the packets with something due.
proof fn lemma_tick_names<T: Copy>(journal: ArcSendJournal<T>, now: u64)
    requires
        journal.wf(),
    ensures
        forall|i: int|
            #![trigger journal.packets@[i]]
            0 <= i < journal.packets@.len() ==> (due(journal.deadlines@, now).contains(journal.packets@[i].pn) <==> (
            deadline(journal.packets@[i].state) matches Some(at) && at <= now)),
{
    let deadlines = journal.deadlines@;
    let packets = journal.packets@;
    assert forall|i: int| #![trigger packets[i]] 0 <= i < packets.len() implies (due(deadlines, now).contains(
        packets[i].pn,
    ) <==> (deadline(packets[i].state) matches Some(at) && at <= now)) by {
        if due(deadlines, now).contains(packets[i].pn) {
            lemma_due_named(deadlines, now, packets[i].pn);
            let k = choose|k: int|
                #![trigger deadlines[k]]
                0 <= k < deadlines.len() && deadlines[k].1 == packets[i].pn && deadlines[k].0 <= now;
            assert(deadlines.contains(deadlines[k]));
            assert(scheduled(packets, deadlines[k]));
            let a = choose|a: int|
                #![trigger packets[a]]
                0 <= a < packets.len() && packets[a].pn == deadlines[k].1 && deadline(packets[a].state) == Some(
                    deadlines[k].0,
                );
            assert(packets[a].pn == packets[i].pn);
            assert(a == i);
        }
        if let Some(at) = deadline(packets[i].state) {
            if at <= now {
                assert(scheduled(packets, (at, packets[i].pn)));
                assert(deadlines.contains((at, packets[i].pn)));
                lemma_due(deadlines, now, (at, packets[i].pn));
            }
        }
    }
}

proof fn lemma_unexpired_keeps<T>(records: Seq<SentRecord<T>>, now: u64, i: int)
    requires
        0 <= i < records.len(),
        !expired(records[i].state, now),
    ensures
        unexpired(records, now).contains(records[i]),
    decreases records.len(),
{
    let rest = unexpired(records.drop_last(), now);
    if i == records.len() - 1 {
        assert(unexpired(records, now)[rest.len() as int] == records[i]);
    } else {
        assert(records.drop_last()[i] == records[i]);
        lemma_unexpired_keeps(records.drop_last(), now, i);
        let k = choose|k: int| 0 <= k < rest.len() && rest[k] == records[i];
        assert(unexpired(records, now)[k] == records[i]);
    }
}

/// Whether a tick turns a journal into another.
pub open spec fn ticked<T: Copy>(before: ArcSendJournal<T>, now: u64, after: ArcSendJournal<T>) -> bool {
    &&& before.wf()
    &&& after.wf()
    &&& after.records() == unexpired(lose_all(before.records(), due(before.deadlines@, now)).0, now)
}

/// What a tick leaves of a record.
pub open spec fn after_tick<T>(record: SentRecord<T>, now: u64) -> Option<SentRecord<T>> {
    let lost = match record.state {
        SentPacketState::Flighting { retrans_at, .. } if retrans_at <= now => lost_record(record),
        _ => record,
    };
    if expired(lost.state, now) {
        None
    } else {
        Some(lost)
    }
}

/// A tick hands out the frames of a packet in flight whose time to be sent again has come, and those of
/// no other; it forgets a packet that was reported lost once its retention has ended, and leaves every
/// other as it is.
pub proof fn tick_concerns_what_is_due<T: Copy>(before: ArcSendJournal<T>, now: u64, after: ArcSendJournal<T>, pn: u64)
    requires
        ticked(before, now, after),
    ensures
        on_record(after.records(), pn) == match on_record(before.records(), pn) {
            Some(record) => after_tick(record, now),
            None => None,
        },
        tick_share(before, now, pn) == match on_record(before.records(), pn) {
            Some(record) => match record.state {
                SentPacketState::Flighting { retrans_at, .. } if retrans_at <= now => record.frames,
                _ => Seq::empty(),
            },
            None => Seq::empty(),
        },
{
    let records = before.records();
    let pns = due(before.deadlines@, now);
    let left = lose_all(records, pns).0;
    let kept = after.records();
    lemma_tick_names(before, now);
    lemma_lose_all(records, pns);
    lemma_by_number(before);
    lemma_by_number(after);
    if exists|i: int| #![trigger records[i]] 0 <= i < records.len() && records[i].pn == pn {
        let index = choose|i: int| #![trigger records[i]] 0 <= i < records.len() && records[i].pn == pn;
        let record = records[index];
        lemma_on_record(records, index);
        assert(before.packets@[index].pn == pn && before.packets@[index].state == record.state);
        assert(left[index] == if pns.contains(pn) {
            lost_record(record)
        } else {
            record
        });
        match record.state {
            SentPacketState::Flighting { retrans_at, .. } => {
                assert(pns.contains(pn) <==> retrans_at <= now);
            },
            _ => {
                assert(lost_record(record) == record);
            },
        }
        if expired(left[index].state, now) {
            if exists|k: int| #![trigger kept[k]] 0 <= k < kept.len() && kept[k].pn == pn {
                let k = choose|k: int| #![trigger kept[k]] 0 <= k < kept.len() && kept[k].pn == pn;
                lemma_unexpired(left, now, k);
                let j = choose|j: int| 0 <= j < left.len() && left[j] == kept[k];
                assert(left[j].pn == records[j].pn);
                lemma_on_record(records, j);
                lemma_same_number(records, j, index);
            }
        } else {
            lemma_unexpired_keeps(left, now, index);
            let k = choose|k: int| 0 <= k < kept.len() && kept[k] == left[index];
            lemma_on_record(kept, k);
            assert(left[index].pn == pn);
        }
        lemma_loss_share(records, pns, index);
    } else {
        if exists|k: int| #![trigger kept[k]] 0 <= k < kept.len() && kept[k].pn == pn {
            let k = choose|k: int| #![trigger kept[k]] 0 <= k < kept.len() && kept[k].pn == pn;
            lemma_unexpired(left, now, k);
            let j = choose|j: int| 0 <= j < left.len() && left[j] == kept[k];
            assert(records[j].pn == pn);
        }
        lemma_no_loss_share(records, pns, pn);
    }
}

proof fn lemma_loss_frames<T>(records: Seq<SentRecord<T>>, left: Seq<SentRecord<T>>, index: int)
    requires
        0 <= index < records.len(),
        left.len() == records.len(),
        left[index] == records[index],
        forall|i: int| #![trigger left[i]] 0 <= i < left.len() ==> left[i].pn == records[i].pn,
        by_number(records),
    ensures
        loss_frames(left, records[index].pn) == if records[index].state is Flighting {
            records[index].frames
        } else {
            Seq::empty()
        },
{
    let pn = records[index].pn;
    assert forall|i: int| #![trigger left[i]] 0 <= i < left.len() && left[i].pn == pn implies i == index by {
        lemma_same_number(records, i, index);
    }
}

/// Something that happens to a journal.
pub enum JournalEvent<T> {
    /// A packet is put on record, to be submitted.
    Recorded { generation: Option<u64>, frames: Seq<T> },
    Submitted { pn: u64, in_flight: bool, now: u64, retransmit_after: u64, retention: u64 },
    Abandoned { pn: u64 },
    Lost { pns: Seq<u64> },
    Ticked { now: u64 },
    Acked { ack: AckFrame },
}

/// Whether an event turns a journal into another and hands out frames.
pub open spec fn journal_step<T: Copy>(
    before: ArcSendJournal<T>,
    event: JournalEvent<T>,
    after: ArcSendJournal<T>,
    handed: Seq<T>,
) -> bool {
    &&& before.wf()
    &&& after.wf()
    &&& match event {
        JournalEvent::Recorded { generation, frames } => {
            &&& after.records() == before.records().push(
                SentRecord { pn: before.next_pn, generation, frames, state: SentPacketState::Pending },
            )
            &&& after.next_pn == before.next_pn + 1
            &&& handed == Seq::<T>::empty()
        },
        JournalEvent::Submitted { pn, in_flight, now, retransmit_after, retention } => {
            &&& before.awaits(pn)
            &&& before.submitted(&after, pn, in_flight, now, retransmit_after, retention)
            &&& handed == Seq::<T>::empty()
        },
        JournalEvent::Abandoned { pn } => before.abandoned(&after, pn, handed),
        JournalEvent::Lost { pns } => after.same_numbers(&before) && (after.records(), handed) == lose_all(
            before.records(),
            pns,
        ),
        JournalEvent::Ticked { now } => {
            &&& after.same_numbers(&before)
            &&& ticked(before, now, after)
            &&& handed == lose_all(before.records(), due(before.deadlines@, now)).1
        },
        JournalEvent::Acked { ack } => exists|generations: Seq<u64>| #[trigger]
            before.acknowledged(&after, &ack, generations, handed),
    }
}

/// The frames that an event hands out to be sent again for `pn`.
pub open spec fn reported<T: Copy>(before: ArcSendJournal<T>, event: JournalEvent<T>, pn: u64) -> Seq<T> {
    match event {
        JournalEvent::Lost { pns } => loss_share(before.records(), pns, pn),
        JournalEvent::Ticked { now } => tick_share(before, now, pn),
        _ => Seq::empty(),
    }
}

/// What an event leaves of a packet that is on record.
pub open spec fn after_event<T>(record: SentRecord<T>, event: JournalEvent<T>) -> Option<SentRecord<T>> {
    match event {
        JournalEvent::Recorded { .. } => Some(record),
        JournalEvent::Submitted { pn, in_flight, now, retransmit_after, retention } => if pn != record.pn {
            Some(record)
        } else if in_flight {
            Some(
                SentRecord {
                    state: SentPacketState::Flighting {
                        retrans_at: (now + retransmit_after) as u64,
                        expire_after: (now + retention) as u64,
                    },
                    ..record
                },
            )
        } else {
            None
        },
        JournalEvent::Abandoned { pn } => if pn == record.pn {
            None
        } else {
            Some(record)
        },
        JournalEvent::Lost { pns } => if pns.contains(record.pn) {
            Some(lost_record(record))
        } else {
            Some(record)
        },
        JournalEvent::Ticked { now } => after_tick(record, now),
        JournalEvent::Acked { ack } => if ack.acks(record.pn as int) {
            None
        } else {
            Some(record)
        },
    }
}

/// Whether an event reports the loss of a packet in flight that is to be sent again at `retrans_at`.
pub open spec fn reports<T>(event: JournalEvent<T>, pn: u64, retrans_at: u64) -> bool {
    match event {
        JournalEvent::Lost { pns } => pns.contains(pn),
        JournalEvent::Ticked { now } => retrans_at <= now,
        _ => false,
    }
}

/// An event changes what is on record of a packet only as it says, and hands out for its loss the frames
/// that it holds, if it is in flight, and nothing otherwise. A number that is on no record stays so,
/// until it is given out.
pub proof fn event_concerns_what_it_names<T: Copy>(
    before: ArcSendJournal<T>,
    event: JournalEvent<T>,
    after: ArcSendJournal<T>,
    handed: Seq<T>,
    pn: u64,
)
    requires
        journal_step(before, event, after, handed),
    ensures
        after.next_pn >= before.next_pn,
        pn < before.next_pn ==> on_record(after.records(), pn) == match on_record(before.records(), pn) {
            Some(record) => after_event(record, event),
            None => None,
        },
        reported(before, event, pn) == match on_record(before.records(), pn) {
            Some(record) => match record.state {
                SentPacketState::Flighting { retrans_at, .. } if reports(event, pn, retrans_at) => record.frames,
                _ => Seq::empty(),
            },
            None => Seq::empty(),
        },
{
    let records = before.records();
    let left = after.records();
    lemma_by_number(before);
    lemma_by_number(after);
    match event {
        JournalEvent::Recorded { .. } => {
            if pn < before.next_pn {
                let _ = lemma_kept(records, left, pn);
            }
        },
        JournalEvent::Submitted { pn: named, in_flight, .. } => {
            let index = before.index_of(named);
            assert(before.packets@[index].pn == named);
            if in_flight {
                let _ = lemma_kept(records, left, pn);
            } else {
                lemma_removed_record(records, index, pn);
            }
        },
        JournalEvent::Abandoned { pn: named } => {
            if before.has(named) {
                let index = before.index_of(named);
                assert(before.packets@[index].pn == named);
                lemma_removed_record(records, index, pn);
            } else {
                assert forall|i: int| #![trigger records[i]] 0 <= i < records.len() implies records[i].pn != named by {
                    assert(before.packets@[i].pn == records[i].pn);
                }
            }
        },
        JournalEvent::Lost { pns } => {
            lemma_lose_all(records, pns);
            let _ = lemma_kept(records, left, pn);
        },
        JournalEvent::Ticked { now } => {
            tick_concerns_what_is_due(before, now, after, pn);
        },
        JournalEvent::Acked { ack } => {
            lemma_unacked_record(records, &ack, pn);
        },
    }
    if exists|i: int| #![trigger records[i]] 0 <= i < records.len() && records[i].pn == pn {
        let index = choose|i: int| #![trigger records[i]] 0 <= i < records.len() && records[i].pn == pn;
        lemma_on_record(records, index);
        if let JournalEvent::Lost { pns } = event {
            lemma_loss_share(records, pns, index);
        }
    } else if let JournalEvent::Lost { pns } = event {
        lemma_no_loss_share(records, pns, pn);
    }
}

/// Where every record keeps its place and its number, and new ones come last, what is on record of an
/// old number is what stands in its place.
proof fn lemma_kept<T>(records: Seq<SentRecord<T>>, left: Seq<SentRecord<T>>, pn: u64) -> (index: int)
    requires
        by_number(records),
        by_number(left),
        records.len() <= left.len(),
        forall|i: int| #![trigger left[i]] 0 <= i < records.len() ==> left[i].pn == records[i].pn,
        forall|i: int| #![trigger left[i]] records.len() <= i < left.len() ==> left[i].pn != pn,
    ensures
        on_record(records, pn) is None ==> on_record(left, pn) is None,
        on_record(records, pn) is Some ==> 0 <= index < records.len() && records[index].pn == pn && on_record(
            records,
            pn,
        ) == Some(records[index]) && on_record(left, pn) == Some(left[index]),
{
    if exists|i: int| #![trigger records[i]] 0 <= i < records.len() && records[i].pn == pn {
        let index = choose|i: int| #![trigger records[i]] 0 <= i < records.len() && records[i].pn == pn;
        lemma_on_record(records, index);
        assert(left[index].pn == pn);
        lemma_on_record(left, index);
        index
    } else {
        if exists|i: int| #![trigger left[i]] 0 <= i < left.len() && left[i].pn == pn {
            let i = choose|i: int| #![trigger left[i]] 0 <= i < left.len() && left[i].pn == pn;
            assert(records[i].pn == pn);
        }
        0
    }
}

proof fn lemma_removed_record<T>(records: Seq<SentRecord<T>>, index: int, pn: u64)
    requires
        by_number(records),
        0 <= index < records.len(),
    ensures
        on_record(records.remove(index), pn) == if records[index].pn == pn {
            None
        } else {
            on_record(records, pn)
        },
{
    let left = records.remove(index);
    assert forall|i: int| #![trigger left[i]] 0 <= i < left.len() implies left[i] == records[if i < index {
        i
    } else {
        i + 1
    }] by {}
    assert(by_number(left)) by {
        assert forall|i: int, j: int| #![trigger left[i], left[j]] 0 <= i < j < left.len() implies left[i].pn
            < left[j].pn by {
            let a = if i < index { i } else { i + 1 };
            let b = if j < index { j } else { j + 1 };
            assert(records[a].pn < records[b].pn);
        }
    }
    if exists|i: int| #![trigger left[i]] 0 <= i < left.len() && left[i].pn == pn {
        let i = choose|i: int| #![trigger left[i]] 0 <= i < left.len() && left[i].pn == pn;
        let j = if i < index { i } else { i + 1 };
        lemma_on_record(left, i);
        lemma_on_record(records, j);
        if records[index].pn == pn {
            lemma_same_number(records, index, j);
        }
    } else if records[index].pn != pn && exists|j: int|
        #![trigger records[j]]
        0 <= j < records.len() && records[j].pn == pn {
        let j = choose|j: int| #![trigger records[j]] 0 <= j < records.len() && records[j].pn == pn;
        let i = if j < index { j } else { j - 1 };
        assert(left[i].pn == pn);
    }
}

proof fn lemma_unacked<T>(records: Seq<SentRecord<T>>, ack: &AckFrame, i: int)
    requires
        0 <= i < unacked(records, ack).len(),
    ensures
        records.contains(unacked(records, ack)[i]),
        !ack.acks(unacked(records, ack)[i].pn as int),
    decreases records.len(),
{
    let left = unacked(records.drop_last(), ack);
    if i < left.len() {
        lemma_unacked(records.drop_last(), ack, i);
        let k = choose|k: int| 0 <= k < records.drop_last().len() && records.drop_last()[k] == left[i];
        assert(records[k] == left[i]);
    } else {
        assert(records[records.len() - 1] == records.last());
    }
}

proof fn lemma_unacked_keeps<T>(records: Seq<SentRecord<T>>, ack: &AckFrame, i: int)
    requires
        0 <= i < records.len(),
        !ack.acks(records[i].pn as int),
    ensures
        unacked(records, ack).contains(records[i]),
    decreases records.len(),
{
    let rest = unacked(records.drop_last(), ack);
    if i == records.len() - 1 {
        assert(unacked(records, ack)[rest.len() as int] == records[i]);
    } else {
        assert(records.drop_last()[i] == records[i]);
        lemma_unacked_keeps(records.drop_last(), ack, i);
        let k = choose|k: int| 0 <= k < rest.len() && rest[k] == records[i];
        assert(unacked(records, ack)[k] == records[i]);
    }
}

proof fn lemma_unacked_record<T>(records: Seq<SentRecord<T>>, ack: &AckFrame, pn: u64)
    requires
        by_number(records),
        by_number(unacked(records, ack)),
    ensures
        on_record(unacked(records, ack), pn) == if ack.acks(pn as int) {
            None
        } else {
            on_record(records, pn)
        },
{
    let left = unacked(records, ack);
    if exists|i: int| #![trigger left[i]] 0 <= i < left.len() && left[i].pn == pn {
        let i = choose|i: int| #![trigger left[i]] 0 <= i < left.len() && left[i].pn == pn;
        lemma_unacked(records, ack, i);
        let j = choose|j: int| 0 <= j < records.len() && records[j] == left[i];
        lemma_on_record(left, i);
        lemma_on_record(records, j);
    } else if !ack.acks(pn as int) && exists|j: int|
        #![trigger records[j]]
        0 <= j < records.len() && records[j].pn == pn {
        let j = choose|j: int| #![trigger records[j]] 0 <= j < records.len() && records[j].pn == pn;
        lemma_unacked_keeps(records, ack, j);
        let i = choose|i: int| 0 <= i < left.len() && left[i] == records[j];
        assert(left[i].pn == pn);
    }
}

/// Whether events happened to a journal one after the other, and what each handed out.
pub open spec fn journal_history<T: Copy>(
    trace: Seq<ArcSendJournal<T>>,
    events: Seq<JournalEvent<T>>,
    handed: Seq<Seq<T>>,
) -> bool {
    &&& trace.len() == events.len() + 1
    &&& handed.len() == events.len()
    &&& forall|i: int|
        #![trigger events[i]]
        0 <= i < events.len() ==> journal_step(trace[i], events[i], trace[i + 1], handed[i])
}

/// Whether an event settles a packet for good, other than by its loss.
pub open spec fn settles<T>(event: JournalEvent<T>, pn: u64) -> bool {
    match event {
        JournalEvent::Abandoned { pn: abandoned } => abandoned == pn,
        JournalEvent::Acked { ack } => ack.acks(pn as int),
        _ => false,
    }
}

/// Whether the loss of a packet in flight was reported by one of the first `count` events.
pub open spec fn reported_by<T>(events: Seq<JournalEvent<T>>, pn: u64, retrans_at: u64, count: int) -> bool {
    exists|i: int| #![trigger events[i]] 0 <= i < count && reports(events[i], pn, retrans_at)
}

/// Whether its retention then ended within the first `count` events.
pub open spec fn retired_by<T>(
    events: Seq<JournalEvent<T>>,
    pn: u64,
    retrans_at: u64,
    expire_after: u64,
    count: int,
) -> bool {
    exists|i: int|
        #![trigger events[i]]
        0 <= i < count && (events[i] matches JournalEvent::Ticked { now } && expire_after <= now) && reported_by(
            events,
            pn,
            retrans_at,
            i + 1,
        )
}

/// What is left of a packet in flight after the first `count` events.
pub open spec fn left_in_flight<T>(record: SentRecord<T>, events: Seq<JournalEvent<T>>, count: int) -> Option<
    SentRecord<T>,
> {
    let retrans_at = record.state->retrans_at;
    if !reported_by(events, record.pn, retrans_at, count) {
        Some(record)
    } else if !retired_by(events, record.pn, retrans_at, record.state->Flighting_expire_after, count) {
        Some(lost_record(record))
    } else {
        None
    }
}

proof fn lemma_left_in_flight<T: Copy>(
    trace: Seq<ArcSendJournal<T>>,
    events: Seq<JournalEvent<T>>,
    handed: Seq<Seq<T>>,
    pn: u64,
    count: int,
)
    requires
        journal_history(trace, events, handed),
        0 <= count <= events.len(),
        pn < trace[0].next_pn,
        on_record(trace[0].records(), pn) matches Some(record) && record.pn == pn && record.state is Flighting,
        forall|i: int| #![trigger events[i]] 0 <= i < events.len() ==> !settles(events[i], pn),
    ensures
        pn < trace[count].next_pn,
        on_record(trace[count].records(), pn) == left_in_flight(
            on_record(trace[0].records(), pn)->0,
            events,
            count,
        ),
    decreases count,
{
    let record = on_record(trace[0].records(), pn)->0;
    let retrans_at = record.state->retrans_at;
    let expire_after = record.state->Flighting_expire_after;
    if count > 0 {
        let last = count - 1;
        lemma_left_in_flight(trace, events, handed, pn, last);
        let event = events[last];
        assert(!settles(event, pn));
        assert(journal_step(trace[last], event, trace[last + 1], handed[last]));
        event_concerns_what_it_names(trace[last], event, trace[count], handed[last], pn);
        lemma_awaits_pending(trace[last], pn);
        let reported_before = reported_by(events, pn, retrans_at, last);
        let retired_before = retired_by(events, pn, retrans_at, expire_after, last);
        assert(reported_by(events, pn, retrans_at, count) <==> reported_before || reports(event, pn, retrans_at)) by {
            if reported_before {
                let i = choose|i: int| #![trigger events[i]] 0 <= i < last && reports(events[i], pn, retrans_at);
                assert(0 <= i < count && reports(events[i], pn, retrans_at));
            }
        }
        assert(retired_by(events, pn, retrans_at, expire_after, count) <==> retired_before || ((
        event matches JournalEvent::Ticked { now } && expire_after <= now) && reported_by(
            events,
            pn,
            retrans_at,
            count,
        ))) by {
            if retired_before {
                let i = choose|i: int|
                    #![trigger events[i]]
                    0 <= i < last && (events[i] matches JournalEvent::Ticked { now } && expire_after <= now)
                        && reported_by(events, pn, retrans_at, i + 1);
                assert(0 <= i < count && reported_by(events, pn, retrans_at, i + 1));
            }
        }
        if retired_before && !reported_before {
            let i = choose|i: int|
                #![trigger events[i]]
                0 <= i < last && (events[i] matches JournalEvent::Ticked { now } && expire_after <= now)
                    && reported_by(events, pn, retrans_at, i + 1);
            let k = choose|k: int| #![trigger events[k]] 0 <= k < i + 1 && reports(events[k], pn, retrans_at);
            assert(0 <= k < last && reports(events[k], pn, retrans_at));
        }
    }
}

proof fn lemma_awaits_pending<T: Copy>(journal: ArcSendJournal<T>, pn: u64)
    requires
        journal.wf(),
    ensures
        journal.awaits(pn) ==> (on_record(journal.records(), pn) matches Some(record) && record.state is Pending),
        on_record(journal.records(), pn) matches Some(record) ==> record.pn == pn && pn < journal.next_pn,
{
    let records = journal.records();
    lemma_by_number(journal);
    if journal.awaits(pn) {
        let index = journal.index_of(pn);
        assert(journal.packets@[index].pn == pn);
        assert(records[index].pn == pn);
        lemma_on_record(records, index);
    }
    if exists|i: int| #![trigger records[i]] 0 <= i < records.len() && records[i].pn == pn {
        let index = choose|i: int| #![trigger records[i]] 0 <= i < records.len() && records[i].pn == pn;
        lemma_on_record(records, index);
        assert(journal.packets@[index].pn < journal.next_pn);
    }
}

/// Whatever else happens, as long as a packet in flight is neither acknowledged nor abandoned, its frames
/// are handed out to be sent again once in all: by the first event that reports its loss, a tick at or
/// after its time or a notice that names it. It stays on record with its frames until a tick after that
/// ends its retention; from then on it is gone.
pub proof fn lost_packet_is_reported_once_and_then_retired<T: Copy>(
    trace: Seq<ArcSendJournal<T>>,
    events: Seq<JournalEvent<T>>,
    handed: Seq<Seq<T>>,
    pn: u64,
    count: int,
)
    requires
        journal_history(trace, events, handed),
        0 <= count <= events.len(),
        trace[0].wf(),
        on_record(trace[0].records(), pn) matches Some(record) && record.state is Flighting,
        forall|i: int| #![trigger events[i]] 0 <= i < events.len() ==> !settles(events[i], pn),
    ensures
        ({
            let record = on_record(trace[0].records(), pn)->0;
            let retrans_at = record.state->retrans_at;
            let expire_after = record.state->Flighting_expire_after;
            &&& forall|i: int|
                #![trigger events[i]]
                0 <= i < events.len() ==> reported(trace[i], events[i], pn) == if reports(events[i], pn, retrans_at)
                    && !reported_by(events, pn, retrans_at, i) {
                    record.frames
                } else {
                    Seq::empty()
                }
            &&& match on_record(trace[count].records(), pn) {
                Some(left) => left.frames == record.frames && left.generation == record.generation && !retired_by(
                    events,
                    pn,
                    retrans_at,
                    expire_after,
                    count,
                ),
                None => retired_by(events, pn, retrans_at, expire_after, count),
            }
        }),
{
    let record = on_record(trace[0].records(), pn)->0;
    let retrans_at = record.state->retrans_at;
    let expire_after = record.state->Flighting_expire_after;
    lemma_awaits_pending(trace[0], pn);
    lemma_left_in_flight(trace, events, handed, pn, count);
    if retired_by(events, pn, retrans_at, expire_after, count) {
        let i = choose|i: int|
            #![trigger events[i]]
            0 <= i < count && (events[i] matches JournalEvent::Ticked { now } && expire_after <= now) && reported_by(
                events,
                pn,
                retrans_at,
                i + 1,
            );
        let k = choose|k: int| #![trigger events[k]] 0 <= k < i + 1 && reports(events[k], pn, retrans_at);
        assert(0 <= k < count && reports(events[k], pn, retrans_at));
    }
    assert forall|i: int| #![trigger events[i]] 0 <= i < events.len() implies reported(trace[i], events[i], pn) == if reports(
        events[i],
        pn,
        retrans_at,
    ) && !reported_by(events, pn, retrans_at, i) {
        record.frames
    } else {
        Seq::empty()
    } by {
        lemma_left_in_flight(trace, events, handed, pn, i);
        assert(journal_step(trace[i], events[i], trace[i + 1], handed[i]));
        event_concerns_what_it_names(trace[i], events[i], trace[i + 1], handed[i], pn);
    }
}

/// Whatever else happens, a packet that is neither submitted nor abandoned is not reported and stays as
/// it is; an acknowledgement that names it is refused.
pub proof fn pending_packet_is_not_reported<T: Copy>(
    trace: Seq<ArcSendJournal<T>>,
    events: Seq<JournalEvent<T>>,
    handed: Seq<Seq<T>>,
    pn: u64,
    count: int,
)
    requires
        journal_history(trace, events, handed),
        0 <= count <= events.len(),
        trace[0].wf(),
        on_record(trace[0].records(), pn) matches Some(record) && record.state is Pending,
        forall|i: int|
            #![trigger events[i]]
            0 <= i < events.len() ==> !(events[i] matches JournalEvent::Abandoned { pn: named } && named == pn) && !(
            events[i] matches JournalEvent::Submitted { pn: named, .. } && named == pn),
    ensures
        on_record(trace[count].records(), pn) == on_record(trace[0].records(), pn),
        count < events.len() ==> reported(trace[count], events[count], pn) == Seq::<T>::empty() && !settles(
            events[count],
            pn,
        ),
    decreases count,
{
    lemma_awaits_pending(trace[0], pn);
    if count > 0 {
        let last = count - 1;
        pending_packet_is_not_reported(trace, events, handed, pn, last);
        assert(journal_step(trace[last], events[last], trace[last + 1], handed[last]));
        lemma_awaits_pending(trace[last], pn);
        event_concerns_what_it_names(trace[last], events[last], trace[count], handed[last], pn);
    }
    if count < events.len() {
        assert(journal_step(trace[count], events[count], trace[count + 1], handed[count]));
        lemma_awaits_pending(trace[count], pn);
        event_concerns_what_it_names(trace[count], events[count], trace[count + 1], handed[count], pn);
        if let JournalEvent::Acked { ack } = events[count] {
            if ack.acks(pn as int) {
                lemma_pending_refused(trace[count], &ack, pn);
            }
        }
    }
}

proof fn lemma_pending_refused<T: Copy>(journal: ArcSendJournal<T>, ack: &AckFrame, pn: u64)
    requires
        journal.wf(),
        on_record(journal.records(), pn) matches Some(record) && record.state is Pending,
        ack.acks(pn as int),
    ensures
        journal.acks_unsent(ack),
{
    let records = journal.records();
    let index = choose|i: int| #![trigger records[i]] 0 <= i < records.len() && records[i].pn == pn;
    lemma_by_number(journal);
    lemma_on_record(records, index);
    assert(journal.packets@[index].pn == pn && journal.packets@[index].state is Pending);
}

/// Whatever happens, a number that was given out and is on no record any more stays so, and nothing is
/// handed out for it.
pub proof fn settled_number_stays_settled<T: Copy>(
    trace: Seq<ArcSendJournal<T>>,
    events: Seq<JournalEvent<T>>,
    handed: Seq<Seq<T>>,
    pn: u64,
    count: int,
)
    requires
        journal_history(trace, events, handed),
        0 <= count <= events.len(),
        pn < trace[0].next_pn,
        on_record(trace[0].records(), pn) is None,
    ensures
        pn < trace[count].next_pn,
        on_record(trace[count].records(), pn) is None,
        count < events.len() ==> reported(trace[count], events[count], pn) == Seq::<T>::empty(),
    decreases count,
{
    if count > 0 {
        let last = count - 1;
        settled_number_stays_settled(trace, events, handed, pn, last);
        assert(journal_step(trace[last], events[last], trace[last + 1], handed[last]));
        event_concerns_what_it_names(trace[last], events[last], trace[count], handed[last], pn);
    }
    if count < events.len() {
        assert(journal_step(trace[count], events[count], trace[count + 1], handed[count]));
        event_concerns_what_it_names(trace[count], events[count], trace[count + 1], handed[count], pn);
    }
}

/// An acknowledgement of one packet alone delivers the frames it has on record, and nothing where it has
/// none there.
pub proof fn acknowledgement_delivers_what_is_on_record<T: Copy>(
    journal: ArcSendJournal<T>,
    ack: &AckFrame,
    pn: u64,
)
    requires
        journal.wf(),
        forall|other: int| #![trigger ack.acks(other)] ack.acks(other) <==> other == pn,
    ensures
        acked_frames(journal.records(), ack) == match on_record(journal.records(), pn) {
            Some(record) => record.frames,
            None => Seq::empty(),
        },
{
    lemma_by_number(journal);
    lemma_sole_ack(journal.records(), ack, pn);
}

proof fn lemma_sole_ack<T>(records: Seq<SentRecord<T>>, ack: &AckFrame, pn: u64)
    requires
        forall|other: int| #![trigger ack.acks(other)] ack.acks(other) <==> other == pn,
        by_number(records),
    ensures
        acked_frames(records, ack) == match on_record(records, pn) {
            Some(record) => record.frames,
            None => Seq::empty(),
        },
    decreases records.len(),
{
    if records.len() > 0 {
        let rest = records.drop_last();
        let last = records.len() - 1;
        lemma_sole_ack(rest, ack, pn);
        if records[last].pn == pn {
            lemma_on_record(records, last);
            assert forall|i: int| #![trigger rest[i]] 0 <= i < rest.len() implies rest[i].pn != pn by {
                assert(records[i].pn < records[last].pn);
            }
            assert(acked_frames(records, ack) =~= records[last].frames);
        } else if exists|i: int| #![trigger rest[i]] 0 <= i < rest.len() && rest[i].pn == pn {
            let i = choose|i: int| #![trigger rest[i]] 0 <= i < rest.len() && rest[i].pn == pn;
            assert(records[i] == rest[i]);
            lemma_on_record(records, i);
            lemma_on_record(rest, i);
        } else {
            assert forall|i: int| #![trigger records[i]] 0 <= i < records.len() implies records[i].pn != pn by {
                if i < last {
                    assert(rest[i] == records[i]);
                }
            }
        }
    }
}

} // verus!
