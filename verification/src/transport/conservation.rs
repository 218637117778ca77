//! No frame goes missing: what a journal hands out, and what it keeps.
use vstd::prelude::*;
use vstd::seq_lib::lemma_multiset_commutative;

use crate::base::ack::AckFrame;
use crate::base::error::QuicError;
use crate::transport::history::{by_number, lemma_by_number, ticked};
use crate::transport::records::{
    acked_frames, acked_generations, due, lemma_lose_all, lose_all, lost_record, unacked, unexpired,
    ArcSendJournal, SentPacketState, SentRecord,
};

verus! {

proof fn lemma_flatten_push<T>(pieces: Seq<Seq<T>>, piece: Seq<T>)
    ensures
        pieces.push(piece).flatten() == pieces.flatten() + piece,
{
    pieces.lemma_flatten_push(piece);
}

proof fn lemma_acknowledged<T>(records: Seq<SentRecord<T>>, ack: &AckFrame)
    ensures
        unacked(records, ack) == records.filter(|record: SentRecord<T>| !ack.acks(record.pn as int)),
        acked_frames(records, ack) == records.filter(
            |record: SentRecord<T>| ack.acks(record.pn as int),
        ).map_values(|record: SentRecord<T>| record.frames).flatten(),
        acked_generations(records, ack) == records.filter(
            |record: SentRecord<T>| ack.acks(record.pn as int) && record.generation is Some,
        ).map_values(|record: SentRecord<T>| record.generation->Some_0),
    decreases records.len(),
{
    reveal(Seq::filter);
    let named = |record: SentRecord<T>| ack.acks(record.pn as int);
    let other = |record: SentRecord<T>| !ack.acks(record.pn as int);
    let protected = |record: SentRecord<T>| ack.acks(record.pn as int) && record.generation is Some;
    let frames = |record: SentRecord<T>| record.frames;
    let generation = |record: SentRecord<T>| record.generation->Some_0;
    if records.len() == 0 {
        assert(records.filter(named).map_values(frames) =~= Seq::empty());
        assert(records.filter(protected).map_values(generation) =~= Seq::empty());
    } else {
        let rest = records.drop_last();
        let last = records.last();
        lemma_acknowledged(rest, ack);
        if named(last) {
            assert(records.filter(named).map_values(frames) =~= rest.filter(named).map_values(frames).push(last.frames));
            lemma_flatten_push(rest.filter(named).map_values(frames), last.frames);
        }
        if protected(last) {
            assert(records.filter(protected).map_values(generation) =~= rest.filter(protected).map_values(
                generation,
            ).push(last.generation->Some_0));
        }
    }
}

/// The frames of records are those of the records that satisfy something, and those of the others.
proof fn lemma_parted<T>(records: Seq<SentRecord<T>>, kept: spec_fn(SentRecord<T>) -> bool)
    ensures
        records.map_values(|record: SentRecord<T>| record.frames).flatten().to_multiset() == records.filter(
            kept,
        ).map_values(|record: SentRecord<T>| record.frames).flatten().to_multiset().add(
            records.filter(|record: SentRecord<T>| !kept(record)).map_values(
                |record: SentRecord<T>| record.frames,
            ).flatten().to_multiset(),
        ),
    decreases records.len(),
{
    broadcast use vstd::multiset::group_multiset_axioms;

    reveal(Seq::filter);
    let frames = |record: SentRecord<T>| record.frames;
    let gone = |record: SentRecord<T>| !kept(record);
    if records.len() == 0 {
        assert(records.filter(kept).map_values(frames) =~= Seq::empty());
        assert(records.filter(gone).map_values(frames) =~= Seq::empty());
        assert(records.map_values(frames) =~= Seq::empty());
        lemma_multiset_commutative(Seq::<T>::empty(), Seq::<T>::empty());
        assert(Seq::<T>::empty() + Seq::<T>::empty() =~= Seq::<T>::empty());
    } else {
        let rest = records.drop_last();
        let last = records.last();
        lemma_parted(rest, kept);
        assert(records.map_values(frames) =~= rest.map_values(frames).push(last.frames));
        lemma_flatten_push(rest.map_values(frames), last.frames);
        lemma_multiset_commutative(rest.map_values(frames).flatten(), last.frames);
        if kept(last) {
            assert(records.filter(kept).map_values(frames) =~= rest.filter(kept).map_values(frames).push(last.frames));
            lemma_flatten_push(rest.filter(kept).map_values(frames), last.frames);
            lemma_multiset_commutative(rest.filter(kept).map_values(frames).flatten(), last.frames);
        } else {
            assert(records.filter(gone).map_values(frames) =~= rest.filter(gone).map_values(frames).push(last.frames));
            lemma_flatten_push(rest.filter(gone).map_values(frames), last.frames);
            lemma_multiset_commutative(rest.filter(gone).map_values(frames).flatten(), last.frames);
        }
    }
}

/// An acknowledgement that is taken hands the owners every frame of every packet that it names, packet after
/// packet by ascending number, and the key generations of these packets. The packets that it does not name
/// stay on record. No frame that was on record goes missing. The largest number that was acknowledged so far
/// is kept.
pub proof fn acknowledgement_hands_out_every_frame<T: Copy>(
    before: ArcSendJournal<T>,
    ack: &AckFrame,
    after: ArcSendJournal<T>,
    generations: Seq<u64>,
    frames: Seq<T>,
)
    requires
        before.acknowledged(&after, ack, generations, frames),
    ensures
        frames == before.records().filter(|record: SentRecord<T>| ack.acks(record.pn as int)).map_values(
            |record: SentRecord<T>| record.frames,
        ).flatten(),
        generations == before.records().filter(
            |record: SentRecord<T>| ack.acks(record.pn as int) && record.generation is Some,
        ).map_values(|record: SentRecord<T>| record.generation->Some_0),
        after.records() == before.records().filter(|record: SentRecord<T>| !ack.acks(record.pn as int)),
        before.records().map_values(|record: SentRecord<T>| record.frames).flatten().to_multiset()
            == frames.to_multiset().add(
            after.records().map_values(|record: SentRecord<T>| record.frames).flatten().to_multiset(),
        ),
        forall|i: int, k: int|
            #![trigger before.records()[i].frames[k]]
            0 <= i < before.records().len() && ack.acks(before.records()[i].pn as int) && 0 <= k
                < before.records()[i].frames.len() ==> frames.contains(before.records()[i].frames[k]),
        after.largest_acked >= before.largest_acked && after.largest_acked >= ack.largest.value,
        after.largest_acked == before.largest_acked || after.largest_acked == ack.largest.value,
        after.next_pn == before.next_pn && after.skipped_pns@ == before.skipped_pns@,
{
    let records = before.records();
    let named = |record: SentRecord<T>| ack.acks(record.pn as int);
    let other = |record: SentRecord<T>| !ack.acks(record.pn as int);
    lemma_acknowledged(records, ack);
    lemma_parted(records, named);
    assert(records.filter(|record: SentRecord<T>| !named(record)) == records.filter(other)) by {
        lemma_same_filter(records, |record: SentRecord<T>| !named(record), other);
    }
    assert forall|i: int, k: int|
        #![trigger records[i].frames[k]]
        0 <= i < records.len() && ack.acks(records[i].pn as int) && 0 <= k < records[i].frames.len() implies frames.contains(
        records[i].frames[k],
    ) by {
        lemma_handed_out(records, ack, i, k);
    }
}

proof fn lemma_same_filter<A>(items: Seq<A>, left: spec_fn(A) -> bool, right: spec_fn(A) -> bool)
    requires
        forall|item: A| #[trigger] left(item) == right(item),
    ensures
        items.filter(left) == items.filter(right),
    decreases items.len(),
{
    reveal(Seq::filter);
    if items.len() > 0 {
        lemma_same_filter(items.drop_last(), left, right);
    }
}

proof fn lemma_handed_out<T>(records: Seq<SentRecord<T>>, ack: &AckFrame, i: int, k: int)
    requires
        0 <= i < records.len(),
        ack.acks(records[i].pn as int),
        0 <= k < records[i].frames.len(),
    ensures
        acked_frames(records, ack).contains(records[i].frames[k]),
    decreases records.len(),
{
    let rest = records.drop_last();
    let earlier = acked_frames(rest, ack);
    let all = acked_frames(records, ack);
    if i == records.len() - 1 {
        assert(all[earlier.len() + k] == records[i].frames[k]);
    } else {
        assert(rest[i] == records[i]);
        lemma_handed_out(rest, ack, i, k);
        let at = choose|at: int| 0 <= at < earlier.len() && earlier[at] == records[i].frames[k];
        assert(all[at] == records[i].frames[k]);
    }
}

/// An acknowledgement is refused exactly if a range of it would reach below zero, or it names a number that is
/// still to be given out, a packet that waits to be sent, or a number that is known to have been skipped.
pub proof fn acknowledgement_of_the_unsent_is_refused<T: Copy>(journal: ArcSendJournal<T>, ack: &AckFrame, error: QuicError)
    requires
        journal.wf(),
    ensures
        journal.refuses(ack, error) ==> !ack.ranges_fit() || ack.largest.value >= journal.next_pn || exists|pn: u64|
            #[trigger] ack.acks(pn as int) && (journal.skipped_pns@.contains(pn) || exists|i: int|
                #![trigger journal.packets@[i]]
                0 <= i < journal.packets@.len() && journal.packets@[i].pn == pn && journal.packets@[i].state is Pending),
        forall|after: ArcSendJournal<T>, generations: Seq<u64>, frames: Seq<T>, pn: u64|
            #[trigger] journal.acknowledged(&after, ack, generations, frames) && #[trigger] ack.acks(pn as int)
                ==> !journal.skipped_pns@.contains(pn) && ack.largest.value < journal.next_pn && forall|i: int|
                #![trigger journal.packets@[i]]
                0 <= i < journal.packets@.len() && journal.packets@[i].pn == pn ==> !(journal.packets@[i].state
                    is Pending),
{
    if journal.refuses(ack, error) && ack.ranges_fit() && ack.largest.value < journal.next_pn {
        if exists|i: int|
            #![trigger journal.skipped_pns@[i]]
            0 <= i < journal.skipped_pns@.len() && ack.acks(journal.skipped_pns@[i] as int) {
            let i = choose|i: int|
                #![trigger journal.skipped_pns@[i]]
                0 <= i < journal.skipped_pns@.len() && ack.acks(journal.skipped_pns@[i] as int);
            assert(journal.skipped_pns@.contains(journal.skipped_pns@[i]));
        } else {
            let i = choose|i: int|
                #![trigger journal.packets@[i]]
                0 <= i < journal.packets@.len() && journal.packets@[i].state is Pending && ack.acks(
                    journal.packets@[i].pn as int,
                );
            assert(ack.acks(journal.packets@[i].pn as int));
        }
    }
}

/// A packet that is given up hands back all its frames, in order, and is off the record; the others stay as
/// they are. A number that is on no record hands back nothing.
pub proof fn abandoned_packet_hands_back_its_frames<T: Copy>(
    before: ArcSendJournal<T>,
    pn: u64,
    after: ArcSendJournal<T>,
    frames: Seq<T>,
)
    requires
        before.wf(),
        before.abandoned(&after, pn, frames),
    ensures
        frames == before.records().filter(|record: SentRecord<T>| record.pn == pn).map_values(
            |record: SentRecord<T>| record.frames,
        ).flatten(),
        after.records() == before.records().filter(|record: SentRecord<T>| record.pn != pn),
        before.records().map_values(|record: SentRecord<T>| record.frames).flatten().to_multiset()
            == frames.to_multiset().add(
            after.records().map_values(|record: SentRecord<T>| record.frames).flatten().to_multiset(),
        ),
        after.next_pn == before.next_pn,
{
    let records = before.records();
    let named = |record: SentRecord<T>| record.pn == pn;
    let other = |record: SentRecord<T>| record.pn != pn;
    let frames_in = |record: SentRecord<T>| record.frames;
    lemma_by_number(before);
    lemma_parted(records, named);
    lemma_same_filter(records, |record: SentRecord<T>| !named(record), other);
    if before.has(pn) {
        let index = before.index_of(pn);
        assert(records[index].pn == pn);
        lemma_sole(records, index);
        assert(seq![records[index]].map_values(frames_in) =~= seq![records[index].frames]);
        seq![records[index].frames].lemma_flatten_one_element();
    } else {
        assert forall|i: int| #![trigger records[i]] 0 <= i < records.len() implies records[i].pn != pn by {
            assert(before.packets@[i].pn == records[i].pn);
        }
        lemma_none(records, named);
        lemma_all(records, other);
        assert(Seq::<SentRecord<T>>::empty().map_values(frames_in) =~= Seq::empty());
    }
}

proof fn lemma_none<A>(items: Seq<A>, named: spec_fn(A) -> bool)
    requires
        forall|i: int| #![trigger items[i]] 0 <= i < items.len() ==> !named(items[i]),
    ensures
        items.filter(named) == Seq::<A>::empty(),
    decreases items.len(),
{
    reveal(Seq::filter);
    if items.len() > 0 {
        assert forall|i: int| #![trigger items.drop_last()[i]] 0 <= i < items.len() - 1 implies !named(
            items.drop_last()[i],
        ) by {
            assert(items.drop_last()[i] == items[i]);
        }
        lemma_none(items.drop_last(), named);
    } else {
        assert(items =~= Seq::empty());
    }
}

proof fn lemma_all<A>(items: Seq<A>, named: spec_fn(A) -> bool)
    requires
        forall|i: int| #![trigger items[i]] 0 <= i < items.len() ==> named(items[i]),
    ensures
        items.filter(named) == items,
    decreases items.len(),
{
    reveal(Seq::filter);
    if items.len() > 0 {
        let rest = items.drop_last();
        assert forall|i: int| #![trigger rest[i]] 0 <= i < rest.len() implies named(rest[i]) by {
            assert(rest[i] == items[i]);
        }
        lemma_all(rest, named);
        assert(rest.push(items.last()) =~= items);
    }
}

proof fn lemma_sole<T>(records: Seq<SentRecord<T>>, index: int)
    requires
        by_number(records),
        0 <= index < records.len(),
    ensures
        records.filter(|record: SentRecord<T>| record.pn == records[index].pn) == seq![records[index]],
        records.filter(|record: SentRecord<T>| record.pn != records[index].pn) == records.remove(index),
    decreases records.len(),
{
    reveal(Seq::filter);
    let pn = records[index].pn;
    let named = |record: SentRecord<T>| record.pn == pn;
    let other = |record: SentRecord<T>| record.pn != pn;
    lemma_same_filter(records, named, |record: SentRecord<T>| record.pn == records[index].pn);
    lemma_same_filter(records, other, |record: SentRecord<T>| record.pn != records[index].pn);
    let rest = records.drop_last();
    assert(by_number(rest)) by {
        assert forall|i: int, j: int| #![trigger rest[i], rest[j]] 0 <= i < j < rest.len() implies rest[i].pn
            < rest[j].pn by {
            assert(records[i].pn < records[j].pn);
        }
    }
    if index == records.len() - 1 {
        assert forall|i: int| #![trigger rest[i]] 0 <= i < rest.len() implies rest[i].pn != pn by {
            assert(records[i].pn < records[index].pn);
        }
        lemma_none(rest, named);
        lemma_all(rest, other);
        assert(Seq::<SentRecord<T>>::empty().push(records[index]) =~= seq![records[index]]);
        assert(records.remove(index) =~= rest);
    } else {
        assert(rest[index] == records[index]);
        lemma_sole(rest, index);
        lemma_same_filter(rest, named, |record: SentRecord<T>| record.pn == rest[index].pn);
        lemma_same_filter(rest, other, |record: SentRecord<T>| record.pn != rest[index].pn);
        assert(records[index].pn < records[records.len() - 1].pn);
        assert(records.remove(index) =~= rest.remove(index).push(records.last()));
    }
}

/// A report of losses keeps every packet with its frames on record, for a late acknowledgement. Exactly the
/// packets in flight that it names are then no longer in flight, and keep the time at which they are
/// forgotten.
pub proof fn lost_packets_stay_on_record<T>(records: Seq<SentRecord<T>>, pns: Seq<u64>, i: int)
    requires
        0 <= i < records.len(),
    ensures
        ({
            let left = lose_all(records, pns).0;
            &&& left.len() == records.len()
            &&& left[i].pn == records[i].pn
            &&& left[i].frames == records[i].frames
            &&& left[i].generation == records[i].generation
            &&& left[i].state is Flighting <==> records[i].state is Flighting && !pns.contains(records[i].pn)
            &&& !(records[i].state is Flighting && pns.contains(records[i].pn)) ==> left[i].state == records[i].state
            &&& match (records[i].state, left[i].state) {
                (
                    SentPacketState::Flighting { expire_after, .. },
                    SentPacketState::Retransmitted { expire_after: kept },
                ) => kept == expire_after,
                (SentPacketState::Flighting { .. }, SentPacketState::Pending) => false,
                _ => true,
            }
        }),
{
    lemma_lose_all(records, pns);
    assert(lose_all(records, pns).0[i] == if pns.contains(records[i].pn) {
        lost_record(records[i])
    } else {
        records[i]
    });
}

/// A tick forgets a packet exactly if it was reported lost and its retention has ended: all others stay on
/// record, with their frames.
pub proof fn tick_forgets_only_what_has_expired<T: Copy>(before: ArcSendJournal<T>, now: u64, after: ArcSendJournal<T>)
    requires
        ticked(before, now, after),
    ensures
        after.records() == lose_all(before.records(), due(before.deadlines@, now)).0.filter(
            |record: SentRecord<T>|
                match record.state {
                    SentPacketState::Retransmitted { expire_after } => now < expire_after,
                    _ => true,
                },
        ),
{
    lemma_unexpired_filter(lose_all(before.records(), due(before.deadlines@, now)).0, now);
}

proof fn lemma_unexpired_filter<T>(records: Seq<SentRecord<T>>, now: u64)
    ensures
        unexpired(records, now) == records.filter(
            |record: SentRecord<T>|
                match record.state {
                    SentPacketState::Retransmitted { expire_after } => now < expire_after,
                    _ => true,
                },
        ),
    decreases records.len(),
{
    reveal(Seq::filter);
    if records.len() > 0 {
        lemma_unexpired_filter(records.drop_last(), now);
    }
}

} // verus!
