//! Packet numbers and recovery descriptors of one packet-number space. A number is never handed
//! out twice.
use vstd::prelude::*;

use crate::base::ack::{is_within, listed_bounds_acknowledge, within, AckFrame};
use crate::base::error::{ErrorKind, PacketError, QuicError};
use crate::base::ordered::{add_ascending, add_timed, ascending, ascending_with, drop_timed, timed};
use crate::base::packet_number::PacketNumber;
use crate::base::signals::Signals;
use crate::base::varint::VARINT_MAX;

verus! {

pub const MAX_RECORDS: usize = 8192;

pub const MAX_SKIPPED_PNS: usize = 256;

/// Counts the empty slots that stand behind an earlier packet still on record.
pub const MAX_FRAMES: usize = 32768;

/// A packet is pending until it is submitted, then in flight, and after its loss was reported
/// once it is kept for a late acknowledgement. A packet that failed, was acknowledged or has
/// expired is off the record.
#[derive(Clone, Copy, Debug, PartialEq, Eq, Structural)]
pub enum SentPacketState {
    Pending,
    Flighting { retrans_at: u64, expire_after: u64 },
    Retransmitted { expire_after: u64 },
}

/// When something is next due for a packet.
pub open spec fn deadline(state: SentPacketState) -> Option<u64> {
    match state {
        SentPacketState::Pending => None,
        SentPacketState::Flighting { retrans_at, .. } => Some(retrans_at),
        SentPacketState::Retransmitted { expire_after } => Some(expire_after),
    }
}

/// One packet on record; its frames stand in the slots from `frame_start` to `frame_end`.
#[derive(Clone, Copy, Debug, PartialEq, Eq, Structural)]
pub struct SentPacket {
    pub pn: u64,
    pub generation: Option<u64>,
    pub frame_start: u64,
    pub frame_end: u64,
    pub state: SentPacketState,
}

/// What the journal knows of one packet.
#[verifier::ext_equal]
pub struct SentRecord<T> {
    pub pn: u64,
    pub generation: Option<u64>,
    pub frames: Seq<T>,
    pub state: SentPacketState,
}

pub open spec fn frames_of<T>(slots: Seq<Option<T>>, offset: u64, packet: SentPacket) -> Seq<T> {
    Seq::new(
        (packet.frame_end - packet.frame_start) as nat,
        |k: int| slots[packet.frame_start - offset + k]->0,
    )
}

/// Whether the frame at `index` belongs to a packet on record.
pub open spec fn pinned(packets: Seq<SentPacket>, index: int) -> bool {
    exists|i: int|
        #![trigger packets[i]]
        0 <= i < packets.len() && packets[i].frame_start <= index < packets[i].frame_end
}

/// Whether `entry` is the deadline and number of a packet on record.
pub open spec fn scheduled(packets: Seq<SentPacket>, entry: (u64, u64)) -> bool {
    exists|i: int|
        #![trigger packets[i]]
        0 <= i < packets.len() && packets[i].pn == entry.1 && deadline(packets[i].state) == Some(entry.0)
}

/// A packet after its loss was reported.
pub open spec fn lost_record<T>(record: SentRecord<T>) -> SentRecord<T> {
    match record.state {
        SentPacketState::Flighting { expire_after, .. } => SentRecord {
            state: SentPacketState::Retransmitted { expire_after },
            ..record
        },
        _ => record,
    }
}

/// The records after the loss of `pn` was reported.
pub open spec fn lose<T>(records: Seq<SentRecord<T>>, pn: u64) -> Seq<SentRecord<T>> {
    Seq::new(
        records.len(),
        |i: int|
            if records[i].pn == pn {
                lost_record(records[i])
            } else {
                records[i]
            },
    )
}

/// The frames to send again when `pn` is lost.
pub open spec fn loss_frames<T>(records: Seq<SentRecord<T>>, pn: u64) -> Seq<T> {
    if exists|i: int| #![trigger records[i]] 0 <= i < records.len() && records[i].pn == pn && records[i].state is Flighting {
        records[choose|i: int|
            #![trigger records[i]]
            0 <= i < records.len() && records[i].pn == pn && records[i].state is Flighting].frames
    } else {
        Seq::empty()
    }
}

/// The records, and all frames to send again, after the loss of each of `pns` in turn.
pub open spec fn lose_all<T>(records: Seq<SentRecord<T>>, pns: Seq<u64>) -> (Seq<SentRecord<T>>, Seq<T>)
    decreases pns.len(),
{
    if pns.len() == 0 {
        (records, Seq::empty())
    } else {
        let (left, frames) = lose_all(records, pns.drop_last());
        (lose(left, pns.last()), frames + loss_frames(left, pns.last()))
    }
}

/// The numbers whose deadline has come, earliest first.
pub open spec fn due(deadlines: Seq<(u64, u64)>, now: u64) -> Seq<u64>
    decreases deadlines.len(),
{
    if deadlines.len() == 0 {
        Seq::empty()
    } else if deadlines.last().0 <= now {
        due(deadlines.drop_last(), now).push(deadlines.last().1)
    } else {
        due(deadlines.drop_last(), now)
    }
}

/// Whether a lost packet's retention has ended.
pub open spec fn expired(state: SentPacketState, now: u64) -> bool {
    state matches SentPacketState::Retransmitted { expire_after } && expire_after <= now
}

/// The records whose retention has not ended.
pub open spec fn unexpired<T>(records: Seq<SentRecord<T>>, now: u64) -> Seq<SentRecord<T>>
    decreases records.len(),
{
    if records.len() == 0 {
        records
    } else if expired(records.last().state, now) {
        unexpired(records.drop_last(), now)
    } else {
        unexpired(records.drop_last(), now).push(records.last())
    }
}

/// The records that `ack` leaves.
pub open spec fn unacked<T>(records: Seq<SentRecord<T>>, ack: &AckFrame) -> Seq<SentRecord<T>>
    decreases records.len(),
{
    if records.len() == 0 {
        records
    } else if ack.acks(records.last().pn as int) {
        unacked(records.drop_last(), ack)
    } else {
        unacked(records.drop_last(), ack).push(records.last())
    }
}

/// The frames that `ack` acknowledges, by ascending packet number.
pub open spec fn acked_frames<T>(records: Seq<SentRecord<T>>, ack: &AckFrame) -> Seq<T>
    decreases records.len(),
{
    if records.len() == 0 {
        Seq::empty()
    } else if ack.acks(records.last().pn as int) {
        acked_frames(records.drop_last(), ack) + records.last().frames
    } else {
        acked_frames(records.drop_last(), ack)
    }
}

/// The key generations of the packets that `ack` acknowledges, by ascending packet number.
pub open spec fn acked_generations<T>(records: Seq<SentRecord<T>>, ack: &AckFrame) -> Seq<u64>
    decreases records.len(),
{
    if records.len() == 0 {
        Seq::empty()
    } else {
        let before = acked_generations(records.drop_last(), ack);
        match records.last().generation {
            Some(generation) if ack.acks(records.last().pn as int) => before.push(generation),
            _ => before,
        }
    }
}

/// What skipping `pn` makes of the history of skipped numbers: the lowest is forgotten when there
/// are too many.
pub open spec fn skips(before: Seq<u64>, after: Seq<u64>, pn: u64) -> bool {
    exists|skipped: Seq<u64>|
        {
            &&& #[trigger] ascending_with(before, skipped, pn)
            &&& after == if skipped.len() > MAX_SKIPPED_PNS {
                skipped.drop_first()
            } else {
                skipped
            }
        }
}

/// The sending journal of one packet-number space, for the senders of all paths.
pub struct ArcSendJournal<T> {
    /// By ascending packet number.
    pub packets: Vec<SentPacket>,
    /// Index of the first slot.
    pub offset: u64,
    pub slots: Vec<Option<T>>,
    /// By time, then by packet number.
    pub deadlines: Vec<(u64, u64)>,
    pub next_pn: u64,
    pub largest_acked: u64,
    /// The latest numbers that were never sent, ascending.
    pub skipped_pns: Vec<u64>,
}

impl<T: Copy> ArcSendJournal<T> {
    pub open spec fn record(&self, i: int) -> SentRecord<T> {
        SentRecord {
            pn: self.packets@[i].pn,
            generation: self.packets@[i].generation,
            frames: frames_of(self.slots@, self.offset, self.packets@[i]),
            state: self.packets@[i].state,
        }
    }

    /// The packets on record, by ascending packet number.
    pub open spec fn records(&self) -> Seq<SentRecord<T>> {
        Seq::new(self.packets@.len(), |i: int| self.record(i))
    }

    pub open spec fn has(&self, pn: u64) -> bool {
        exists|i: int| #![trigger self.packets@[i]] 0 <= i < self.packets@.len() && self.packets@[i].pn == pn
    }

    /// Where the record of `pn` stands.
    pub open spec fn index_of(&self, pn: u64) -> int {
        choose|i: int| #![trigger self.packets@[i]] 0 <= i < self.packets@.len() && self.packets@[i].pn == pn
    }

    /// Index of the next frame to be stored.
    pub open spec fn next_frame(&self) -> int {
        self.offset + self.slots@.len()
    }

    /// The numbers and histories other than the records are those of `other`, and no slot was added.
    pub open spec fn same_numbers(&self, other: &Self) -> bool {
        &&& self.next_pn == other.next_pn
        &&& self.largest_acked == other.largest_acked
        &&& self.skipped_pns@ == other.skipped_pns@
        &&& self.next_frame() == other.next_frame()
        &&& self.offset >= other.offset
    }

    pub open spec fn numbers_wf(&self) -> bool {
        &&& self.packets@.len() <= MAX_RECORDS
        &&& self.next_pn <= VARINT_MAX + 1
        &&& self.largest_acked <= self.next_pn
        &&& forall|i: int| #![trigger self.packets@[i]] 0 <= i < self.packets@.len() ==> self.packets@[i].pn < self.next_pn
        &&& forall|i: int, j: int|
            #![trigger self.packets@[i], self.packets@[j]]
            0 <= i < j < self.packets@.len() ==> self.packets@[i].pn < self.packets@[j].pn
        &&& ascending(self.skipped_pns@)
        &&& self.skipped_pns@.len() <= MAX_SKIPPED_PNS
        &&& forall|i: int|
            #![trigger self.skipped_pns@[i]]
            0 <= i < self.skipped_pns@.len() ==> self.skipped_pns@[i] < self.next_pn
        &&& forall|i: int|
            #![trigger self.packets@[i]]
            0 <= i < self.packets@.len() ==> !self.skipped_pns@.contains(self.packets@[i].pn)
    }

    pub open spec fn frames_wf(&self) -> bool {
        &&& self.slots@.len() <= MAX_FRAMES
        &&& self.next_frame() <= u64::MAX
        &&& forall|i: int|
            #![trigger self.packets@[i]]
            0 <= i < self.packets@.len() ==> {
                let packet = self.packets@[i];
                &&& packet.frame_start <= packet.frame_end <= self.next_frame()
                &&& packet.frame_start < packet.frame_end ==> self.offset <= packet.frame_start
            }
        &&& forall|i: int, j: int|
            #![trigger self.packets@[i], self.packets@[j]]
            0 <= i < j < self.packets@.len() ==> self.packets@[i].frame_end <= self.packets@[j].frame_start
        &&& forall|k: int|
            #![trigger self.slots@[k]]
            0 <= k < self.slots@.len() ==> (self.slots@[k] is Some <==> pinned(
                self.packets@,
                self.offset + k,
            ))
    }

    pub open spec fn deadlines_wf(&self) -> bool {
        &&& timed(self.deadlines@)
        &&& forall|entry: (u64, u64)|
            #![trigger self.deadlines@.contains(entry)]
            self.deadlines@.contains(entry) <==> scheduled(self.packets@, entry)
    }

    /// Everything but that the leading empty slots are gone.
    pub open spec fn consistent(&self) -> bool {
        self.numbers_wf() && self.frames_wf() && self.deadlines_wf()
    }

    pub open spec fn wf(&self) -> bool {
        self.consistent() && (self.slots@.len() > 0 ==> self.slots@[0] is Some)
    }

    pub fn new() -> (journal: Self)
        ensures
            journal.wf(),
            journal.records() == Seq::<SentRecord<T>>::empty(),
            journal.next_pn == 0,
            journal.largest_acked == 0,
            journal.skipped_pns@ == Seq::<u64>::empty(),
            journal.slots@.len() == 0,
            journal.next_frame() == 0,
    {
        let journal = ArcSendJournal {
            packets: Vec::new(),
            offset: 0,
            slots: Vec::new(),
            deadlines: Vec::new(),
            next_pn: 0,
            largest_acked: 0,
            skipped_pns: Vec::new(),
        };
        assert(journal.records() =~= Seq::<SentRecord<T>>::empty());
        journal
    }

    fn find(&self, pn: u64) -> (found: Option<usize>)
        requires
            self.numbers_wf(),
        ensures
            found is Some <==> self.has(pn),
            found matches Some(i) ==> i < self.packets@.len() && self.packets@[i as int].pn == pn && i
                == self.index_of(pn),
    {
        let mut low: usize = 0;
        let mut high: usize = self.packets.len();
        while low < high
            invariant
                self.numbers_wf(),
                low <= high <= self.packets@.len(),
                forall|i: int| #![trigger self.packets@[i]] 0 <= i < low ==> self.packets@[i].pn < pn,
                forall|i: int| #![trigger self.packets@[i]] high <= i < self.packets@.len() ==> pn <= self.packets@[i].pn,
            decreases high - low,
        {
            let middle: usize = low + (high - low) / 2;
            if self.packets[middle].pn < pn {
                low = middle + 1;
            } else {
                high = middle;
            }
        }
        if low < self.packets.len() && self.packets[low].pn == pn {
            assert(self.packets@[low as int].pn == pn);
            Some(low)
        } else {
            assert forall|i: int| #![trigger self.packets@[i]] 0 <= i < self.packets@.len() implies self.packets@[i].pn != pn by {
                if i > low {
                    assert(self.packets@[low as int].pn < self.packets@[i].pn);
                }
            }
            None
        }
    }

    /// Takes a packet off the record together with its deadline and its frames.
    fn remove_packet(&mut self, index: usize) -> (frames: Vec<T>)
        requires
            old(self).consistent(),
            index < old(self).packets@.len(),
        ensures
            final(self).consistent(),
            final(self).records() == old(self).records().remove(index as int),
            final(self).packets@ == old(self).packets@.remove(index as int),
            final(self).same_numbers(old(self)),
            final(self).offset == old(self).offset,
            frames@ == old(self).records()[index as int].frames,
    {
        let ghost before = *self;
        let packet: SentPacket = self.packets[index];
        match packet.state {
            SentPacketState::Pending => {},
            SentPacketState::Flighting { retrans_at, .. } => {
                drop_timed(&mut self.deadlines, (retrans_at, packet.pn));
            },
            SentPacketState::Retransmitted { expire_after } => {
                drop_timed(&mut self.deadlines, (expire_after, packet.pn));
            },
        }
        let mut frames: Vec<T> = Vec::new();
        let mut at: u64 = packet.frame_start;
        while at < packet.frame_end
            invariant
                before.consistent(),
                packet == before.packets@[index as int],
                index < before.packets@.len(),
                self.packets@ == before.packets@,
                self.offset == before.offset,
                self.slots@.len() == before.slots@.len(),
                self.next_pn == before.next_pn,
                self.largest_acked == before.largest_acked,
                self.skipped_pns@ == before.skipped_pns@,
                timed(self.deadlines@),
                forall|entry: (u64, u64)|
                    #![trigger self.deadlines@.contains(entry)]
                    self.deadlines@.contains(entry) <==> before.deadlines@.contains(entry) && Some(entry)
                        != (match deadline(packet.state) {
                        Some(at) => Some((at, packet.pn)),
                        None => None,
                    }),
                packet.frame_start <= at <= packet.frame_end,
                frames@ == frames_of(before.slots@, before.offset, packet).take(at - packet.frame_start),
                forall|k: int|
                    #![trigger self.slots@[k]]
                    0 <= k < self.slots@.len() ==> self.slots@[k] == if packet.frame_start <= self.offset + k < at {
                        None
                    } else {
                        before.slots@[k]
                    },
            decreases packet.frame_end - at,
        {
            let slot: usize = (at - self.offset) as usize;
            assert(before.slots@[slot as int] is Some) by {
                assert(before.packets@[index as int].frame_start <= at);
            }
            let frame: Option<T> = self.slots[slot];
            if let Some(frame) = frame {
                frames.push(frame);
            }
            self.slots.set(slot, None);
            at = at + 1;
            assert(frames@ =~= frames_of(before.slots@, before.offset, packet).take(at - packet.frame_start));
        }
        self.packets.remove(index);
        proof {
            lemma_removed(&before, self, index as int);
            assert(frames@ =~= before.records()[index as int].frames);
        }
        frames
    }

    /// Drops the leading empty slots.
    fn reclaim(&mut self)
        requires
            old(self).consistent(),
        ensures
            final(self).wf(),
            final(self).records() == old(self).records(),
            final(self).same_numbers(old(self)),
            final(self).packets@ == old(self).packets@,
            final(self).deadlines@ == old(self).deadlines@,
    {
        let ghost before = *self;
        let mut empty: usize = 0;
        while empty < self.slots.len() && self.slots[empty].is_none()
            invariant
                *self == before,
                empty <= self.slots@.len(),
                forall|k: int| #![trigger self.slots@[k]] 0 <= k < empty ==> self.slots@[k] is None,
            decreases self.slots@.len() - empty,
        {
            empty = empty + 1;
        }
        if empty > 0 {
            let rest: Vec<Option<T>> = self.slots.split_off(empty);
            self.slots = rest;
            self.offset = self.offset + empty as u64;
            proof {
                lemma_reclaimed(&before, self, empty as int);
            }
        }
    }

    /// Reports the loss of a packet in flight: hands out copies of its frames and keeps it for a
    /// late acknowledgement until its retention ends.
    fn retransmit(&mut self, pn: u64) -> (frames: Vec<T>)
        requires
            old(self).wf(),
        ensures
            final(self).wf(),
            final(self).records() == lose(old(self).records(), pn),
            frames@ == loss_frames(old(self).records(), pn),
            final(self).same_numbers(old(self)),
            final(self).slots@ == old(self).slots@,
            final(self).offset == old(self).offset,
    {
        let ghost before = *self;
        let mut frames: Vec<T> = Vec::new();
        let index: usize = match self.find(pn) {
            Some(index) => index,
            None => {
                proof {
                    lemma_lose_nothing(&before, pn);
                }
                return frames;
            },
        };
        let packet: SentPacket = self.packets[index];
        if let SentPacketState::Flighting { retrans_at, expire_after } = packet.state {
            drop_timed(&mut self.deadlines, (retrans_at, pn));
            let mut lost: SentPacket = packet;
            lost.state = SentPacketState::Retransmitted { expire_after };
            self.packets.set(index, lost);
            add_timed(&mut self.deadlines, (expire_after, pn));
            let mut at: u64 = packet.frame_start;
            while at < packet.frame_end
                invariant
                    before.wf(),
                    packet == before.packets@[index as int],
                    index < before.packets@.len(),
                    self.offset == before.offset,
                    self.slots@ == before.slots@,
                    packet.frame_start <= at <= packet.frame_end,
                    frames@ == frames_of(before.slots@, before.offset, packet).take(at - packet.frame_start),
                decreases packet.frame_end - at,
            {
                let slot: usize = (at - self.offset) as usize;
                assert(before.slots@[slot as int] is Some) by {
                    assert(before.packets@[index as int].frame_start <= at);
                }
                let frame: Option<T> = self.slots[slot];
                if let Some(frame) = frame {
                    frames.push(frame);
                }
                at = at + 1;
                assert(frames@ =~= frames_of(before.slots@, before.offset, packet).take(at - packet.frame_start));
            }
            proof {
                lemma_retransmitted(&before, self, index as int);
                assert(frames@ =~= before.record(index as int).frames);
                assert(before.records()[index as int].state is Flighting);
                let i = choose|i: int|
                    #![trigger before.records()[i]]
                    0 <= i < before.records().len() && before.records()[i].pn == pn && before.records()[i].state is Flighting;
                assert(before.packets@[i].pn == before.packets@[index as int].pn);
                assert(i == index);
            }
        } else {
            proof {
                lemma_lose_nothing(&before, pn);
            }
        }
        frames
    }
}

proof fn lemma_removed<T: Copy>(before: &ArcSendJournal<T>, after: &ArcSendJournal<T>, index: int)
    requires
        before.consistent(),
        0 <= index < before.packets@.len(),
        after.packets@ == before.packets@.remove(index),
        after.offset == before.offset,
        after.slots@.len() == before.slots@.len(),
        after.next_pn == before.next_pn,
        after.largest_acked == before.largest_acked,
        after.skipped_pns@ == before.skipped_pns@,
        timed(after.deadlines@),
        forall|entry: (u64, u64)|
            #![trigger after.deadlines@.contains(entry)]
            after.deadlines@.contains(entry) <==> before.deadlines@.contains(entry) && Some(entry) != (match deadline(
                before.packets@[index].state,
            ) {
                Some(at) => Some((at, before.packets@[index].pn)),
                None => None,
            }),
        forall|k: int|
            #![trigger after.slots@[k]]
            0 <= k < after.slots@.len() ==> after.slots@[k] == if before.packets@[index].frame_start <= after.offset + k
                < before.packets@[index].frame_end {
                None
            } else {
                before.slots@[k]
            },
    ensures
        after.consistent(),
        after.records() == before.records().remove(index),
{
    let packet = before.packets@[index];
    assert forall|i: int| #![trigger after.packets@[i]] 0 <= i < after.packets@.len() implies after.packets@[i]
        == before.packets@[if i < index { i } else { i + 1 }] by {}
    assert forall|k: int|
        #![trigger after.slots@[k]]
        0 <= k < after.slots@.len() implies (after.slots@[k] is Some <==> pinned(after.packets@, after.offset + k)) by {
        let at = after.offset + k;
        if pinned(after.packets@, at) {
            let i = choose|i: int|
                #![trigger after.packets@[i]]
                0 <= i < after.packets@.len() && after.packets@[i].frame_start <= at < after.packets@[i].frame_end;
            let j = if i < index { i } else { i + 1 };
            assert(before.packets@[j].frame_start <= at < before.packets@[j].frame_end);
            assert(before.slots@[k] is Some);
            if j < index {
                assert(before.packets@[j].frame_end <= packet.frame_start);
            } else {
                assert(packet.frame_end <= before.packets@[j].frame_start);
            }
        }
        if after.slots@[k] is Some {
            assert(pinned(before.packets@, at));
            let j = choose|j: int|
                #![trigger before.packets@[j]]
                0 <= j < before.packets@.len() && before.packets@[j].frame_start <= at < before.packets@[j].frame_end;
            let i = if j < index { j } else { j - 1 };
            assert(after.packets@[i].frame_start <= at < after.packets@[i].frame_end);
        }
    }
    assert forall|entry: (u64, u64)|
        #![trigger after.deadlines@.contains(entry)]
        after.deadlines@.contains(entry) <==> scheduled(after.packets@, entry) by {
        if scheduled(after.packets@, entry) {
            let i = choose|i: int|
                #![trigger after.packets@[i]]
                0 <= i < after.packets@.len() && after.packets@[i].pn == entry.1 && deadline(after.packets@[i].state)
                    == Some(entry.0);
            let j = if i < index { i } else { i + 1 };
            assert(before.packets@[j].pn == entry.1);
            assert(scheduled(before.packets@, entry));
            assert(before.packets@[j].pn != packet.pn);
        }
        if after.deadlines@.contains(entry) {
            assert(scheduled(before.packets@, entry));
            let j = choose|j: int|
                #![trigger before.packets@[j]]
                0 <= j < before.packets@.len() && before.packets@[j].pn == entry.1 && deadline(before.packets@[j].state)
                    == Some(entry.0);
            assert(j != index);
            let i = if j < index { j } else { j - 1 };
            assert(after.packets@[i].pn == entry.1);
        }
    }
    assert forall|i: int| 0 <= i < after.packets@.len() implies #[trigger] after.records()[i] == before.records().remove(index)[i] by {
        let j = if i < index { i } else { i + 1 };
        let kept = before.packets@[j];
        if j < index {
            assert(kept.frame_end <= packet.frame_start);
        } else {
            assert(packet.frame_end <= kept.frame_start);
        }
        assert(frames_of(after.slots@, after.offset, kept) =~= frames_of(before.slots@, before.offset, kept));
    }
    assert(after.records() =~= before.records().remove(index));
}

proof fn lemma_reclaimed<T: Copy>(before: &ArcSendJournal<T>, after: &ArcSendJournal<T>, empty: int)
    requires
        before.consistent(),
        0 <= empty <= before.slots@.len(),
        forall|k: int| #![trigger before.slots@[k]] 0 <= k < empty ==> before.slots@[k] is None,
        after.packets@ == before.packets@,
        after.deadlines@ == before.deadlines@,
        after.next_pn == before.next_pn,
        after.largest_acked == before.largest_acked,
        after.skipped_pns@ == before.skipped_pns@,
        after.slots@ == before.slots@.skip(empty),
        after.offset == before.offset + empty,
    ensures
        after.consistent(),
        after.records() == before.records(),
{
    assert forall|i: int|
        #![trigger after.packets@[i]]
        0 <= i < after.packets@.len() && after.packets@[i].frame_start < after.packets@[i].frame_end implies after.offset
        <= after.packets@[i].frame_start by {
        let packet = before.packets@[i];
        if packet.frame_start < after.offset {
            let k = packet.frame_start - before.offset;
            assert(before.slots@[k] is None);
            assert(packet.frame_start <= before.offset + k < packet.frame_end);
        }
    }
    assert forall|k: int|
        #![trigger after.slots@[k]]
        0 <= k < after.slots@.len() implies (after.slots@[k] is Some <==> pinned(after.packets@, after.offset + k)) by {
        assert(after.slots@[k] == before.slots@[k + empty]);
    }
    assert forall|i: int| 0 <= i < after.packets@.len() implies #[trigger] after.records()[i] == before.records()[i] by {
        let packet = before.packets@[i];
        assert(frames_of(after.slots@, after.offset, packet) =~= frames_of(before.slots@, before.offset, packet));
    }
    assert(after.records() =~= before.records());
}

proof fn lemma_lose_nothing<T: Copy>(journal: &ArcSendJournal<T>, pn: u64)
    requires
        forall|i: int|
            #![trigger journal.packets@[i]]
            0 <= i < journal.packets@.len() && journal.packets@[i].pn == pn ==> !(journal.packets@[i].state is Flighting),
    ensures
        lose(journal.records(), pn) == journal.records(),
        loss_frames(journal.records(), pn) == Seq::<T>::empty(),
{
    assert forall|i: int| 0 <= i < journal.records().len() && journal.records()[i].pn == pn implies !(#[trigger] journal.records()[i].state is Flighting) by {
        assert(journal.packets@[i].pn == pn);
    }
    assert(lose(journal.records(), pn) =~= journal.records());
}

proof fn lemma_retransmitted<T: Copy>(before: &ArcSendJournal<T>, after: &ArcSendJournal<T>, index: int)
    requires
        before.consistent(),
        0 <= index < before.packets@.len(),
        before.packets@[index].state is Flighting,
        ({
            let packet = before.packets@[index];
            let expire_after = packet.state->Flighting_expire_after;
            let retrans_at = packet.state->retrans_at;
            &&& after.packets@ == before.packets@.update(
                index,
                SentPacket { state: SentPacketState::Retransmitted { expire_after }, ..packet },
            )
            &&& forall|entry: (u64, u64)|
                #![trigger after.deadlines@.contains(entry)]
                after.deadlines@.contains(entry) <==> (before.deadlines@.contains(entry) && entry != (
                    retrans_at,
                    packet.pn,
                )) || entry == (expire_after, packet.pn)
        }),
        timed(after.deadlines@),
        after.offset == before.offset,
        after.slots@ == before.slots@,
        after.next_pn == before.next_pn,
        after.largest_acked == before.largest_acked,
        after.skipped_pns@ == before.skipped_pns@,
    ensures
        after.consistent(),
        after.records() == lose(before.records(), before.packets@[index].pn),
{
    let packet = before.packets@[index];
    assert forall|i: int| #![trigger after.packets@[i]] 0 <= i < after.packets@.len() implies after.packets@[i].pn
        == before.packets@[i].pn && after.packets@[i].frame_start == before.packets@[i].frame_start
        && after.packets@[i].frame_end == before.packets@[i].frame_end && (i != index ==> after.packets@[i]
        == before.packets@[i]) by {}
    assert forall|at: int| #![trigger pinned(after.packets@, at)] pinned(after.packets@, at) == pinned(before.packets@, at) by {
        if pinned(after.packets@, at) {
            let i = choose|i: int|
                #![trigger after.packets@[i]]
                0 <= i < after.packets@.len() && after.packets@[i].frame_start <= at < after.packets@[i].frame_end;
            assert(before.packets@[i].frame_start <= at < before.packets@[i].frame_end);
        }
        if pinned(before.packets@, at) {
            let i = choose|i: int|
                #![trigger before.packets@[i]]
                0 <= i < before.packets@.len() && before.packets@[i].frame_start <= at < before.packets@[i].frame_end;
            assert(after.packets@[i].frame_start <= at < after.packets@[i].frame_end);
        }
    }
    assert forall|entry: (u64, u64)|
        #![trigger after.deadlines@.contains(entry)]
        after.deadlines@.contains(entry) <==> scheduled(after.packets@, entry) by {
        if scheduled(after.packets@, entry) {
            let i = choose|i: int|
                #![trigger after.packets@[i]]
                0 <= i < after.packets@.len() && after.packets@[i].pn == entry.1 && deadline(after.packets@[i].state)
                    == Some(entry.0);
            if i != index {
                assert(before.packets@[i].pn == entry.1);
                assert(scheduled(before.packets@, entry));
                assert(before.packets@[i].pn != packet.pn);
            }
        }
        if after.deadlines@.contains(entry) {
            if entry == (packet.state->Flighting_expire_after, packet.pn) {
                assert(after.packets@[index].pn == entry.1);
            } else {
                assert(scheduled(before.packets@, entry));
                let j = choose|j: int|
                    #![trigger before.packets@[j]]
                    0 <= j < before.packets@.len() && before.packets@[j].pn == entry.1 && deadline(
                        before.packets@[j].state,
                    ) == Some(entry.0);
                assert(j != index);
                assert(after.packets@[j].pn == entry.1);
            }
        }
    }
    assert forall|i: int| 0 <= i < after.packets@.len() implies #[trigger] after.records()[i] == lose(
        before.records(),
        packet.pn,
    )[i] by {
        if i != index {
            assert(before.packets@[i].pn != packet.pn);
        }
        assert(frames_of(after.slots@, after.offset, after.packets@[i]) =~= frames_of(
            before.slots@,
            before.offset,
            before.packets@[i],
        ));
    }
    assert(after.records() =~= lose(before.records(), packet.pn));
}


impl<T: Copy> ArcSendJournal<T> {
    /// A journal whose first packet number is `pn`.
    pub fn starting_at(pn: u64) -> (journal: Self)
        requires
            pn <= VARINT_MAX + 1,
        ensures
            journal.wf(),
            journal.records() == Seq::<SentRecord<T>>::empty(),
            journal.next_pn == pn,
            journal.largest_acked == 0,
            journal.skipped_pns@ == Seq::<u64>::empty(),
            journal.slots@.len() == 0,
            journal.next_frame() == 0,
    {
        let mut journal = Self::new();
        journal.next_pn = pn;
        assert(journal.records() =~= Seq::<SentRecord<T>>::empty());
        journal
    }

    /// Whether another packet with a frame can be recorded.
    pub fn has_capacity(&self) -> (room: bool)
        ensures
            room <==> self.packets@.len() < MAX_RECORDS && self.slots@.len() < MAX_FRAMES,
    {
        self.packets.len() < MAX_RECORDS && self.slots.len() < MAX_FRAMES
    }

    /// Whether the journal cannot take a packet with `count` frames.
    pub open spec fn is_full(&self, count: nat) -> bool {
        self.packets@.len() >= MAX_RECORDS || self.slots@.len() + count > MAX_FRAMES
    }

    /// Allocates and encodes a packet number and moves the frames of its packet into the
    /// journal, all or nothing.
    pub fn record_pending(&mut self, generation: Option<u64>, frames: &mut Vec<T>) -> (result: Result<
        (u64, PacketNumber),
        PacketError,
    >)
        requires
            old(self).wf(),
            old(self).next_frame() + old(frames)@.len() <= u64::MAX,
            2 * (old(self).next_pn - old(self).largest_acked) < 0x1_0000_0000,
        ensures
            final(self).wf(),
            match result {
                Ok((pn, encoded)) => {
                    &&& !old(self).is_full(old(frames)@.len()) && old(self).next_pn <= VARINT_MAX
                    &&& pn == old(self).next_pn
                    &&& encoded == PacketNumber::encoded(pn, old(self).largest_acked)
                    &&& final(self).records() == old(self).records().push(
                        (SentRecord {
                            pn,
                            generation,
                            frames: old(frames)@,
                            state: SentPacketState::Pending,
                        }),
                    )
                    &&& final(self).next_pn == pn + 1
                    &&& final(self).largest_acked == old(self).largest_acked
                    &&& final(self).skipped_pns@ == old(self).skipped_pns@
                    &&& final(self).slots@.len() == old(self).slots@.len() + old(frames)@.len()
                    &&& final(self).offset == old(self).offset
                    &&& final(self).next_frame() == old(self).next_frame() + old(frames)@.len()
                    &&& final(frames)@ == Seq::<T>::empty()
                },
                Err(error) => {
                    &&& *final(self) == *old(self)
                    &&& final(frames)@ == old(frames)@
                    &&& match error {
                        PacketError::Blocked(signals) => signals == Signals::only_transport() && old(
                            self,
                        ).is_full(old(frames)@.len()),
                        PacketError::Connection(error) => error.says(
                            ErrorKind::AeadLimitReached,
                            "packet numbers exhausted"@,
                        ) && !old(self).is_full(old(frames)@.len()) && old(self).next_pn > VARINT_MAX,
                        _ => false,
                    }
                },
            },
    {
        if self.packets.len() >= MAX_RECORDS || frames.len() > MAX_FRAMES
            - self.slots.len() {
            return Err(PacketError::Blocked(Signals::transport()));
        }
        let pn: u64 = self.next_pn;
        if pn > VARINT_MAX {
            return Err(
                PacketError::Connection(QuicError::new(ErrorKind::AeadLimitReached, "packet numbers exhausted")),
            );
        }
        let encoded = PacketNumber::encode(pn, self.largest_acked);
        let ghost before = *self;
        let ghost given = frames@;
        let frame_start: u64 = self.offset + self.slots.len() as u64;
        let mut index: usize = 0;
        while index < frames.len()
            invariant
                frames@ == given,
                index <= given.len(),
                before.slots@.len() + given.len() <= MAX_FRAMES,
                self.packets@ == before.packets@,
                self.offset == before.offset,
                self.deadlines@ == before.deadlines@,
                self.next_pn == before.next_pn,
                self.largest_acked == before.largest_acked,
                self.skipped_pns@ == before.skipped_pns@,
                self.slots@.len() == before.slots@.len() + index,
                forall|k: int|
                    #![trigger self.slots@[k]]
                    0 <= k < self.slots@.len() ==> self.slots@[k] == if k < before.slots@.len() {
                        before.slots@[k]
                    } else {
                        Some(given[k - before.slots@.len()])
                    },
            decreases given.len() - index,
        {
            self.slots.push(Some(frames[index]));
            index = index + 1;
        }
        frames.clear();
        let frame_end: u64 = self.offset + self.slots.len() as u64;
        self.packets.push(SentPacket { pn, generation, frame_start, frame_end, state: SentPacketState::Pending });
        self.next_pn = pn + 1;
        proof {
            assert(self.packets@.drop_last() =~= before.packets@);
            lemma_recorded(&before, self, given);
        }
        Ok((pn, encoded))
    }

    /// What submitting the packet `pn` at `now` makes of the journal.
    pub open spec fn submitted(
        &self,
        after: &Self,
        pn: u64,
        in_flight: bool,
        now: u64,
        retransmit_after: u64,
        retention: u64,
    ) -> bool {
        let index = self.index_of(pn);
        let records = self.records();
        &&& after.same_numbers(self)
        &&& after.records() == if in_flight {
            records.update(
                index,
                SentRecord {
                    state: SentPacketState::Flighting {
                        retrans_at: (now + retransmit_after) as u64,
                        expire_after: (now + retention) as u64,
                    },
                    ..records[index]
                },
            )
        } else {
            records.remove(index)
        }
    }

    /// Whether `pn` is on record and not submitted yet.
    pub open spec fn awaits(&self, pn: u64) -> bool {
        self.has(pn) && self.packets@[self.index_of(pn)].state is Pending
    }

    /// Notes that a pending packet was submitted at `now`. The end of its retention is fixed here;
    /// loss never restarts it. A packet that is not in flight needs no recovery and leaves the
    /// record.
    pub fn mark_sent(&mut self, pn: u64, in_flight: bool, now: u64, retransmit_after: u64, retention: u64)
        requires
            old(self).wf(),
            old(self).awaits(pn),
            in_flight ==> now + retransmit_after <= u64::MAX && now + retention <= u64::MAX,
        ensures
            final(self).wf(),
            old(self).submitted(final(self), pn, in_flight, now, retransmit_after, retention),
    {
        if let Some(index) = self.find(pn) {
            if in_flight {
                let ghost before = *self;
                let mut packet: SentPacket = self.packets[index];
                let retrans_at: u64 = now + retransmit_after;
                packet.state = SentPacketState::Flighting { retrans_at, expire_after: now + retention };
                self.packets.set(index, packet);
                add_timed(&mut self.deadlines, (retrans_at, pn));
                proof {
                    lemma_submitted(&before, self, index as int);
                }
            } else {
                self.remove_packet(index);
                self.reclaim();
            }
        }
    }

    /// What abandoning `pn` makes of the journal and of the frames handed back.
    pub open spec fn abandoned(&self, after: &Self, pn: u64, frames: Seq<T>) -> bool {
        if self.has(pn) {
            let index = self.index_of(pn);
            &&& after.records() == self.records().remove(index)
            &&& frames == self.records()[index].frames
            &&& after.next_pn == self.next_pn
            &&& after.largest_acked == self.largest_acked
            &&& after.next_frame() == self.next_frame()
            &&& after.offset >= self.offset
            &&& skips(self.skipped_pns@, after.skipped_pns@, pn)
        } else {
            *after == *self && frames == Seq::<T>::empty()
        }
    }

    /// Abandons a sealed but never submitted packet, and hands back its frames for their owners.
    pub fn cancel(&mut self, pn: u64) -> (frames: Vec<T>)
        requires
            old(self).wf(),
        ensures
            final(self).wf(),
            old(self).abandoned(final(self), pn, frames@),
    {
        match self.find(pn) {
            Some(index) => {
                let ghost before = *self;
                let frames: Vec<T> = self.remove_packet(index);
                let ghost removed = *self;
                add_ascending(&mut self.skipped_pns, pn);
                let ghost skipped = self.skipped_pns@;
                if self.skipped_pns.len() > MAX_SKIPPED_PNS {
                    self.skipped_pns.remove(0);
                    assert(self.skipped_pns@ =~= skipped.drop_first());
                }
                proof {
                    assert(self.records() =~= removed.records());
                    lemma_skipped(&before, self, index as int, skipped);
                }
                self.reclaim();
                frames
            },
            None => Vec::new(),
        }
    }

    /// Abandons a packet and appends its frames to `frames`.
    pub fn cancel_pending(&mut self, pn: u64, frames: &mut Vec<T>)
        requires
            old(self).wf(),
        ensures
            final(self).wf(),
            exists|returned: Seq<T>|
                {
                    &&& #[trigger] old(self).abandoned(final(self), pn, returned)
                    &&& final(frames)@ == old(frames)@ + returned
                },
    {
        let mut returned: Vec<T> = self.cancel(pn);
        let ghost handed = returned@;
        frames.append(&mut returned);
        assert(old(self).abandoned(self, pn, handed));
    }

    /// Reports the loss of each of `pns`: hands out copies of the frames of those in flight, and
    /// keeps the packets for late acknowledgements.
    pub fn mark_lost(&mut self, pns: &Vec<u64>) -> (frames: Vec<T>)
        requires
            old(self).wf(),
        ensures
            final(self).wf(),
            final(self).same_numbers(old(self)),
            (final(self).records(), frames@) == lose_all(old(self).records(), pns@),
            final(self).slots@ == old(self).slots@,
    {
        let mut frames: Vec<T> = Vec::new();
        let mut index: usize = 0;
        assert(pns@.take(0) =~= Seq::<u64>::empty());
        while index < pns.len()
            invariant
                self.wf(),
                self.same_numbers(old(self)),
                index <= pns@.len(),
                (self.records(), frames@) == lose_all(old(self).records(), pns@.take(index as int)),
                self.slots@ == old(self).slots@,
            decreases pns@.len() - index,
        {
            assert(pns@.take(index + 1).drop_last() =~= pns@.take(index as int));
            let mut lost: Vec<T> = self.retransmit(pns[index]);
            frames.append(&mut lost);
            index = index + 1;
        }
        assert(pns@.take(pns@.len() as int) =~= pns@);
        frames
    }

    /// Handles every deadline that has come by `now`: reports packets in flight as lost, and then
    /// forgets those whose retention has ended. Returns copies of the frames to send again.
    pub fn on_tick(&mut self, now: u64) -> (frames: Vec<T>)
        requires
            old(self).wf(),
        ensures
            final(self).wf(),
            final(self).same_numbers(old(self)),
            ({
                let (records, lost) = lose_all(old(self).records(), due(old(self).deadlines@, now));
                final(self).records() == unexpired(records, now) && frames@ == lost
            }),
    {
        let mut pns: Vec<u64> = Vec::new();
        let mut index: usize = 0;
        while index < self.deadlines.len()
            invariant
                *self == *old(self),
                index <= self.deadlines@.len(),
                pns@ == due(self.deadlines@.take(index as int), now),
            decreases self.deadlines@.len() - index,
        {
            assert(self.deadlines@.take(index + 1).drop_last() =~= self.deadlines@.take(index as int));
            if self.deadlines[index].0 <= now {
                pns.push(self.deadlines[index].1);
            }
            index = index + 1;
        }
        assert(self.deadlines@.take(index as int) =~= self.deadlines@);
        let frames: Vec<T> = self.mark_lost(&pns);
        let ghost records = self.records();
        let mut seen: usize = 0;
        let mut index: usize = 0;
        proof {
            assert(records.take(0) =~= Seq::<SentRecord<T>>::empty());
            assert(unexpired(records.take(0), now) + records.skip(0) =~= records);
        }
        let count: usize = self.packets.len();
        while seen < count
            invariant
                self.consistent(),
                self.same_numbers(old(self)),
                count == records.len(),
                index <= seen <= count,
                index == unexpired(records.take(seen as int), now).len(),
                self.records() == unexpired(records.take(seen as int), now) + records.skip(seen as int),
            decreases count - seen,
        {
            let ghost kept = unexpired(records.take(seen as int), now);
            assert(self.packets@.len() == self.records().len());
            assert(self.records()[index as int] == records[seen as int]);
            assert(records.take(seen + 1).drop_last() =~= records.take(seen as int));
            let gone: bool = match self.packets[index].state {
                SentPacketState::Retransmitted { expire_after } => expire_after <= now,
                _ => false,
            };
            if gone {
                self.remove_packet(index);
                assert(self.records() =~= kept + records.skip(seen + 1));
            } else {
                index = index + 1;
                assert(self.records() =~= kept.push(records[seen as int]) + records.skip(seen + 1));
            }
            seen = seen + 1;
        }
        assert(records.take(seen as int) =~= records);
        assert(self.records() =~= unexpired(records, now));
        self.reclaim();
        frames
    }

    /// Whether `ack` names a number that was never sent.
    pub open spec fn acks_unsent(&self, ack: &AckFrame) -> bool {
        ||| ack.largest.value >= self.next_pn
        ||| exists|i: int|
            #![trigger self.skipped_pns@[i]]
            0 <= i < self.skipped_pns@.len() && ack.acks(self.skipped_pns@[i] as int)
        ||| exists|i: int|
            #![trigger self.packets@[i]]
            0 <= i < self.packets@.len() && self.packets@[i].state is Pending && ack.acks(
                self.packets@[i].pn as int,
            )
    }

    /// Whether `ack` is taken, turns the journal into `after` and hands out these key generations and
    /// frames.
    pub open spec fn acknowledged(&self, after: &Self, ack: &AckFrame, generations: Seq<u64>, frames: Seq<T>) -> bool {
        &&& ack.ranges_fit() && !self.acks_unsent(ack)
        &&& after.records() == unacked(self.records(), ack)
        &&& generations == acked_generations(self.records(), ack)
        &&& frames == acked_frames(self.records(), ack)
        &&& after.next_pn == self.next_pn
        &&& after.skipped_pns@ == self.skipped_pns@
        &&& after.next_frame() == self.next_frame()
        &&& after.offset >= self.offset
        &&& after.largest_acked == if self.largest_acked < ack.largest.value {
            ack.largest.value
        } else {
            self.largest_acked
        }
    }

    /// Whether `error` is why `ack` is refused.
    pub open spec fn refuses(&self, ack: &AckFrame, error: QuicError) -> bool {
        if !ack.ranges_fit() {
            error.says(ErrorKind::FrameEncoding, "invalid ACK range"@)
        } else {
            self.acks_unsent(ack) && error.says(ErrorKind::ProtocolViolation, "ACK acknowledges an unsent packet"@)
        }
    }

    /// Takes the acknowledged packets off the record. Returns the key generations of those
    /// sealed with one-RTT keys, and the frames they carried, both by ascending packet number.
    /// An acknowledgement that is malformed or names an unsent packet changes nothing.
    pub fn acknowledge(&mut self, ack: &AckFrame) -> (result: Result<(Vec<u64>, Vec<T>), QuicError>)
        requires
            old(self).wf(),
        ensures
            final(self).wf(),
            match result {
                Ok((generations, frames)) => old(self).acknowledged(final(self), ack, generations@, frames@),
                Err(error) => *final(self) == *old(self) && old(self).refuses(ack, error),
            },
    {
        let ranges: Vec<(u64, u64)> = match ack.checked_ranges() {
            Some(ranges) => ranges,
            None => return Err(QuicError::new(ErrorKind::FrameEncoding, "invalid ACK range")),
        };
        proof {
            assert forall|pn: int| #![trigger ack.acks(pn)] within(ranges@, pn) <==> ack.acks(pn) by {
                listed_bounds_acknowledge(ack, ranges@, pn);
            }
        }
        if self.acks_unsent_packet(ack, &ranges) {
            return Err(QuicError::new(ErrorKind::ProtocolViolation, "ACK acknowledges an unsent packet"));
        }
        let ghost records = self.records();
        if self.largest_acked < ack.largest.value {
            self.largest_acked = ack.largest.value;
        }
        let mut generations: Vec<u64> = Vec::new();
        let mut frames: Vec<T> = Vec::new();
        let mut seen: usize = 0;
        let mut index: usize = 0;
        let ghost largest_acked = self.largest_acked;
        proof {
            assert(records.take(0) =~= Seq::<SentRecord<T>>::empty());
            assert(self.records() =~= unacked(records.take(0), ack) + records.skip(0));
        }
        let count: usize = self.packets.len();
        while seen < count
            invariant
                self.consistent(),
                self.next_pn == old(self).next_pn,
                self.skipped_pns@ == old(self).skipped_pns@,
                self.next_frame() == old(self).next_frame(),
                self.offset >= old(self).offset,
                self.largest_acked == largest_acked,
                count == records.len(),
                index <= seen <= count,
                forall|pn: int| #![trigger ack.acks(pn)] within(ranges@, pn) <==> ack.acks(pn),
                index == unacked(records.take(seen as int), ack).len(),
                self.records() == unacked(records.take(seen as int), ack) + records.skip(seen as int),
                generations@ == acked_generations(records.take(seen as int), ack),
                frames@ == acked_frames(records.take(seen as int), ack),
            decreases count - seen,
        {
            let ghost kept = unacked(records.take(seen as int), ack);
            assert(self.packets@.len() == self.records().len());
            assert(self.records()[index as int] == records[seen as int]);
            assert(records.take(seen + 1).drop_last() =~= records.take(seen as int));
            let packet: SentPacket = self.packets[index];
            assert(packet.pn == records[seen as int].pn);
            if is_within(&ranges, packet.pn) {
                assert(ack.acks(packet.pn as int));
                let mut taken: Vec<T> = self.remove_packet(index);
                frames.append(&mut taken);
                if let Some(generation) = packet.generation {
                    generations.push(generation);
                }
                assert(self.records() =~= kept + records.skip(seen + 1));
            } else {
                assert(!ack.acks(packet.pn as int));
                index = index + 1;
                assert(self.records() =~= kept.push(records[seen as int]) + records.skip(seen + 1));
            }
            seen = seen + 1;
        }
        assert(records.take(seen as int) =~= records);
        assert(self.records() =~= unacked(records, ack));
        self.reclaim();
        Ok((generations, frames))
    }

    fn acks_unsent_packet(&self, ack: &AckFrame, ranges: &Vec<(u64, u64)>) -> (unsent: bool)
        requires
            forall|pn: int| #![trigger ack.acks(pn)] within(ranges@, pn) <==> ack.acks(pn),
        ensures
            unsent == self.acks_unsent(ack),
    {
        if ack.largest.value >= self.next_pn {
            return true;
        }
        let mut index: usize = 0;
        while index < self.skipped_pns.len()
            invariant
                index <= self.skipped_pns@.len(),
                forall|pn: int| #![trigger ack.acks(pn)] within(ranges@, pn) <==> ack.acks(pn),
                forall|i: int|
                    #![trigger self.skipped_pns@[i]]
                    0 <= i < index ==> !ack.acks(self.skipped_pns@[i] as int),
            decreases self.skipped_pns@.len() - index,
        {
            let found: bool = is_within(ranges, self.skipped_pns[index]);
            assert(found == ack.acks(self.skipped_pns@[index as int] as int));
            if found {
                return true;
            }
            index = index + 1;
        }
        let mut index: usize = 0;
        while index < self.packets.len()
            invariant
                index <= self.packets@.len(),
                forall|pn: int| #![trigger ack.acks(pn)] within(ranges@, pn) <==> ack.acks(pn),
                forall|i: int|
                    #![trigger self.packets@[i]]
                    0 <= i < index ==> !(self.packets@[i].state is Pending && ack.acks(self.packets@[i].pn as int)),
            decreases self.packets@.len() - index,
        {
            let packet: SentPacket = self.packets[index];
            if let SentPacketState::Pending = packet.state {
                let found: bool = is_within(ranges, packet.pn);
                assert(found == ack.acks(self.packets@[index as int].pn as int));
                if found {
                    return true;
                }
            }
            index = index + 1;
        }
        false
    }
}

proof fn lemma_recorded<T: Copy>(before: &ArcSendJournal<T>, after: &ArcSendJournal<T>, frames: Seq<T>)
    requires
        before.wf(),
        before.packets@.len() < MAX_RECORDS,
        before.slots@.len() + frames.len() <= MAX_FRAMES,
        before.next_frame() + frames.len() <= u64::MAX,
        before.next_pn <= VARINT_MAX,
        after.packets@.len() == before.packets@.len() + 1,
        after.packets@.drop_last() == before.packets@,
        after.packets@.last().pn == before.next_pn,
        after.packets@.last().state is Pending,
        after.packets@.last().frame_start == before.next_frame(),
        after.packets@.last().frame_end == before.next_frame() + frames.len(),
        after.offset == before.offset,
        after.deadlines@ == before.deadlines@,
        after.next_pn == before.next_pn + 1,
        after.largest_acked == before.largest_acked,
        after.skipped_pns@ == before.skipped_pns@,
        after.slots@.len() == before.slots@.len() + frames.len(),
        forall|k: int|
            #![trigger after.slots@[k]]
            0 <= k < after.slots@.len() ==> after.slots@[k] == if k < before.slots@.len() {
                before.slots@[k]
            } else {
                Some(frames[k - before.slots@.len()])
            },
    ensures
        after.wf(),
        after.records() == before.records().push(
            SentRecord {
                pn: before.next_pn,
                generation: after.packets@.last().generation,
                frames,
                state: SentPacketState::Pending,
            },
        ),
{
    let last = before.packets@.len() as int;
    assert forall|i: int| #![trigger after.packets@[i]] 0 <= i < last implies after.packets@[i] == before.packets@[i] by {
        assert(after.packets@.drop_last()[i] == after.packets@[i]);
    }
    assert forall|k: int|
        #![trigger after.slots@[k]]
        0 <= k < after.slots@.len() implies (after.slots@[k] is Some <==> pinned(after.packets@, after.offset + k)) by {
        let at = after.offset + k;
        if k < before.slots@.len() {
            if pinned(after.packets@, at) {
                let i = choose|i: int|
                    #![trigger after.packets@[i]]
                    0 <= i < after.packets@.len() && after.packets@[i].frame_start <= at < after.packets@[i].frame_end;
                assert(i < last);
                assert(before.packets@[i].frame_start <= at < before.packets@[i].frame_end);
            }
            if pinned(before.packets@, at) {
                let i = choose|i: int|
                    #![trigger before.packets@[i]]
                    0 <= i < before.packets@.len() && before.packets@[i].frame_start <= at < before.packets@[i].frame_end;
                assert(after.packets@[i].frame_start <= at < after.packets@[i].frame_end);
            }
            assert(before.slots@[k] is Some <==> pinned(before.packets@, at));
        } else {
            assert(after.packets@[last].frame_start <= at < after.packets@[last].frame_end);
        }
    }
    assert forall|entry: (u64, u64)|
        #![trigger after.deadlines@.contains(entry)]
        after.deadlines@.contains(entry) <==> scheduled(after.packets@, entry) by {
        if scheduled(after.packets@, entry) {
            let i = choose|i: int|
                #![trigger after.packets@[i]]
                0 <= i < after.packets@.len() && after.packets@[i].pn == entry.1 && deadline(after.packets@[i].state)
                    == Some(entry.0);
            assert(i < last);
            assert(before.packets@[i].pn == entry.1);
            assert(scheduled(before.packets@, entry));
            assert(before.deadlines@.contains(entry));
        }
        if after.deadlines@.contains(entry) {
            assert(before.deadlines@.contains(entry));
            assert(scheduled(before.packets@, entry));
            let i = choose|i: int|
                #![trigger before.packets@[i]]
                0 <= i < before.packets@.len() && before.packets@[i].pn == entry.1 && deadline(before.packets@[i].state)
                    == Some(entry.0);
            assert(after.packets@[i].pn == entry.1);
        }
    }
    assert forall|i: int| #![trigger after.packets@[i]] 0 <= i < after.packets@.len() implies !after.skipped_pns@.contains(after.packets@[i].pn) by {
        if i == last && after.skipped_pns@.contains(before.next_pn) {
            let k = choose|k: int| 0 <= k < before.skipped_pns@.len() && before.skipped_pns@[k] == before.next_pn;
            assert(before.skipped_pns@[k] < before.next_pn);
        }
    }
    let record = SentRecord {
        pn: before.next_pn,
        generation: after.packets@.last().generation,
        frames,
        state: SentPacketState::Pending,
    };
    assert forall|i: int| 0 <= i < after.packets@.len() implies #[trigger] after.records()[i] == before.records().push(record)[i] by {
        if i < last {
            assert(frames_of(after.slots@, after.offset, after.packets@[i]) =~= frames_of(
                before.slots@,
                before.offset,
                before.packets@[i],
            ));
        } else {
            assert(frames_of(after.slots@, after.offset, after.packets@[i]) =~= frames);
        }
    }
    assert(after.records() =~= before.records().push(record));
    if after.slots@.len() > 0 && before.slots@.len() == 0 {
        assert(after.slots@[0] is Some);
    }
}

proof fn lemma_submitted<T: Copy>(before: &ArcSendJournal<T>, after: &ArcSendJournal<T>, index: int)
    requires
        before.wf(),
        0 <= index < before.packets@.len(),
        before.packets@[index].state is Pending,
        after.packets@[index].state is Flighting,
        after.packets@ == before.packets@.update(
            index,
            SentPacket { state: after.packets@[index].state, ..before.packets@[index] },
        ),
        timed(after.deadlines@),
        forall|entry: (u64, u64)|
            #![trigger after.deadlines@.contains(entry)]
            after.deadlines@.contains(entry) <==> before.deadlines@.contains(entry) || entry == (
                after.packets@[index].state->retrans_at,
                before.packets@[index].pn,
            ),
        after.offset == before.offset,
        after.slots@ == before.slots@,
        after.next_pn == before.next_pn,
        after.largest_acked == before.largest_acked,
        after.skipped_pns@ == before.skipped_pns@,
    ensures
        after.wf(),
        after.records() == before.records().update(
            index,
            SentRecord { state: after.packets@[index].state, ..before.records()[index] },
        ),
{
    let packet = before.packets@[index];
    let state = after.packets@[index].state;
    assert forall|i: int| #![trigger after.packets@[i]] 0 <= i < after.packets@.len() implies after.packets@[i].pn
        == before.packets@[i].pn && after.packets@[i].frame_start == before.packets@[i].frame_start
        && after.packets@[i].frame_end == before.packets@[i].frame_end && (i != index ==> after.packets@[i]
        == before.packets@[i]) by {}
    assert forall|at: int| #![trigger pinned(after.packets@, at)] pinned(after.packets@, at) == pinned(before.packets@, at) by {
        if pinned(after.packets@, at) {
            let i = choose|i: int|
                #![trigger after.packets@[i]]
                0 <= i < after.packets@.len() && after.packets@[i].frame_start <= at < after.packets@[i].frame_end;
            assert(before.packets@[i].frame_start <= at < before.packets@[i].frame_end);
        }
        if pinned(before.packets@, at) {
            let i = choose|i: int|
                #![trigger before.packets@[i]]
                0 <= i < before.packets@.len() && before.packets@[i].frame_start <= at < before.packets@[i].frame_end;
            assert(after.packets@[i].frame_start <= at < after.packets@[i].frame_end);
        }
    }
    assert forall|entry: (u64, u64)|
        #![trigger after.deadlines@.contains(entry)]
        after.deadlines@.contains(entry) <==> scheduled(after.packets@, entry) by {
        if scheduled(after.packets@, entry) {
            let i = choose|i: int|
                #![trigger after.packets@[i]]
                0 <= i < after.packets@.len() && after.packets@[i].pn == entry.1 && deadline(after.packets@[i].state)
                    == Some(entry.0);
            if i != index {
                assert(before.packets@[i].pn == entry.1);
                assert(scheduled(before.packets@, entry));
                assert(before.deadlines@.contains(entry));
            }
        }
        if after.deadlines@.contains(entry) {
            if entry == (state->retrans_at, packet.pn) {
                assert(after.packets@[index].pn == entry.1);
            } else {
                assert(before.deadlines@.contains(entry));
                assert(scheduled(before.packets@, entry));
                let j = choose|j: int|
                    #![trigger before.packets@[j]]
                    0 <= j < before.packets@.len() && before.packets@[j].pn == entry.1 && deadline(
                        before.packets@[j].state,
                    ) == Some(entry.0);
                assert(j != index);
                assert(after.packets@[j].pn == entry.1);
            }
        }
    }
    let record = SentRecord { state, ..before.records()[index] };
    assert forall|i: int| 0 <= i < after.packets@.len() implies #[trigger] after.records()[i] == before.records().update(
        index,
        record,
    )[i] by {
        assert(frames_of(after.slots@, after.offset, after.packets@[i]) =~= frames_of(
            before.slots@,
            before.offset,
            before.packets@[i],
        ));
    }
    assert(after.records() =~= before.records().update(index, record));
}

proof fn lemma_skipped<T: Copy>(
    before: &ArcSendJournal<T>,
    after: &ArcSendJournal<T>,
    index: int,
    skipped: Seq<u64>,
)
    requires
        before.consistent(),
        0 <= index < before.packets@.len(),
        after.packets@ == before.packets@.remove(index),
        after.records() == before.records().remove(index),
        after.frames_wf(),
        after.deadlines_wf(),
        after.next_pn == before.next_pn,
        after.largest_acked == before.largest_acked,
        ascending_with(before.skipped_pns@, skipped, before.packets@[index].pn),
        skipped.len() <= before.skipped_pns@.len() + 1,
        after.skipped_pns@ == if skipped.len() > MAX_SKIPPED_PNS {
            skipped.drop_first()
        } else {
            skipped
        },
    ensures
        after.consistent(),
{
    let pn = before.packets@[index].pn;
    let kept = after.skipped_pns@;
    assert forall|x: u64| kept.contains(x) implies #[trigger] skipped.contains(x) by {
        let k = choose|k: int| 0 <= k < kept.len() && kept[k] == x;
        if skipped.len() > MAX_SKIPPED_PNS {
            assert(skipped[k + 1] == x);
        }
    }
    assert forall|i: int| #![trigger kept[i]] 0 <= i < kept.len() implies kept[i] < after.next_pn by {
        assert(kept.contains(kept[i]));
        assert(skipped.contains(kept[i]));
        if kept[i] != pn {
            assert(before.skipped_pns@.contains(kept[i]));
            let k = choose|k: int| 0 <= k < before.skipped_pns@.len() && before.skipped_pns@[k] == kept[i];
            assert(before.skipped_pns@[k] < before.next_pn);
        }
    }
    assert forall|i: int| #![trigger after.packets@[i]] 0 <= i < after.packets@.len() implies !kept.contains(after.packets@[i].pn) by {
        let j = if i < index { i } else { i + 1 };
        assert(after.packets@[i] == before.packets@[j]);
        assert(before.packets@[j].pn != pn);
        assert(!before.skipped_pns@.contains(before.packets@[j].pn));
        if kept.contains(after.packets@[i].pn) {
            assert(skipped.contains(after.packets@[i].pn));
        }
    }
}


/// The next packet number is on no record and was never skipped: no number is given out twice.
pub proof fn next_number_is_fresh<T: Copy>(journal: &ArcSendJournal<T>)
    requires
        journal.wf(),
    ensures
        !journal.has(journal.next_pn),
        !journal.skipped_pns@.contains(journal.next_pn),
{
    if journal.skipped_pns@.contains(journal.next_pn) {
        let k = choose|k: int| 0 <= k < journal.skipped_pns@.len() && journal.skipped_pns@[k] == journal.next_pn;
        assert(journal.skipped_pns@[k] < journal.next_pn);
    }
}

/// An acknowledgement that comes again delivers nothing and changes no record.
pub proof fn duplicate_ack_delivers_nothing<T>(records: Seq<SentRecord<T>>, ack: &AckFrame)
    ensures
        unacked(unacked(records, ack), ack) == unacked(records, ack),
        acked_frames(unacked(records, ack), ack) == Seq::<T>::empty(),
        acked_generations(unacked(records, ack), ack) == Seq::<u64>::empty(),
    decreases records.len(),
{
    if records.len() > 0 {
        duplicate_ack_delivers_nothing(records.drop_last(), ack);
        if !ack.acks(records.last().pn as int) {
            let left = unacked(records, ack);
            assert(left.drop_last() =~= unacked(records.drop_last(), ack));
        }
    }
}

/// Reporting losses changes at most the state of a record: numbers, frames and generations stay.
pub(crate) proof fn lemma_lose_all<T>(records: Seq<SentRecord<T>>, pns: Seq<u64>)
    ensures
        lose_all(records, pns).0.len() == records.len(),
        forall|i: int|
            #![trigger lose_all(records, pns).0[i]]
            0 <= i < records.len() ==> lose_all(records, pns).0[i] == if pns.contains(records[i].pn) {
                lost_record(records[i])
            } else {
                records[i]
            },
    decreases pns.len(),
{
    if pns.len() > 0 {
        let rest = pns.drop_last();
        lemma_lose_all(records, rest);
        assert(pns =~= rest.push(pns.last()));
        assert forall|i: int|
            #![trigger lose_all(records, pns).0[i]]
            0 <= i < records.len() implies lose_all(records, pns).0[i] == if pns.contains(records[i].pn) {
            lost_record(records[i])
        } else {
            records[i]
        } by {
            let pn = records[i].pn;
            assert(lose_all(records, rest).0[i].pn == pn);
            if pns.contains(pn) && !rest.contains(pn) {
                let k = choose|k: int| 0 <= k < pns.len() && pns[k] == pn;
                if k < rest.len() {
                    assert(rest[k] == pn);
                }
            }
            if rest.contains(pn) {
                let k = choose|k: int| 0 <= k < rest.len() && rest[k] == pn;
                assert(pns[k] == pn);
            }
            if pn == pns.last() {
                assert(pns[pns.len() - 1] == pn);
            }
        }
    }
}

/// However often loss is reported, a packet's retention ends when its submission fixed it to,
/// and the packet keeps its number, its generation and its frames.
pub proof fn loss_never_restarts_retention<T>(records: Seq<SentRecord<T>>, pns: Seq<u64>, i: int)
    requires
        0 <= i < records.len(),
    ensures
        lose_all(records, pns).0.len() == records.len(),
        ({
            let before = records[i];
            let after = lose_all(records, pns).0[i];
            &&& after.pn == before.pn
            &&& after.generation == before.generation
            &&& after.frames == before.frames
            &&& match before.state {
                SentPacketState::Pending => after.state == before.state,
                SentPacketState::Retransmitted { .. } => after.state == before.state,
                SentPacketState::Flighting { expire_after, .. } => after.state == before.state || after.state
                    == (SentPacketState::Retransmitted { expire_after }),
            }
        }),
{
    lemma_lose_all(records, pns);
}

/// The frames of a packet are handed out for its loss at most once.
pub proof fn loss_is_reported_once<T>(records: Seq<SentRecord<T>>, pns: Seq<u64>, pn: u64)
    requires
        pns.contains(pn),
    ensures
        loss_frames(lose_all(records, pns).0, pn) == Seq::<T>::empty(),
{
    lemma_lose_all(records, pns);
    let left = lose_all(records, pns).0;
    assert forall|i: int| 0 <= i < left.len() && left[i].pn == pn implies !(#[trigger] left[i].state is Flighting) by {
        assert(records[i].pn == pn);
    }
}

pub(crate) proof fn lemma_due(deadlines: Seq<(u64, u64)>, now: u64, entry: (u64, u64))
    requires
        deadlines.contains(entry),
        entry.0 <= now,
    ensures
        due(deadlines, now).contains(entry.1),
    decreases deadlines.len(),
{
    let k = choose|k: int| 0 <= k < deadlines.len() && deadlines[k] == entry;
    let rest = due(deadlines.drop_last(), now);
    if k == deadlines.len() - 1 {
        assert(due(deadlines, now) == rest.push(entry.1));
        assert(due(deadlines, now)[rest.len() as int] == entry.1);
    } else {
        assert(deadlines.drop_last()[k] == entry);
        lemma_due(deadlines.drop_last(), now, entry);
        let j = choose|j: int| 0 <= j < rest.len() && rest[j] == entry.1;
        assert(due(deadlines, now)[j] == entry.1);
    }
}

pub(crate) proof fn lemma_unexpired<T>(records: Seq<SentRecord<T>>, now: u64, i: int)
    requires
        0 <= i < unexpired(records, now).len(),
    ensures
        records.contains(unexpired(records, now)[i]),
        !expired(unexpired(records, now)[i].state, now),
    decreases records.len(),
{
    let left = unexpired(records.drop_last(), now);
    if i < left.len() {
        lemma_unexpired(records.drop_last(), now, i);
        let k = choose|k: int| 0 <= k < records.drop_last().len() && records.drop_last()[k] == left[i];
        assert(records[k] == left[i]);
    } else {
        assert(records[records.len() - 1] == records.last());
    }
}

/// A tick leaves nothing due: every deadline that remains lies after it.
pub proof fn tick_leaves_nothing_due<T: Copy>(journal: &ArcSendJournal<T>, now: u64, i: int)
    requires
        journal.wf(),
        ({
            let records = lose_all(journal.records(), due(journal.deadlines@, now)).0;
            0 <= i < unexpired(records, now).len()
        }),
    ensures
        ({
            let records = lose_all(journal.records(), due(journal.deadlines@, now)).0;
            deadline(unexpired(records, now)[i].state) matches Some(at) ==> now < at
        }),
{
    let records = journal.records();
    let pns = due(journal.deadlines@, now);
    let left = lose_all(records, pns).0;
    lemma_lose_all(records, pns);
    lemma_unexpired(left, now, i);
    let k = choose|k: int| 0 <= k < left.len() && left[k] == unexpired(left, now)[i];
    if let SentPacketState::Flighting { retrans_at, .. } = left[k].state {
        if retrans_at <= now {
            let entry = (retrans_at, records[k].pn);
            assert(journal.packets@[k].pn == records[k].pn);
            assert(records[k].state == left[k].state);
            assert(deadline(journal.packets@[k].state) == Some(retrans_at));
            assert(scheduled(journal.packets@, entry));
            assert(journal.deadlines@.contains(entry));
            lemma_due(journal.deadlines@, now, entry);
        }
    }
}

/// A packet that was abandoned is not on record, and an acknowledgement that names it is refused
/// for as long as its number is among the latest skipped.
pub proof fn abandoned_packet_cannot_be_acknowledged<T: Copy>(
    before: &ArcSendJournal<T>,
    after: &ArcSendJournal<T>,
    pn: u64,
    frames: Seq<T>,
    ack: &AckFrame,
)
    requires
        before.wf(),
        after.wf(),
        before.has(pn),
        before.abandoned(after, pn, frames),
        before.skipped_pns@.len() < MAX_SKIPPED_PNS,
        ack.acks(pn as int),
    ensures
        after.acks_unsent(ack),
        !after.has(pn),
{
    let skipped = choose|skipped: Seq<u64>|
        {
            &&& #[trigger] ascending_with(before.skipped_pns@, skipped, pn)
            &&& after.skipped_pns@ == if skipped.len() > MAX_SKIPPED_PNS {
                skipped.drop_first()
            } else {
                skipped
            }
        };
    lemma_ascending_len(before.skipped_pns@, skipped, pn);
    assert(skipped.contains(pn));
    let k = choose|k: int| 0 <= k < skipped.len() && skipped[k] == pn;
    assert(after.skipped_pns@[k] == pn);
    assert(after.skipped_pns@.contains(pn));
}

proof fn lemma_ascending_len(before: Seq<u64>, after: Seq<u64>, value: u64)
    requires
        ascending_with(before, after, value),
    ensures
        after.len() <= before.len() + 1,
{
    assert(after.no_duplicates());
    after.unique_seq_to_set();
    let members = before.push(value);
    assert forall|x: u64| after.to_set().contains(x) implies #[trigger] members.to_set().contains(x) by {
        assert(after.contains(x));
        if x == value {
            assert(members[before.len() as int] == value);
        } else {
            let k = choose|k: int| 0 <= k < before.len() && before[k] == x;
            assert(members[k] == x);
        }
        assert(members.contains(x));
    }
    members.lemma_cardinality_of_set();
    vstd::set_lib::lemma_len_subset(after.to_set(), members.to_set());
}

/// The slots in use reach from the first frame still on record to the last frame stored: empty
/// slots count only behind an earlier packet that still holds frames.
pub proof fn slots_reach_from_the_first_live_frame<T: Copy>(journal: &ArcSendJournal<T>)
    requires
        journal.wf(),
        journal.slots@.len() > 0,
    ensures
        exists|i: int|
            #![trigger journal.packets@[i]]
            0 <= i < journal.packets@.len() && journal.packets@[i].frame_start == journal.offset
                && journal.packets@[i].frame_start < journal.packets@[i].frame_end,
{
    assert(journal.slots@[0] is Some);
    assert(pinned(journal.packets@, journal.offset + 0));
    let i = choose|i: int|
        #![trigger journal.packets@[i]]
        0 <= i < journal.packets@.len() && journal.packets@[i].frame_start <= journal.offset
            < journal.packets@[i].frame_end;
    assert(journal.packets@[i].frame_start == journal.offset);
}

/// Submitting or abandoning one packet leaves the others waiting.
pub proof fn others_keep_waiting<T: Copy>(before: &ArcSendJournal<T>, after: &ArcSendJournal<T>, pn: u64, other: u64)
    requires
        before.wf(),
        after.wf(),
        before.has(pn),
        before.awaits(other),
        other != pn,
        after.records() == before.records().remove(before.index_of(pn)) || exists|record: SentRecord<T>|
            #![trigger before.records().update(before.index_of(pn), record)]
            after.records() == before.records().update(before.index_of(pn), record) && record.pn == pn,
    ensures
        after.awaits(other),
{
    let index = before.index_of(pn);
    let j = before.index_of(other);
    assert(before.packets@[index].pn == pn);
    assert(before.packets@[j].pn == other);
    assert(after.packets@.len() == after.records().len());
    assert(before.packets@.len() == before.records().len());
    assert(before.records()[j].state == before.packets@[j].state);
    let k = if after.records() == before.records().remove(index) && j > index { j - 1 } else { j };
    assert(after.records()[k] == before.records()[j]);
    assert(after.packets@[k].pn == other);
    assert(after.packets@[k].state is Pending);
    let found = after.index_of(other);
    if found < k {
        assert(after.packets@[found].pn < after.packets@[k].pn);
    }
    if k < found {
        assert(after.packets@[k].pn < after.packets@[found].pn);
    }
}

/// A journal takes a packet exactly if it has fewer than 8192 on record, and at most 32768 slots with its
/// frames. It remembers the latest 256 numbers that were skipped.
pub proof fn journal_is_bounded<T: Copy>(journal: ArcSendJournal<T>, count: nat)
    requires
        journal.wf(),
    ensures
        journal.is_full(count) <==> journal.records().len() >= 8192 || journal.slots@.len() + count > 32768,
        journal.records().len() <= 8192,
        journal.skipped_pns@.len() <= 256,
        MAX_SKIPPED_PNS == 256,
{
}

/// A packet waits to be sent exactly if it is on record as pending.
pub proof fn awaited_packet_is_pending<T: Copy>(journal: ArcSendJournal<T>, index: int)
    requires
        journal.wf(),
        0 <= index < journal.packets@.len(),
    ensures
        journal.has(journal.packets@[index].pn),
        journal.awaits(journal.packets@[index].pn) <==> journal.records()[index].state is Pending,
{
    let pn = journal.packets@[index].pn;
    assert(journal.has(pn));
    let found = journal.index_of(pn);
    assert(journal.packets@[found].pn == pn);
    if found < index {
        assert(journal.packets@[found].pn < journal.packets@[index].pn);
    }
    if index < found {
        assert(journal.packets@[index].pn < journal.packets@[found].pn);
    }
}

} // verus!
