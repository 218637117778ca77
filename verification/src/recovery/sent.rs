//! Feedback on the reliable frames of sent packets.
use vstd::prelude::*;

use crate::base::ack::AckFrame;
use crate::base::error::{ErrorKind, QuicError};
use crate::base::packet_number::PacketNumber;
use crate::base::varint::VARINT_MAX;

verus! {

/// State of a sent packet whose frames need feedback.
#[derive(Clone, Copy, Debug, PartialEq, Eq, Structural)]
pub enum SentPktState {
    Flighting { nframes: usize, sent_time: u64, expire_time: u64, retran_time: u64 },
    Retransmitted { nframes: usize, sent_time: u64, expire_time: u64 },
    Acked { nframes: usize, sent_time: u64, expire_time: u64 },
}

impl SentPktState {
    pub open spec fn count(self) -> nat {
        match self {
            SentPktState::Flighting { nframes, .. } => nframes as nat,
            SentPktState::Retransmitted { nframes, .. } => nframes as nat,
            SentPktState::Acked { nframes, .. } => nframes as nat,
        }
    }

    /// The state once acknowledged.
    pub open spec fn acked(self) -> SentPktState {
        match self {
            SentPktState::Flighting { nframes, sent_time, expire_time, .. } => SentPktState::Acked {
                nframes,
                sent_time,
                expire_time,
            },
            SentPktState::Retransmitted { nframes, sent_time, expire_time } => SentPktState::Acked {
                nframes,
                sent_time,
                expire_time,
            },
            SentPktState::Acked { .. } => self,
        }
    }

    /// The state once taken for lost.
    pub open spec fn lost(self) -> SentPktState {
        match self {
            SentPktState::Flighting { nframes, sent_time, expire_time, .. } => SentPktState::Retransmitted {
                nframes,
                sent_time,
                expire_time,
            },
            _ => self,
        }
    }

    /// Whether the packet is overdue and its frames were not yet sent again.
    pub open spec fn overdue(self, now: u64) -> bool {
        self matches SentPktState::Flighting { retran_time, .. } && retran_time < now
    }

    /// Whether the packet must stay on record.
    pub open spec fn remains(self, now: u64) -> bool {
        match self {
            SentPktState::Flighting { .. } => true,
            SentPktState::Retransmitted { expire_time, .. } => expire_time > now,
            SentPktState::Acked { .. } => false,
        }
    }

    pub fn new(nframes: usize, sent_time: u64, retran_time: u64, expire_time: u64) -> (state: SentPktState)
        ensures
            state == (SentPktState::Flighting { nframes, sent_time, expire_time, retran_time }),
    {
        SentPktState::Flighting { nframes, sent_time, expire_time, retran_time }
    }

    pub fn nframes(&self) -> (count: usize)
        ensures
            count == self.count(),
    {
        match *self {
            SentPktState::Flighting { nframes, .. } => nframes,
            SentPktState::Retransmitted { nframes, .. } => nframes,
            SentPktState::Acked { nframes, .. } => nframes,
        }
    }

    /// Acknowledges the packet; returns how many frames that is news for.
    pub fn be_acked(&mut self) -> (count: usize)
        ensures
            *final(self) == old(self).acked(),
            count == if *old(self) is Acked { 0 } else { old(self).count() },
    {
        match *self {
            SentPktState::Flighting { nframes, sent_time, expire_time, .. } => {
                *self = SentPktState::Acked { nframes, sent_time, expire_time };
                nframes
            },
            SentPktState::Retransmitted { nframes, sent_time, expire_time } => {
                *self = SentPktState::Acked { nframes, sent_time, expire_time };
                nframes
            },
            SentPktState::Acked { .. } => 0,
        }
    }

    /// Takes the packet for lost; returns how many frames may have to be sent again.
    pub fn maybe_lost(&mut self) -> (count: usize)
        ensures
            *final(self) == old(self).lost(),
            count == if *old(self) is Acked { 0 } else { old(self).count() },
    {
        match *self {
            SentPktState::Flighting { nframes, sent_time, expire_time, .. } => {
                *self = SentPktState::Retransmitted { nframes, sent_time, expire_time };
                nframes
            },
            SentPktState::Retransmitted { nframes, .. } => nframes,
            SentPktState::Acked { .. } => 0,
        }
    }

    /// Takes an overdue packet for lost, and says whether it was overdue.
    pub fn should_retransmit_after(&mut self, now: u64) -> (overdue: bool)
        ensures
            overdue == old(self).overdue(now),
            *final(self) == if overdue { old(self).lost() } else { *old(self) },
    {
        match *self {
            SentPktState::Flighting { nframes, sent_time, retran_time, expire_time } => {
                if retran_time < now {
                    *self = SentPktState::Retransmitted { nframes, sent_time, expire_time };
                    true
                } else {
                    false
                }
            },
            _ => false,
        }
    }

    pub fn should_remain_after(&self, now: u64) -> (remains: bool)
        ensures
            remains == self.remains(now),
    {
        match *self {
            SentPktState::Flighting { .. } => true,
            SentPktState::Retransmitted { expire_time, .. } => expire_time > now,
            SentPktState::Acked { .. } => false,
        }
    }
}

#[derive(Clone, Copy, Debug, PartialEq, Eq, Structural)]
pub struct SentPacketRecord {
    pub packet_number: u64,
    pub state: SentPktState,
}

/// How many frames the first `count` packets hold.
pub open spec fn frames_before(packets: Seq<SentPacketRecord>, count: int) -> nat
    decreases count,
{
    if count <= 0 {
        0
    } else {
        frames_before(packets, count - 1) + packets[count - 1].state.count()
    }
}

/// How many leading packets need not stay on record.
pub open spec fn finished(packets: Seq<SentPacketRecord>, now: u64) -> int
    decreases packets.len(),
{
    if packets.len() == 0 || packets[0].state.remains(now) {
        0
    } else {
        1 + finished(packets.drop_first(), now)
    }
}

/// The reliable frames of sent packets, and what became of them.
///
/// Numbers come from `next_pn`, but only packets with reliable frames are on record, so a packet
/// that stays long does not hold back records of those that carry nothing to recover.
#[derive(Debug)]
pub struct ArcSentJournal<T> {
    /// The frames of the packets on record, packet by packet.
    pub queue: Vec<T>,
    pub sent_packets: Vec<SentPacketRecord>,
    pub next_pn: u64,
    pub largest_acked_pktno: u64,
}

impl<T: Copy> ArcSentJournal<T> {
    pub open spec fn wf(&self) -> bool {
        &&& self.next_pn <= VARINT_MAX + 1
        &&& self.largest_acked_pktno <= self.next_pn
        &&& self.queue@.len() == frames_before(self.sent_packets@, self.sent_packets@.len() as int)
        &&& forall|i: int|
            #![trigger self.sent_packets@[i]]
            0 <= i < self.sent_packets@.len() ==> self.sent_packets@[i].packet_number < self.next_pn
        &&& forall|i: int, j: int|
            #![trigger self.sent_packets@[i], self.sent_packets@[j]]
            0 <= i < j < self.sent_packets@.len() ==> self.sent_packets@[i].packet_number
                < self.sent_packets@[j].packet_number
    }

    pub open spec fn has(&self, pn: u64) -> bool {
        exists|i: int|
            #![trigger self.sent_packets@[i]]
            0 <= i < self.sent_packets@.len() && self.sent_packets@[i].packet_number == pn
    }

    pub open spec fn index_of(&self, pn: u64) -> int {
        choose|i: int|
            #![trigger self.sent_packets@[i]]
            0 <= i < self.sent_packets@.len() && self.sent_packets@[i].packet_number == pn
    }

    /// The frames of the packet at `i`.
    pub open spec fn frames_at(&self, i: int) -> Seq<T> {
        self.queue@.subrange(
            frames_before(self.sent_packets@, i) as int,
            frames_before(self.sent_packets@, i + 1) as int,
        )
    }

    /// The packets with the one at `index` in a new state.
    pub open spec fn with_state(&self, index: int, state: SentPktState) -> Seq<SentPacketRecord> {
        self.sent_packets@.update(index, SentPacketRecord { state, ..self.sent_packets@[index] })
    }

    /// Everything but the packets is that of `other`.
    pub open spec fn same_numbers(&self, other: &Self) -> bool {
        self.queue@ == other.queue@ && self.next_pn == other.next_pn && self.largest_acked_pktno
            == other.largest_acked_pktno
    }

    /// What the journal knows of a packet on record: its state and its frames.
    pub open spec fn entry(&self, pn: u64) -> Option<(SentPktState, Seq<T>)> {
        if self.has(pn) {
            let index = self.index_of(pn);
            Some((self.sent_packets@[index].state, self.frames_at(index)))
        } else {
            None
        }
    }

    /// What building a packet, sent at `sent_time`, with these reliable frames makes of the journal.
    pub open spec fn takes_in(
        &self,
        after: &Self,
        frames: Seq<T>,
        sent_time: u64,
        retran_time: u64,
        expire_time: u64,
    ) -> bool {
        &&& after.next_pn == self.next_pn + 1
        &&& after.largest_acked_pktno == self.largest_acked_pktno
        &&& after.queue@ == self.queue@ + frames
        &&& after.sent_packets@ == if frames.len() == 0 {
            self.sent_packets@
        } else {
            self.sent_packets@.push(
                SentPacketRecord {
                    packet_number: self.next_pn,
                    state: SentPktState::Flighting {
                        nframes: frames.len() as usize,
                        sent_time,
                        expire_time,
                        retran_time,
                    },
                },
            )
        }
    }

    /// What the acknowledgement of `pn` makes of the journal, and the frames that it is news for.
    pub open spec fn takes_acked(&self, after: &Self, pn: u64, frames: Seq<T>) -> bool {
        &&& after.same_numbers(self)
        &&& if self.has(pn) {
            let index = self.index_of(pn);
            let state = self.sent_packets@[index].state;
            &&& after.sent_packets@ == self.with_state(index, state.acked())
            &&& frames == if state is Acked { Seq::empty() } else { self.frames_at(index) }
        } else {
            after.sent_packets@ == self.sent_packets@ && frames == Seq::<T>::empty()
        }
    }

    /// What the possible loss of `pn` makes of the journal, and the frames that may have to be sent
    /// again.
    pub open spec fn takes_lost(&self, after: &Self, pn: u64, frames: Seq<T>) -> bool {
        &&& after.same_numbers(self)
        &&& if self.has(pn) {
            let index = self.index_of(pn);
            let state = self.sent_packets@[index].state;
            &&& after.sent_packets@ == self.with_state(index, state.lost())
            &&& frames == if state is Acked { Seq::empty() } else { self.frames_at(index) }
        } else {
            after.sent_packets@ == self.sent_packets@ && frames == Seq::<T>::empty()
        }
    }

    /// What is left once the leading packets that need not stay are forgotten.
    pub open spec fn forgets(&self, after: &Self, now: u64) -> bool {
        let count = finished(self.sent_packets@, now);
        &&& 0 <= count <= self.sent_packets@.len()
        &&& after.sent_packets@ == self.sent_packets@.skip(count)
        &&& after.queue@ == self.queue@.skip(frames_before(self.sent_packets@, count) as int)
        &&& after.next_pn == self.next_pn
        &&& after.largest_acked_pktno == self.largest_acked_pktno
    }

    /// What taking overdue packets for lost makes of the journal, and the frames to be sent again: those
    /// that have to stay on record, were overtaken, and are overdue.
    pub open spec fn retransmits(&self, after: &Self, now: u64, frames: Seq<T>) -> bool {
        let packets = self.sent_packets@;
        let count = finished(packets, now);
        let left = packets.skip(count);
        let queue = self.queue@.skip(frames_before(packets, count) as int);
        let largest = self.largest_acked_pktno;
        &&& 0 <= count <= packets.len()
        &&& after.queue@ == queue
        &&& after.sent_packets@ == Seq::new(left.len(), |i: int| overdue_taken(left[i], largest, now))
        &&& frames == overdue_frames(left, queue, largest, now, left.len() as int)
        &&& after.next_pn == self.next_pn
        &&& after.largest_acked_pktno == largest
    }

    pub fn with_capacity(capacity: usize) -> (journal: Self)
        requires
            capacity * 4 <= usize::MAX,
        ensures
            journal.wf(),
            journal.queue@ == Seq::<T>::empty(),
            journal.sent_packets@ == Seq::<SentPacketRecord>::empty(),
            journal.next_pn == 0,
            journal.largest_acked_pktno == 0,
    {
        ArcSentJournal {
            queue: Vec::with_capacity(capacity * 4),
            sent_packets: Vec::with_capacity(capacity),
            next_pn: 0,
            largest_acked_pktno: 0,
        }
    }

    /// Where the record of `pn` stands, and where its frames begin.
    fn record_index_and_offset(&self, pn: u64) -> (found: Option<(usize, usize)>)
        requires
            self.wf(),
        ensures
            found is Some <==> self.has(pn),
            found matches Some((index, offset)) ==> index < self.sent_packets@.len()
                && self.sent_packets@[index as int].packet_number == pn && index == self.index_of(pn) && offset
                == frames_before(self.sent_packets@, index as int),
    {
        let mut offset: usize = 0;
        let mut index: usize = 0;
        while index < self.sent_packets.len()
            invariant
                self.wf(),
                index <= self.sent_packets@.len(),
                offset == frames_before(self.sent_packets@, index as int),
                forall|i: int|
                    #![trigger self.sent_packets@[i]]
                    0 <= i < index ==> self.sent_packets@[i].packet_number < pn,
            decreases self.sent_packets@.len() - index,
        {
            let record: SentPacketRecord = self.sent_packets[index];
            proof {
                lemma_frames_monotone(self.sent_packets@, index + 1, self.sent_packets@.len() as int);
                assert(self.queue@.len() == self.queue.len());
            }
            if record.packet_number == pn {
                assert(self.sent_packets@[index as int].packet_number == pn);
                return Some((index, offset));
            }
            if record.packet_number > pn {
                assert forall|i: int|
                    #![trigger self.sent_packets@[i]]
                    0 <= i < self.sent_packets@.len() implies self.sent_packets@[i].packet_number != pn by {
                    if i > index {
                        assert(self.sent_packets@[index as int].packet_number < self.sent_packets@[i].packet_number);
                    }
                }
                return None;
            }
            offset = offset + record.state.nframes();
            index = index + 1;
        }
        None
    }

    fn copy_frames(&self, offset: usize, len: usize) -> (frames: Vec<T>)
        requires
            offset + len <= self.queue@.len(),
        ensures
            frames@ == self.queue@.subrange(offset as int, offset + len),
    {
        let mut frames: Vec<T> = Vec::new();
        let mut index: usize = 0;
        while index < len
            invariant
                offset + len <= self.queue@.len(),
                index <= len,
                frames@ == self.queue@.subrange(offset as int, offset + index),
            decreases len - index,
        {
            assert(self.queue@.len() == self.queue.len());
            frames.push(self.queue[offset + index]);
            index = index + 1;
            assert(frames@ =~= self.queue@.subrange(offset as int, offset + index));
        }
        frames
    }

    /// Notes the largest number a peer acknowledges. One that was not sent yet is a violation.
    pub fn update_largest(&mut self, ack_frame: &AckFrame) -> (result: Result<(), QuicError>)
        requires
            old(self).wf(),
        ensures
            final(self).wf(),
            match result {
                Ok(()) => {
                    &&& ack_frame.largest.value < old(self).next_pn
                    &&& final(self).sent_packets@ == old(self).sent_packets@
                    &&& final(self).queue@ == old(self).queue@
                    &&& final(self).next_pn == old(self).next_pn
                    &&& final(self).largest_acked_pktno == if old(self).largest_acked_pktno
                        < ack_frame.largest.value {
                        ack_frame.largest.value
                    } else {
                        old(self).largest_acked_pktno
                    }
                },
                Err(error) => {
                    &&& ack_frame.largest.value >= old(self).next_pn
                    &&& *final(self) == *old(self)
                    &&& error.says(
                        ErrorKind::ProtocolViolation,
                        "ACK frame largest PN is not smaller than the next PN to send"@,
                    )
                },
            },
    {
        if ack_frame.largest.value >= self.next_pn {
            return Err(
                QuicError::new(
                    ErrorKind::ProtocolViolation,
                    "ACK frame largest PN is not smaller than the next PN to send",
                ),
            );
        }
        if self.largest_acked_pktno < ack_frame.largest.value {
            self.largest_acked_pktno = ack_frame.largest.value;
        }
        Ok(())
    }

    /// Notes that `pn` was acknowledged; returns its frames the first time.
    pub fn on_packet_acked(&mut self, pn: u64) -> (frames: Vec<T>)
        requires
            old(self).wf(),
        ensures
            final(self).wf(),
            old(self).takes_acked(final(self), pn, frames@),
    {
        match self.record_index_and_offset(pn) {
            Some((index, offset)) => {
                let ghost before = self.sent_packets@;
                let mut record: SentPacketRecord = self.sent_packets[index];
                let len: usize = record.state.be_acked();
                self.sent_packets.set(index, record);
                proof {
                    lemma_frames_same_counts(before, self.sent_packets@, before.len() as int);
                    lemma_frames_monotone(before, index + 1, before.len() as int);
                    assert(self.queue@.subrange(offset as int, offset as int) =~= Seq::<T>::empty());
                }
                self.copy_frames(offset, len)
            },
            None => Vec::new(),
        }
    }

    /// Notes that `pn` may be lost; returns its frames unless it was acknowledged.
    pub fn may_loss_packet(&mut self, pn: u64) -> (frames: Vec<T>)
        requires
            old(self).wf(),
        ensures
            final(self).wf(),
            old(self).takes_lost(final(self), pn, frames@),
    {
        match self.record_index_and_offset(pn) {
            Some((index, offset)) => {
                let ghost before = self.sent_packets@;
                let mut record: SentPacketRecord = self.sent_packets[index];
                let len: usize = record.state.maybe_lost();
                self.sent_packets.set(index, record);
                proof {
                    lemma_frames_same_counts(before, self.sent_packets@, before.len() as int);
                    lemma_frames_monotone(before, index + 1, before.len() as int);
                    assert(self.queue@.subrange(offset as int, offset as int) =~= Seq::<T>::empty());
                }
                self.copy_frames(offset, len)
            },
            None => Vec::new(),
        }
    }

    /// Forgets the leading packets that need not stay on record, with their frames.
    pub fn resize(&mut self, now: u64)
        requires
            old(self).wf(),
        ensures
            final(self).wf(),
            old(self).forgets(final(self), now),
    {
        let ghost before = *self;
        let ghost packets = self.sent_packets@;
        let mut records: usize = 0;
        let mut frames: usize = 0;
        assert(packets.skip(0) =~= packets);
        while records < self.sent_packets.len() && !self.sent_packets[records].state.should_remain_after(now)
            invariant
                *self == before,
                self.wf(),
                packets == self.sent_packets@,
                records <= packets.len(),
                frames == frames_before(packets, records as int),
                finished(packets, now) == records + finished(packets.skip(records as int), now),
            decreases packets.len() - records,
        {
            proof {
                lemma_frames_monotone(packets, records + 1, packets.len() as int);
                assert(packets.skip(records as int).drop_first() =~= packets.skip(records + 1));
                assert(self.queue@.len() == self.queue.len());
            }
            frames = frames + self.sent_packets[records].state.nframes();
            records = records + 1;
        }
        assert(finished(packets.skip(records as int), now) == 0);
        proof {
            lemma_frames_monotone(packets, records as int, packets.len() as int);
            lemma_frames_skip(packets, records as int, packets.len() - records);
        }
        let rest: Vec<SentPacketRecord> = self.sent_packets.split_off(records);
        self.sent_packets = rest;
        let rest: Vec<T> = self.queue.split_off(frames);
        self.queue = rest;
        assert(self.sent_packets@ =~= packets.skip(records as int));
        assert(self.queue@ =~= before.queue@.skip(frames as int));
    }

    /// Takes for lost every overdue packet below the largest acknowledged number; returns their
    /// frames by ascending packet number.
    pub fn fast_retransmit(&mut self, now: u64) -> (frames: Vec<T>)
        requires
            old(self).wf(),
        ensures
            final(self).wf(),
            old(self).retransmits(final(self), now, frames@),
    {
        self.resize(now);
        let ghost left = self.sent_packets@;
        let ghost queue = self.queue@;
        let mut frames: Vec<T> = Vec::new();
        let mut offset: usize = 0;
        let mut index: usize = 0;
        let largest: u64 = self.largest_acked_pktno;
        while index < self.sent_packets.len() && self.sent_packets[index].packet_number < largest
            invariant
                self.queue@ == queue,
                self.next_pn == old(self).next_pn,
                self.largest_acked_pktno == largest,
                largest <= self.next_pn <= VARINT_MAX + 1,
                self.sent_packets@.len() == left.len(),
                index <= left.len(),
                queue.len() == frames_before(left, left.len() as int),
                offset == frames_before(left, index as int),
                forall|i: int|
                    #![trigger self.sent_packets@[i]]
                    0 <= i < left.len() ==> self.sent_packets@[i] == if i < index {
                        overdue_taken(left[i], largest, now)
                    } else {
                        left[i]
                    },
                forall|i: int| #![trigger left[i]] 0 <= i < index ==> left[i].packet_number < largest,
                frames@ == overdue_frames(left, queue, largest, now, index as int),
            decreases left.len() - index,
        {
            proof {
                lemma_frames_monotone(left, index + 1, left.len() as int);
                assert(self.queue@.len() == self.queue.len());
            }
            let mut record: SentPacketRecord = self.sent_packets[index];
            let end: usize = offset + record.state.nframes();
            if record.state.should_retransmit_after(now) {
                let mut taken: Vec<T> = self.copy_frames(offset, end - offset);
                frames.append(&mut taken);
                self.sent_packets.set(index, record);
            }
            offset = end;
            index = index + 1;
        }
        proof {
            assert forall|i: int| index <= i < left.len() implies #[trigger] left[i].packet_number >= largest by {
                if i > index {
                    assert(left[index as int].packet_number < left[i].packet_number);
                }
            }
            lemma_overdue_beyond(left, queue, largest, now, index as int, left.len() as int);
            assert(self.sent_packets@ =~= Seq::new(left.len(), |i: int| overdue_taken(left[i], largest, now)));
            lemma_frames_same_counts(left, self.sent_packets@, left.len() as int);
        }
        frames
    }

    /// Starts a packet with the next number.
    pub fn new_packet(&self) -> (packet: NewPacketGuard<T>)
        requires
            self.wf(),
            self.next_pn <= VARINT_MAX,
        ensures
            packet.packet_number == self.next_pn,
            packet.largest_acked == self.largest_acked_pktno,
            packet.frames@ == Seq::<T>::empty(),
            !packet.trivial,
    {
        NewPacketGuard {
            trivial: false,
            packet_number: self.next_pn,
            largest_acked: self.largest_acked_pktno,
            frames: Vec::new(),
        }
    }
}

/// A packet after overdue ones below `largest` were taken for lost.
pub open spec fn overdue_taken(record: SentPacketRecord, largest: u64, now: u64) -> SentPacketRecord {
    if record.packet_number < largest && record.state.overdue(now) {
        SentPacketRecord { state: record.state.lost(), ..record }
    } else {
        record
    }
}

/// The frames of the overdue packets below `largest` among the first `count`.
pub open spec fn overdue_frames<T>(
    packets: Seq<SentPacketRecord>,
    queue: Seq<T>,
    largest: u64,
    now: u64,
    count: int,
) -> Seq<T>
    decreases count,
{
    if count <= 0 {
        Seq::empty()
    } else {
        let before = overdue_frames(packets, queue, largest, now, count - 1);
        let record = packets[count - 1];
        if record.packet_number < largest && record.state.overdue(now) {
            before + queue.subrange(
                frames_before(packets, count - 1) as int,
                frames_before(packets, count) as int,
            )
        } else {
            before
        }
    }
}

proof fn lemma_overdue_beyond<T>(
    packets: Seq<SentPacketRecord>,
    queue: Seq<T>,
    largest: u64,
    now: u64,
    from: int,
    to: int,
)
    requires
        0 <= from <= to <= packets.len(),
        forall|i: int| #![trigger packets[i]] from <= i < to ==> packets[i].packet_number >= largest,
    ensures
        overdue_frames(packets, queue, largest, now, to) == overdue_frames(packets, queue, largest, now, from),
    decreases to - from,
{
    if from < to {
        lemma_overdue_beyond(packets, queue, largest, now, from, to - 1);
        assert(packets[to - 1].packet_number >= largest);
    }
}

proof fn lemma_frames_monotone(packets: Seq<SentPacketRecord>, low: int, high: int)
    requires
        0 <= low <= high,
    ensures
        frames_before(packets, low) <= frames_before(packets, high),
    decreases high - low,
{
    if low < high {
        lemma_frames_monotone(packets, low, high - 1);
    }
}

proof fn lemma_frames_same_counts(left: Seq<SentPacketRecord>, right: Seq<SentPacketRecord>, count: int)
    requires
        count <= left.len(),
        left.len() == right.len(),
        forall|i: int| #![trigger right[i]] 0 <= i < left.len() ==> left[i].state.count() == right[i].state.count(),
    ensures
        frames_before(left, count) == frames_before(right, count),
    decreases count,
{
    if count > 0 {
        lemma_frames_same_counts(left, right, count - 1);
        assert(left[count - 1].state.count() == right[count - 1].state.count());
    }
}

proof fn lemma_frames_skip(packets: Seq<SentPacketRecord>, skipped: int, count: int)
    requires
        0 <= skipped,
        0 <= count,
        skipped + count <= packets.len(),
    ensures
        frames_before(packets.skip(skipped), count) + frames_before(packets, skipped) == frames_before(
            packets,
            skipped + count,
        ),
    decreases count,
{
    if count > 0 {
        lemma_frames_skip(packets, skipped, count - 1);
        assert(packets.skip(skipped)[count - 1] == packets[skipped + count - 1]);
    }
}

/// A packet being put together: it bears a number and gathers frames, but the journal learns of
/// it only when it is built. One that is dropped leaves no trace, and its number can be used
/// again.
#[derive(Debug)]
pub struct NewPacketGuard<T> {
    pub trivial: bool,
    pub packet_number: u64,
    pub largest_acked: u64,
    pub frames: Vec<T>,
}

impl<T: Copy> NewPacketGuard<T> {
    /// The packet's number, whole and as it goes on the wire.
    pub fn pn(&self) -> (result: (u64, PacketNumber))
        requires
            self.largest_acked <= self.packet_number,
            2 * (self.packet_number - self.largest_acked) < 0x1_0000_0000,
        ensures
            result == (
                self.packet_number,
                PacketNumber::encoded(self.packet_number, self.largest_acked),
            ),
    {
        (self.packet_number, PacketNumber::encode(self.packet_number, self.largest_acked))
    }

    /// Notes that the packet holds something that needs no recovery.
    pub fn record_trivial(&mut self)
        ensures
            final(self).trivial,
            final(self).packet_number == old(self).packet_number,
            final(self).largest_acked == old(self).largest_acked,
            final(self).frames@ == old(self).frames@,
    {
        self.trivial = true;
    }

    pub fn record_frame(&mut self, frame: T)
        ensures
            final(self).frames@ == old(self).frames@.push(frame),
            final(self).trivial == old(self).trivial,
            final(self).packet_number == old(self).packet_number,
            final(self).largest_acked == old(self).largest_acked,
    {
        self.frames.push(frame);
    }

    /// Puts the packet, sent at `now`, on record if it has reliable frames, and uses up its
    /// number.
    pub fn build_with_time(
        self,
        journal: &mut ArcSentJournal<T>,
        now: u64,
        retran_timeout: u64,
        expire_timeout: u64,
    )
        requires
            old(journal).wf(),
            self.packet_number == old(journal).next_pn <= VARINT_MAX,
            self.trivial || self.frames@.len() > 0,
            old(journal).queue@.len() + self.frames@.len() <= usize::MAX,
            self.frames@.len() > 0 ==> now + retran_timeout <= u64::MAX && now + expire_timeout <= u64::MAX,
        ensures
            final(journal).wf(),
            old(journal).takes_in(
                final(journal),
                self.frames@,
                now,
                (now + retran_timeout) as u64,
                (now + expire_timeout) as u64,
            ),
    {
        let nframes: usize = self.frames.len();
        let mut frames: Vec<T> = self.frames;
        let ghost before = journal.sent_packets@;
        if nframes > 0 {
            journal.sent_packets.push(
                SentPacketRecord {
                    packet_number: self.packet_number,
                    state: SentPktState::new(nframes, now, now + retran_timeout, now + expire_timeout),
                },
            );
            proof {
                assert(journal.sent_packets@.drop_last() =~= before);
                lemma_frames_prefix(before, journal.sent_packets@, before.len() as int);
            }
        }
        journal.queue.append(&mut frames);
        journal.next_pn = journal.next_pn + 1;
    }

    /// Uses up the number of a packet without reliable frames.
    pub fn build_trivial(self, journal: &mut ArcSentJournal<T>)
        requires
            old(journal).wf(),
            self.packet_number == old(journal).next_pn <= VARINT_MAX,
            self.trivial,
            self.frames@.len() == 0,
        ensures
            final(journal).wf(),
            old(journal).takes_in(final(journal), Seq::empty(), 0, 0, 0),
    {
        journal.next_pn = journal.next_pn + 1;
        assert(journal.queue@ =~= old(journal).queue@ + Seq::empty());
    }
}

proof fn lemma_frames_prefix(shorter: Seq<SentPacketRecord>, longer: Seq<SentPacketRecord>, count: int)
    requires
        count <= shorter.len() <= longer.len(),
        forall|i: int| #![trigger longer[i]] 0 <= i < shorter.len() ==> shorter[i] == longer[i],
    ensures
        frames_before(shorter, count) == frames_before(longer, count),
    decreases count,
{
    if count > 0 {
        lemma_frames_prefix(shorter, longer, count - 1);
        assert(shorter[count - 1] == longer[count - 1]);
    }
}

/// A packet is acknowledged once: from then on neither an acknowledgement nor a loss hands out
/// its frames, and it need not stay on record.
pub proof fn acknowledged_packet_is_settled(state: SentPktState, now: u64)
    ensures
        state.acked() is Acked,
        state.acked().acked() == state.acked(),
        state.acked().lost() == state.acked(),
        !state.acked().overdue(now),
        !state.acked().remains(now),
{
}

/// Feedback never changes how many frames a packet has, when it was sent or when it expires.
pub proof fn feedback_keeps_the_packet(state: SentPktState)
    ensures
        state.acked().count() == state.count(),
        state.lost().count() == state.count(),
        !(state is Acked) ==> match (state, state.lost()) {
            (
                SentPktState::Flighting { sent_time, expire_time, .. },
                SentPktState::Retransmitted { sent_time: after, expire_time: until, .. },
            ) => sent_time == after && expire_time == until,
            (before, after) => before == after,
        },
{
}

proof fn lemma_entry<T: Copy>(journal: ArcSentJournal<T>, index: int)
    requires
        journal.wf(),
        0 <= index < journal.sent_packets@.len(),
    ensures
        ({
            let record = journal.sent_packets@[index];
            journal.entry(record.packet_number) == Some((record.state, journal.frames_at(index)))
        }),
{
    let pn = journal.sent_packets@[index].packet_number;
    assert(journal.has(pn));
    let found = journal.index_of(pn);
    assert(journal.sent_packets@[found].packet_number == pn);
    if found < index {
        assert(journal.sent_packets@[found].packet_number < journal.sent_packets@[index].packet_number);
    }
    if index < found {
        assert(journal.sent_packets@[index].packet_number < journal.sent_packets@[found].packet_number);
    }
}

proof fn lemma_finished(packets: Seq<SentPacketRecord>, now: u64, index: int)
    requires
        0 <= index < finished(packets, now),
    ensures
        index < packets.len(),
        !packets[index].state.remains(now),
    decreases packets.len(),
{
    if index > 0 {
        lemma_finished(packets.drop_first(), now, index - 1);
    }
}

/// Whether a journal holds the packets of another from `count` on, with their frames, whatever became
/// of them.
spec fn continues<T: Copy>(before: ArcSentJournal<T>, after: ArcSentJournal<T>, count: int) -> bool {
    &&& 0 <= count <= before.sent_packets@.len()
    &&& after.sent_packets@.len() == before.sent_packets@.len() - count
    &&& after.queue@ == before.queue@.skip(frames_before(before.sent_packets@, count) as int)
    &&& forall|i: int|
        #![trigger after.sent_packets@[i]]
        0 <= i < after.sent_packets@.len() ==> after.sent_packets@[i].packet_number == before.sent_packets@[count
            + i].packet_number && after.sent_packets@[i].state.count() == before.sent_packets@[count + i].state.count()
}

proof fn lemma_continues<T: Copy>(before: ArcSentJournal<T>, after: ArcSentJournal<T>, count: int, pn: u64)
    requires
        before.wf(),
        after.wf(),
        continues(before, after, count),
    ensures
        match before.entry(pn) {
            None => after.entry(pn) is None,
            Some((_, frames)) => {
                let index = before.index_of(pn);
                if index < count {
                    after.entry(pn) is None
                } else {
                    after.entry(pn) == Some((after.sent_packets@[index - count].state, frames))
                }
            },
        },
{
    let packets = before.sent_packets@;
    let left = packets.skip(count);
    if before.has(pn) {
        let index = before.index_of(pn);
        assert(packets[index].packet_number == pn);
        lemma_entry(before, index);
        if index >= count {
            let at = index - count;
            assert(after.sent_packets@[at].packet_number == pn);
            lemma_entry(after, at);
            assert forall|i: int| #![trigger after.sent_packets@[i]] 0 <= i < left.len() implies left[i].state.count()
                == after.sent_packets@[i].state.count() by {
                assert(left[i] == packets[count + i]);
            }
            lemma_frames_same_counts(left, after.sent_packets@, at);
            lemma_frames_same_counts(left, after.sent_packets@, at + 1);
            lemma_frames_skip(packets, count, at);
            lemma_frames_skip(packets, count, at + 1);
            lemma_frames_monotone(packets, index, index + 1);
            lemma_frames_monotone(packets, index + 1, packets.len() as int);
            lemma_frames_monotone(packets, count, index);
            assert(after.frames_at(at) =~= before.frames_at(index));
        } else if after.has(pn) {
            let at = after.index_of(pn);
            assert(after.sent_packets@[at].packet_number == pn);
            assert(packets[index].packet_number < packets[count + at].packet_number);
        }
    } else if after.has(pn) {
        let at = after.index_of(pn);
        assert(after.sent_packets@[at].packet_number == pn);
        assert(packets[count + at].packet_number == pn);
    }
}

/// Something that happens to a sent journal.
pub enum SentEvent<T> {
    /// A packet is built and sent; without reliable frames it is trivial.
    Built { frames: Seq<T>, sent_time: u64, retran_time: u64, expire_time: u64 },
    Acked { pn: u64 },
    MayLost { pn: u64 },
    Forgotten { now: u64 },
    Retransmitted { now: u64 },
    /// The largest acknowledged number is noted.
    Updated,
}

/// Whether an event turns a journal into another and hands out frames.
pub open spec fn sent_step<T: Copy>(
    before: ArcSentJournal<T>,
    event: SentEvent<T>,
    after: ArcSentJournal<T>,
    frames: Seq<T>,
) -> bool {
    &&& before.wf()
    &&& after.wf()
    &&& match event {
        SentEvent::Built { frames: built, sent_time, retran_time, expire_time } => before.takes_in(
            &after,
            built,
            sent_time,
            retran_time,
            expire_time,
        ) && built.len() <= usize::MAX && frames == Seq::<T>::empty(),
        SentEvent::Acked { pn } => before.takes_acked(&after, pn, frames),
        SentEvent::MayLost { pn } => before.takes_lost(&after, pn, frames),
        SentEvent::Forgotten { now } => before.forgets(&after, now) && frames == Seq::<T>::empty(),
        SentEvent::Retransmitted { now } => before.retransmits(&after, now, frames),
        SentEvent::Updated => after.sent_packets@ == before.sent_packets@ && after.queue@ == before.queue@
            && after.next_pn == before.next_pn && frames == Seq::<T>::empty(),
    }
}

/// What the journal knows of `pn` after an event, from what it knew before. Where the event lets go of
/// packets, `pn` may be gone if it need not stay on record.
pub open spec fn entry_follows<T: Copy>(
    before: ArcSentJournal<T>,
    event: SentEvent<T>,
    after: ArcSentJournal<T>,
    frames: Seq<T>,
    pn: u64,
) -> bool {
    let entry = before.entry(pn);
    let gone = |now: u64| entry matches Some((state, _)) && !state.remains(now) && after.entry(pn) is None;
    match event {
        SentEvent::Built { frames, sent_time, retran_time, expire_time } => after.entry(pn) == if pn != before.next_pn {
            entry
        } else if frames.len() == 0 {
            None
        } else {
            Some(
                (
                    SentPktState::Flighting { nframes: frames.len() as usize, sent_time, expire_time, retran_time },
                    frames,
                ),
            )
        },
        SentEvent::Acked { pn: acked } => match entry {
            Some((state, held)) if acked == pn => after.entry(pn) == Some((state.acked(), held)) && frames
                == if state is Acked { Seq::empty() } else { held },
            _ => after.entry(pn) == entry && (acked == pn ==> frames == Seq::<T>::empty()),
        },
        SentEvent::MayLost { pn: lost } => match entry {
            Some((state, held)) if lost == pn => after.entry(pn) == Some((state.lost(), held)) && frames
                == if state is Acked { Seq::empty() } else { held },
            _ => after.entry(pn) == entry && (lost == pn ==> frames == Seq::<T>::empty()),
        },
        SentEvent::Forgotten { now } => after.entry(pn) == entry || gone(now),
        SentEvent::Retransmitted { now } => gone(now) || after.entry(pn) == match entry {
            Some((state, held)) => Some(
                (if pn < before.largest_acked_pktno && state.overdue(now) { state.lost() } else { state }, held),
            ),
            None => None,
        },
        SentEvent::Updated => after.entry(pn) == entry,
    }
}

/// A packet is on record with exactly the frames it was built with, in their order. An acknowledgement
/// or a loss concerns the packet it names and no other, and hands out that packet's frames unless it was
/// acknowledged before. A packet without reliable frames, or one that was never sent, has none to hand
/// out.
pub proof fn feedback_concerns_one_packet<T: Copy>(
    before: ArcSentJournal<T>,
    event: SentEvent<T>,
    after: ArcSentJournal<T>,
    frames: Seq<T>,
    pn: u64,
)
    requires
        sent_step(before, event, after, frames),
    ensures
        entry_follows(before, event, after, frames, pn),
{
    let packets = before.sent_packets@;
    match event {
        SentEvent::Built { frames: built, .. } => {
            lemma_built(before, after, built, pn);
        },
        SentEvent::Acked { pn: named } => {
            assert(before.queue@.skip(0) =~= before.queue@);
            assert(continues(before, after, 0));
            lemma_continues(before, after, 0, pn);
            if before.has(named) {
                assert(packets[before.index_of(named)].packet_number == named);
            }
            if before.has(pn) {
                assert(packets[before.index_of(pn)].packet_number == pn);
            }
        },
        SentEvent::MayLost { pn: named } => {
            assert(before.queue@.skip(0) =~= before.queue@);
            assert(continues(before, after, 0));
            lemma_continues(before, after, 0, pn);
            if before.has(named) {
                assert(packets[before.index_of(named)].packet_number == named);
            }
            if before.has(pn) {
                assert(packets[before.index_of(pn)].packet_number == pn);
            }
        },
        SentEvent::Forgotten { now } => {
            let count = finished(packets, now);
            assert(continues(before, after, count));
            lemma_continues(before, after, count, pn);
            if before.has(pn) && before.index_of(pn) < count {
                lemma_finished(packets, now, before.index_of(pn));
            }
        },
        SentEvent::Retransmitted { now } => {
            let count = finished(packets, now);
            assert(continues(before, after, count));
            lemma_continues(before, after, count, pn);
            if before.has(pn) {
                let index = before.index_of(pn);
                assert(packets[index].packet_number == pn);
                if index < count {
                    lemma_finished(packets, now, index);
                } else {
                    assert(packets.skip(count)[index - count] == packets[index]);
                }
            }
        },
        SentEvent::Updated => {
            assert(before.queue@.skip(0) =~= before.queue@);
            assert(continues(before, after, 0));
            lemma_continues(before, after, 0, pn);
        },
    }
}

proof fn lemma_built<T: Copy>(before: ArcSentJournal<T>, after: ArcSentJournal<T>, frames: Seq<T>, pn: u64)
    requires
        before.wf(),
        after.wf(),
        exists|sent_time: u64, retran_time: u64, expire_time: u64| #[trigger]
            before.takes_in(&after, frames, sent_time, retran_time, expire_time),
        frames.len() <= usize::MAX,
    ensures
        pn != before.next_pn ==> after.entry(pn) == before.entry(pn),
        pn == before.next_pn ==> match after.entry(pn) {
            None => frames.len() == 0,
            Some((state, held)) => frames.len() > 0 && state == after.sent_packets@.last().state && held == frames,
        },
{
    let last = before.sent_packets@.len() as int;
    assert forall|i: int| #![trigger after.sent_packets@[i]] 0 <= i < last implies before.sent_packets@[i]
        == after.sent_packets@[i] by {}
    if before.has(pn) {
        let index = before.index_of(pn);
        assert(before.sent_packets@[index].packet_number == pn);
        assert(after.sent_packets@[index].packet_number == pn);
        lemma_entry(before, index);
        lemma_entry(after, index);
        lemma_frames_prefix(before.sent_packets@, after.sent_packets@, index);
        lemma_frames_prefix(before.sent_packets@, after.sent_packets@, index + 1);
        lemma_frames_monotone(before.sent_packets@, index, index + 1);
        lemma_frames_monotone(before.sent_packets@, index + 1, last);
        assert(after.frames_at(index) =~= before.frames_at(index));
    } else {
        if after.has(pn) {
            let index = after.index_of(pn);
            assert(after.sent_packets@[index].packet_number == pn);
            if index < last {
                assert(before.sent_packets@[index].packet_number == pn);
            }
        }
    }
    if pn == before.next_pn && frames.len() > 0 {
        assert(after.sent_packets@[last].packet_number == pn);
        lemma_entry(after, last);
        lemma_frames_prefix(before.sent_packets@, after.sent_packets@, last);
        assert(after.frames_at(last) =~= frames);
    }
}

/// Until when a packet is kept once it was taken for lost.
pub open spec fn kept_until(state: SentPktState) -> u64 {
    match state {
        SentPktState::Flighting { expire_time, .. } => expire_time,
        SentPktState::Retransmitted { expire_time, .. } => expire_time,
        SentPktState::Acked { expire_time, .. } => expire_time,
    }
}

/// The time at which an event lets go of packets.
pub open spec fn lets_go_at<T>(event: SentEvent<T>) -> Option<u64> {
    match event {
        SentEvent::Forgotten { now } => Some(now),
        SentEvent::Retransmitted { now } => Some(now),
        _ => None,
    }
}

/// Whether events happened to a journal one after the other, and what each handed out.
pub open spec fn sent_history<T: Copy>(
    trace: Seq<ArcSentJournal<T>>,
    events: Seq<SentEvent<T>>,
    handed: Seq<Seq<T>>,
) -> bool {
    &&& trace.len() == events.len() + 1
    &&& handed.len() == events.len()
    &&& forall|i: int|
        #![trigger events[i]]
        0 <= i < events.len() ==> sent_step(trace[i], events[i], trace[i + 1], handed[i])
}

proof fn lemma_shorter_history<T: Copy>(
    trace: Seq<ArcSentJournal<T>>,
    events: Seq<SentEvent<T>>,
    handed: Seq<Seq<T>>,
)
    requires
        sent_history(trace, events, handed),
        events.len() > 0,
    ensures
        sent_history(trace.drop_last(), events.drop_last(), handed.drop_last()),
        trace.drop_last().last() == trace[events.len() - 1],
        sent_step(trace[events.len() - 1], events.last(), trace.last(), handed.last()),
{
    assert forall|i: int| #![trigger events.drop_last()[i]] 0 <= i < events.drop_last().len() implies sent_step(
        trace.drop_last()[i],
        events.drop_last()[i],
        trace.drop_last()[i + 1],
        handed.drop_last()[i],
    ) by {
        assert(events.drop_last()[i] == events[i]);
    }
    assert(events[events.len() - 1] == events.last());
}

/// Whatever happens to other packets, and however often it is taken for lost itself, a packet that was
/// not acknowledged keeps the frames it was built with, and its acknowledgement hands them out. It goes
/// only once it was taken for lost and its time is over.
pub proof fn frames_are_kept_for_the_acknowledgement<T: Copy>(
    trace: Seq<ArcSentJournal<T>>,
    events: Seq<SentEvent<T>>,
    handed: Seq<Seq<T>>,
    pn: u64,
    acked: ArcSentJournal<T>,
    news: Seq<T>,
)
    requires
        sent_history(trace, events, handed),
        trace[0].entry(pn) matches Some((state, _)) && !(state is Acked),
        pn < trace[0].next_pn,
        forall|i: int| #![trigger events[i]] 0 <= i < events.len() ==> events[i] != (SentEvent::<T>::Acked { pn }),
        sent_step(trace.last(), SentEvent::Acked { pn }, acked, news),
    ensures
        ({
            let (state, frames) = trace[0].entry(pn)->0;
            match trace.last().entry(pn) {
                Some((now_state, held)) => held == frames && !(now_state is Acked) && kept_until(now_state)
                    == kept_until(state) && news == frames,
                None => news == Seq::<T>::empty() && exists|i: int|
                    #![trigger events[i]]
                    0 <= i < events.len() && (lets_go_at(events[i]) matches Some(now) && kept_until(state) <= now),
            }
        }),
{
    lemma_frames_kept(trace, events, handed, pn);
    feedback_concerns_one_packet(trace.last(), SentEvent::Acked { pn }, acked, news, pn);
}

proof fn lemma_frames_kept<T: Copy>(
    trace: Seq<ArcSentJournal<T>>,
    events: Seq<SentEvent<T>>,
    handed: Seq<Seq<T>>,
    pn: u64,
)
    requires
        sent_history(trace, events, handed),
        trace[0].entry(pn) matches Some((state, _)) && !(state is Acked),
        pn < trace[0].next_pn,
        forall|i: int| #![trigger events[i]] 0 <= i < events.len() ==> events[i] != (SentEvent::<T>::Acked { pn }),
    ensures
        pn < trace.last().next_pn,
        ({
            let (state, frames) = trace[0].entry(pn)->0;
            match trace.last().entry(pn) {
                Some((now_state, held)) => held == frames && !(now_state is Acked) && kept_until(now_state)
                    == kept_until(state),
                None => exists|i: int|
                    #![trigger events[i]]
                    0 <= i < events.len() && (lets_go_at(events[i]) matches Some(now) && kept_until(state) <= now),
            }
        }),
    decreases events.len(),
{
    if events.len() > 0 {
        let last = events.len() - 1;
        let earlier = events.drop_last();
        lemma_shorter_history(trace, events, handed);
        assert forall|i: int| #![trigger earlier[i]] 0 <= i < earlier.len() implies earlier[i] != (
        SentEvent::<T>::Acked { pn }) by {
            assert(earlier[i] == events[i]);
        }
        lemma_frames_kept(trace.drop_last(), earlier, handed.drop_last(), pn);
        assert(events[last] != (SentEvent::<T>::Acked { pn }));
        feedback_concerns_one_packet(trace[last], events[last], trace.last(), handed[last], pn);
        let state = (trace[0].entry(pn)->0).0;
        if trace[last].entry(pn) is None {
            let i = choose|i: int|
                #![trigger earlier[i]]
                0 <= i < earlier.len() && (lets_go_at(earlier[i]) matches Some(now) && kept_until(state) <= now);
            assert(events[i] == earlier[i]);
        }
    }
}

/// A packet that was acknowledged, or of which nothing is on record though its number was used, hands
/// out nothing any more, whatever happens.
pub proof fn settled_packet_hands_out_nothing<T: Copy>(
    trace: Seq<ArcSentJournal<T>>,
    events: Seq<SentEvent<T>>,
    handed: Seq<Seq<T>>,
    pn: u64,
)
    requires
        sent_history(trace, events, handed),
        trace[0].entry(pn) matches Some((state, _)) ==> state is Acked,
        pn < trace[0].next_pn,
    ensures
        trace.last().entry(pn) matches Some((state, _)) ==> state is Acked,
        pn < trace.last().next_pn,
        forall|i: int|
            #![trigger events[i]]
            0 <= i < events.len() && (events[i] == (SentEvent::<T>::Acked { pn }) || events[i] == (
            SentEvent::<T>::MayLost { pn })) ==> handed[i] == Seq::<T>::empty(),
    decreases events.len(),
{
    if events.len() > 0 {
        let last = events.len() - 1;
        let earlier = events.drop_last();
        lemma_shorter_history(trace, events, handed);
        settled_packet_hands_out_nothing(trace.drop_last(), earlier, handed.drop_last(), pn);
        feedback_concerns_one_packet(trace[last], events[last], trace.last(), handed[last], pn);
        assert forall|i: int|
            #![trigger events[i]]
            0 <= i < events.len() && (events[i] == (SentEvent::<T>::Acked { pn }) || events[i] == (
            SentEvent::<T>::MayLost { pn })) implies handed[i] == Seq::<T>::empty() by {
            if i < last {
                assert(earlier[i] == events[i]);
                assert(handed.drop_last()[i] == handed[i]);
            }
        }
    }
}

proof fn lemma_none_overdue<T>(packets: Seq<SentPacketRecord>, queue: Seq<T>, largest: u64, now: u64, count: int)
    requires
        0 <= count <= packets.len(),
        forall|i: int|
            #![trigger packets[i]]
            0 <= i < count ==> !(packets[i].packet_number < largest && packets[i].state.overdue(now)),
    ensures
        overdue_frames(packets, queue, largest, now, count) == Seq::<T>::empty(),
    decreases count,
{
    if count > 0 {
        lemma_none_overdue(packets, queue, largest, now, count - 1);
        let record = packets[count - 1];
        assert(!(record.packet_number < largest && record.state.overdue(now)));
    }
}

proof fn lemma_overdue_skip<T>(
    packets: Seq<SentPacketRecord>,
    queue: Seq<T>,
    largest: u64,
    now: u64,
    skipped: int,
    count: int,
)
    requires
        0 <= skipped,
        0 <= count,
        skipped + count <= packets.len(),
        queue.len() == frames_before(packets, packets.len() as int),
        overdue_frames(packets, queue, largest, now, skipped) == Seq::<T>::empty(),
    ensures
        overdue_frames(
            packets.skip(skipped),
            queue.skip(frames_before(packets, skipped) as int),
            largest,
            now,
            count,
        ) == overdue_frames(packets, queue, largest, now, skipped + count),
    decreases count,
{
    if count > 0 {
        lemma_overdue_skip(packets, queue, largest, now, skipped, count - 1);
        let base = frames_before(packets, skipped) as int;
        assert(packets.skip(skipped)[count - 1] == packets[skipped + count - 1]);
        lemma_frames_skip(packets, skipped, count - 1);
        lemma_frames_skip(packets, skipped, count);
        lemma_frames_monotone(packets, skipped + count - 1, skipped + count);
        lemma_frames_monotone(packets, skipped + count, packets.len() as int);
        lemma_frames_monotone(packets, skipped, skipped + count - 1);
        assert(queue.skip(base).subrange(
            frames_before(packets.skip(skipped), count - 1) as int,
            frames_before(packets.skip(skipped), count) as int,
        ) =~= queue.subrange(
            frames_before(packets, skipped + count - 1) as int,
            frames_before(packets, skipped + count) as int,
        ));
    }
}

/// Fast retransmission hands out the frames of exactly the packets below the largest acknowledged number
/// that are in flight and overdue, by ascending number: letting go of packets takes none of them away.
pub proof fn overtaken_packets_are_sent_again<T: Copy>(
    before: ArcSentJournal<T>,
    after: ArcSentJournal<T>,
    now: u64,
    frames: Seq<T>,
)
    requires
        before.wf(),
        before.retransmits(&after, now, frames),
    ensures
        frames == overdue_frames(
            before.sent_packets@,
            before.queue@,
            before.largest_acked_pktno,
            now,
            before.sent_packets@.len() as int,
        ),
{
    let packets = before.sent_packets@;
    let largest = before.largest_acked_pktno;
    let count = finished(packets, now);
    assert forall|i: int| #![trigger packets[i]] 0 <= i < count implies !(packets[i].packet_number < largest
        && packets[i].state.overdue(now)) by {
        lemma_finished(packets, now, i);
    }
    lemma_none_overdue(packets, before.queue@, largest, now, count);
    lemma_overdue_skip(packets, before.queue@, largest, now, count, packets.len() - count);
}

/// Fast retransmission hands out a packet's frames once: another run at the same time hands out nothing,
/// and one at any time passes over the packets that the first took. Yet their acknowledgement still
/// hands out their frames.
pub proof fn overtaken_packet_is_sent_again_once<T: Copy>(
    before: ArcSentJournal<T>,
    after: ArcSentJournal<T>,
    now: u64,
    frames: Seq<T>,
    last: ArcSentJournal<T>,
    again: Seq<T>,
    pn: u64,
    acked: ArcSentJournal<T>,
    news: Seq<T>,
)
    requires
        sent_step(before, SentEvent::Retransmitted { now }, after, frames),
        sent_step(after, SentEvent::Retransmitted { now }, last, again),
        before.entry(pn) matches Some((state, _)) && state.overdue(now),
        pn < before.largest_acked_pktno,
        sent_step(after, SentEvent::Acked { pn }, acked, news),
    ensures
        again == Seq::<T>::empty(),
        after.entry(pn) matches Some((state, _)) && forall|later: u64| !state.overdue(later),
        news == (before.entry(pn)->0).1,
{
    overtaken_packets_are_sent_again(after, last, now, again);
    let packets = after.sent_packets@;
    let left = before.sent_packets@.skip(finished(before.sent_packets@, now));
    assert forall|i: int| #![trigger packets[i]] 0 <= i < packets.len() implies !(packets[i].packet_number
        < after.largest_acked_pktno && packets[i].state.overdue(now)) by {
        assert(packets[i] == overdue_taken(left[i], before.largest_acked_pktno, now));
    }
    lemma_none_overdue(packets, after.queue@, after.largest_acked_pktno, now, packets.len() as int);
    feedback_concerns_one_packet(before, SentEvent::Retransmitted { now }, after, frames, pn);
    feedback_concerns_one_packet(after, SentEvent::Acked { pn }, acked, news, pn);
}

/// The states of a sent packet: it is overdue while it is in flight and its time to be sent again is past; it
/// stays on record in flight, and once lost until it expires.
pub proof fn sent_packet_runs_through_its_states(nframes: usize, sent_time: u64, expire_time: u64, retran_time: u64, now: u64)
    ensures
        ({
            let flighting = SentPktState::Flighting { nframes, sent_time, expire_time, retran_time };
            let lost = SentPktState::Retransmitted { nframes, sent_time, expire_time };
            let acked = SentPktState::Acked { nframes, sent_time, expire_time };
            &&& flighting.acked() == acked && lost.acked() == acked && acked.acked() == acked
            &&& flighting.lost() == lost && lost.lost() == lost && acked.lost() == acked
            &&& flighting.overdue(now) <==> retran_time < now
            &&& !lost.overdue(now) && !acked.overdue(now)
            &&& flighting.remains(now)
            &&& lost.remains(now) <==> now < expire_time
            &&& !acked.remains(now)
            &&& flighting.count() == nframes && lost.count() == nframes && acked.count() == nframes
        }),
{
}

proof fn lemma_frames_at_len<T: Copy>(journal: ArcSentJournal<T>, index: int)
    requires
        journal.wf(),
        0 <= index < journal.sent_packets@.len(),
    ensures
        journal.frames_at(index).len() == journal.sent_packets@[index].state.count(),
{
    lemma_frames_monotone(journal.sent_packets@, index, index + 1);
    lemma_frames_monotone(journal.sent_packets@, index + 1, journal.sent_packets@.len() as int);
}

/// The frames on record are those of the packets on record, packet by packet, each with as many as it was built
/// with.
pub proof fn frames_on_record_belong_to_packets<T: Copy>(journal: ArcSentJournal<T>)
    requires
        journal.wf(),
    ensures
        journal.queue@ == Seq::new(journal.sent_packets@.len(), |i: int| journal.frames_at(i)).flatten(),
        forall|i: int|
            #![trigger journal.frames_at(i)]
            0 <= i < journal.sent_packets@.len() ==> journal.frames_at(i).len() == journal.sent_packets@[i].state.count(),
{
    let packets = journal.sent_packets@;
    assert forall|i: int| #![trigger journal.frames_at(i)] 0 <= i < packets.len() implies journal.frames_at(i).len()
        == packets[i].state.count() by {
        lemma_frames_at_len(journal, i);
    }
    lemma_frames_flat(journal, packets.len() as int);
    assert(journal.queue@.take(journal.queue@.len() as int) =~= journal.queue@);
}

proof fn lemma_frames_flat<T: Copy>(journal: ArcSentJournal<T>, count: int)
    requires
        journal.wf(),
        0 <= count <= journal.sent_packets@.len(),
    ensures
        Seq::new(count as nat, |i: int| journal.frames_at(i)).flatten() == journal.queue@.take(
            frames_before(journal.sent_packets@, count) as int,
        ),
    decreases count,
{
    let pieces = Seq::new(count as nat, |i: int| journal.frames_at(i));
    if count == 0 {
        assert(pieces.flatten() =~= Seq::empty());
    } else {
        let earlier = Seq::new((count - 1) as nat, |i: int| journal.frames_at(i));
        lemma_frames_flat(journal, count - 1);
        assert(pieces =~= earlier.push(journal.frames_at(count - 1)));
        earlier.lemma_flatten_push(journal.frames_at(count - 1));
        let packets = journal.sent_packets@;
        lemma_frames_monotone(packets, count - 1, count);
        lemma_frames_monotone(packets, count, packets.len() as int);
        assert(journal.queue@.take(frames_before(packets, count - 1) as int) + journal.frames_at(count - 1)
            =~= journal.queue@.take(frames_before(packets, count) as int));
    }
}

/// Fast retransmission hands out every frame of every packet in flight that was overtaken by the largest
/// acknowledged number and whose time to be sent again is past, packet by packet, and no other.
pub proof fn every_overtaken_frame_is_handed_out<T: Copy>(
    before: ArcSentJournal<T>,
    after: ArcSentJournal<T>,
    now: u64,
    frames: Seq<T>,
)
    requires
        before.wf(),
        before.retransmits(&after, now, frames),
    ensures
        frames == Seq::new(
            before.sent_packets@.len(),
            |i: int|
                match before.sent_packets@[i].state {
                    SentPktState::Flighting { retran_time, .. } if retran_time < now
                        && before.sent_packets@[i].packet_number < before.largest_acked_pktno => before.frames_at(i),
                    _ => Seq::empty(),
                },
        ).flatten(),
{
    overtaken_packets_are_sent_again(before, after, now, frames);
    lemma_overtaken_flat(before, now, before.sent_packets@.len() as int);
}

proof fn lemma_overtaken_flat<T: Copy>(journal: ArcSentJournal<T>, now: u64, count: int)
    requires
        0 <= count <= journal.sent_packets@.len(),
    ensures
        overdue_frames(journal.sent_packets@, journal.queue@, journal.largest_acked_pktno, now, count) == Seq::new(
            count as nat,
            |i: int|
                match journal.sent_packets@[i].state {
                    SentPktState::Flighting { retran_time, .. } if retran_time < now
                        && journal.sent_packets@[i].packet_number < journal.largest_acked_pktno => journal.frames_at(i),
                    _ => Seq::empty(),
                },
        ).flatten(),
    decreases count,
{
    let piece = |i: int|
        match journal.sent_packets@[i].state {
            SentPktState::Flighting { retran_time, .. } if retran_time < now && journal.sent_packets@[i].packet_number
                < journal.largest_acked_pktno => journal.frames_at(i),
            _ => Seq::empty(),
        };
    let pieces = Seq::new(count as nat, piece);
    if count == 0 {
        assert(pieces.flatten() =~= Seq::empty());
    } else {
        let earlier = Seq::new((count - 1) as nat, piece);
        lemma_overtaken_flat(journal, now, count - 1);
        assert(pieces =~= earlier.push(piece(count - 1)));
        earlier.lemma_flatten_push(piece(count - 1));
        assert(earlier.flatten() + Seq::<T>::empty() =~= earlier.flatten());
    }
}

/// The journal lets go of packets from the front, up to the first that is in flight, or lost and not expired.
pub proof fn only_settled_packets_are_let_go<T: Copy>(
    before: ArcSentJournal<T>,
    after: ArcSentJournal<T>,
    now: u64,
    count: int,
)
    requires
        before.wf(),
        before.forgets(&after, now),
        0 <= count <= before.sent_packets@.len(),
        forall|i: int|
            #![trigger before.sent_packets@[i]]
            0 <= i < count ==> match before.sent_packets@[i].state {
                SentPktState::Flighting { .. } => false,
                SentPktState::Retransmitted { expire_time, .. } => expire_time <= now,
                SentPktState::Acked { .. } => true,
            },
        count < before.sent_packets@.len() ==> match before.sent_packets@[count].state {
            SentPktState::Flighting { .. } => true,
            SentPktState::Retransmitted { expire_time, .. } => now < expire_time,
            SentPktState::Acked { .. } => false,
        },
    ensures
        after.sent_packets@ == before.sent_packets@.skip(count),
        after.queue@.len() <= before.queue@.len(),
        after.next_pn == before.next_pn,
{
    lemma_finished_count(before.sent_packets@, now, count);
    lemma_frames_monotone(before.sent_packets@, count, before.sent_packets@.len() as int);
}

proof fn lemma_finished_count(packets: Seq<SentPacketRecord>, now: u64, count: int)
    requires
        0 <= count <= packets.len(),
        forall|i: int| #![trigger packets[i]] 0 <= i < count ==> !packets[i].state.remains(now),
        count < packets.len() ==> packets[count].state.remains(now),
    ensures
        finished(packets, now) == count,
    decreases packets.len(),
{
    if count > 0 {
        let rest = packets.drop_first();
        assert(!packets[0].state.remains(now));
        assert forall|i: int| #![trigger rest[i]] 0 <= i < count - 1 implies !rest[i].state.remains(now) by {
            assert(rest[i] == packets[i + 1]);
        }
        if count < packets.len() {
            assert(rest[count - 1] == packets[count]);
        }
        lemma_finished_count(rest, now, count - 1);
    }
}

} // verus!
