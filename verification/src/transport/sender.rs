//! Packet assembly and batched submission on one path, over all packet-number spaces.
use vstd::prelude::*;

use crate::base::error::{ErrorKind, PacketError, QuicError};
use crate::base::packet_number::PacketNumber;
use crate::base::signals::Signals;
use crate::base::text::join;
use crate::base::varint::VARINT_MAX;
use crate::transport::assembly::{
    assembled, epoch, epoch_of, greatest, is_long, length_size, zeroed, zeros, Epoch, FrameWrite, Packet, PacketContent,
    PacketType, PacketView, PendingPacket,
};
use crate::transport::constraints::{least, lesser, AntiAmplifier, Constraints, MIN_DATAGRAM};
use crate::transport::keys::{OneRttKeys, OneRttSealingKey};
use crate::transport::protection::{tag_len, tag_size};
use crate::transport::records::{skips, ArcSendJournal, SentPacketState, SentRecord};
use crate::transport::sealing::{sealed_packet, with_phase};

verus! {

/// The sending journals of the three spaces.
pub struct Journals<T> {
    pub initial: ArcSendJournal<T>,
    pub handshake: ArcSendJournal<T>,
    pub data: ArcSendJournal<T>,
}

impl<T: Copy> Journals<T> {
    pub open spec fn of(&self, epoch: Epoch) -> ArcSendJournal<T> {
        match epoch {
            Epoch::Initial => self.initial,
            Epoch::Handshake => self.handshake,
            Epoch::Data => self.data,
        }
    }

    pub open spec fn wf(&self) -> bool {
        self.initial.wf() && self.handshake.wf() && self.data.wf()
    }
}

/// One number for each space.
#[derive(Clone, Copy, Debug, PartialEq, Eq, Structural)]
pub struct PerEpoch {
    pub initial: u64,
    pub handshake: u64,
    pub data: u64,
}

impl PerEpoch {
    pub open spec fn of(self, epoch: Epoch) -> u64 {
        match epoch {
            Epoch::Initial => self.initial,
            Epoch::Handshake => self.handshake,
            Epoch::Data => self.data,
        }
    }

    pub open spec fn with(self, epoch: Epoch, value: u64) -> PerEpoch {
        match epoch {
            Epoch::Initial => PerEpoch { initial: value, ..self },
            Epoch::Handshake => PerEpoch { handshake: value, ..self },
            Epoch::Data => PerEpoch { data: value, ..self },
        }
    }

    pub fn get(&self, epoch: Epoch) -> (value: u64)
        ensures
            value == self.of(epoch),
    {
        match epoch {
            Epoch::Initial => self.initial,
            Epoch::Handshake => self.handshake,
            Epoch::Data => self.data,
        }
    }

    pub fn set(&mut self, epoch: Epoch, value: u64)
        ensures
            *final(self) == old(self).with(epoch, value),
    {
        match epoch {
            Epoch::Initial => {
                self.initial = value;
            },
            Epoch::Handshake => {
                self.handshake = value;
            },
            Epoch::Data => {
                self.data = value;
            },
        }
    }
}

/// What is left of `value` after `amount` was taken off it, but not less than nothing.
pub open spec fn reduced(value: int, amount: int) -> int {
    greatest(value - amount, 0)
}

fn reduce(value: usize, amount: usize) -> (left: usize)
    ensures
        left == reduced(value as int, amount as int),
{
    if value < amount {
        0
    } else {
        value - amount
    }
}

/// How many of the waiting packets of a space elicit an acknowledgement.
pub open spec fn eliciting(pending: Seq<PendingPacket>, epoch: Epoch) -> nat
    decreases pending.len(),
{
    if pending.len() == 0 {
        0
    } else {
        let before = eliciting(pending.drop_last(), epoch);
        if epoch_of(pending.last().packet_type) == epoch && pending.last().content.elicits() {
            before + 1
        } else {
            before
        }
    }
}

/// The limits for one packet: those of the burst less what is added around the packet. A loss
/// probe that is due and not yet reserved is not held back by congestion.
pub open spec fn packet_limits(constraints: Constraints, overhead: int, reserved: nat, probes: u64) -> Constraints {
    Constraints {
        capacity: reduced(constraints.capacity as int, overhead) as usize,
        congestion: reduced(
            greatest(constraints.congestion as int, if reserved < probes { MIN_DATAGRAM as int } else { 0 }),
            overhead,
        ) as usize,
        anti_amplification: reduced(constraints.anti_amplification as int, overhead) as usize,
    }
}

/// The decisions of one path's sender.
pub struct Sender<T> {
    /// Bytes added around each packet on this path.
    pub overhead: usize,
    /// Most datagrams in one submission.
    pub max_datagrams: usize,
    pub anti_amplifier: AntiAmplifier,
    pub frames: Vec<T>,
    pub pending: Vec<PendingPacket>,
    /// What the sender waits for.
    pub signals: Signals,
}

/// What stands in the way of a packet before it is put together.
pub enum Admission {
    /// The journal is full.
    NoRecord,
    /// The limits leave no room for a payload.
    NoRoom,
    /// It may be put together within these limits.
    Granted(Constraints),
}

/// Whether a packet may be put together.
pub open spec fn admission(
    full: bool,
    pending: Seq<PendingPacket>,
    overhead: int,
    constraints: Constraints,
    probes: u64,
    packet_type: PacketType,
    header_len: int,
    tag_len: int,
) -> Admission {
    let limits = packet_limits(constraints, overhead, eliciting(pending, epoch_of(packet_type)), probes);
    if full {
        Admission::NoRecord
    } else if least(limits.capacity as int, limits.anti_amplification as int) <= header_len + length_size(
        packet_type,
    ) + 4 + tag_len {
        Admission::NoRoom
    } else {
        Admission::Granted(limits)
    }
}

/// The packet, with its frames and padding, that the limits allow.
pub open spec fn composed<T>(
    header: Seq<u8>,
    packet_type: PacketType,
    tag_len: int,
    limits: Constraints,
    pending: Seq<PendingPacket>,
    frames: Seq<FrameWrite<T>>,
) -> PacketView {
    let fresh = fresh_view(header, packet_type, tag_len, limits.capacity as int);
    assembled(fresh, limits, pending, frames).packet
}

/// Whether the packet must fill a whole datagram.
pub open spec fn must_fill(packet: PacketView) -> bool {
    packet.packet_type is Initial || packet.challenge is Some || packet.response is Some
}

impl<T: Copy> Sender<T> {
    pub fn new(overhead: usize, max_datagrams: usize, anti_amplifier: AntiAmplifier) -> (sender: Self)
        ensures
            sender.overhead == overhead,
            sender.max_datagrams == max_datagrams,
            sender.anti_amplifier == anti_amplifier,
            sender.frames@ == Seq::<T>::empty(),
            sender.pending@ == Seq::<PendingPacket>::empty(),
            sender.signals == Signals::every(),
    {
        Sender {
            overhead,
            max_datagrams,
            anti_amplifier,
            frames: Vec::new(),
            pending: Vec::new(),
            signals: Signals::all(),
        }
    }

    /// Everything but what is waited for is that of `other`.
    pub open spec fn same_queue(&self, other: &Self) -> bool {
        &&& self.overhead == other.overhead
        &&& self.max_datagrams == other.max_datagrams
        &&& self.anti_amplifier == other.anti_amplifier
        &&& self.frames@ == other.frames@
        &&& self.pending@ == other.pending@
    }

    fn count_eliciting(&self, space: Epoch) -> (count: usize)
        ensures
            count == eliciting(self.pending@, space),
    {
        let mut count: usize = 0;
        let mut index: usize = 0;
        assert(self.pending@.take(0) =~= Seq::<PendingPacket>::empty());
        while index < self.pending.len()
            invariant
                index <= self.pending@.len(),
                count <= index,
                count == eliciting(self.pending@.take(index as int), space),
            decreases self.pending@.len() - index,
        {
            assert(self.pending@.take(index + 1).drop_last() =~= self.pending@.take(index as int));
            let packet: &PendingPacket = &self.pending[index];
            if packet.epoch() == space && packet.content.is_ack_eliciting() {
                count = count + 1;
            }
            index = index + 1;
        }
        assert(self.pending@.take(index as int) =~= self.pending@);
        count
    }

    /// Whether a packet may be put together, and within which limits. `probes` is how many loss
    /// probes are due in the packet's space.
    pub fn consider(
        &self,
        full: bool,
        constraints: &Constraints,
        probes: u64,
        packet_type: PacketType,
        header_len: usize,
        tag_len: usize,
    ) -> (result: Admission)
        ensures
            result == admission(
                full,
                self.pending@,
                self.overhead as int,
                *constraints,
                probes,
                packet_type,
                header_len as int,
                tag_len as int,
            ),
    {
        if full {
            return Admission::NoRecord;
        }
        let reserved: usize = self.count_eliciting(epoch(packet_type));
        let probing: usize = if (reserved as u64) < probes {
            MIN_DATAGRAM
        } else {
            0
        };
        let congestion: usize = if constraints.congestion < probing {
            probing
        } else {
            constraints.congestion
        };
        let limits = Constraints {
            capacity: reduce(constraints.capacity, self.overhead),
            congestion: reduce(congestion, self.overhead),
            anti_amplification: reduce(constraints.anti_amplification, self.overhead),
        };
        let extra: usize = match packet_type {
            PacketType::OneRtt => 4,
            _ => 6,
        };
        let room: usize = lesser(limits.capacity, limits.anti_amplification);
        if room <= extra || room - extra <= header_len || room - extra - header_len <= tag_len {
            return Admission::NoRoom;
        }
        Admission::Granted(limits)
    }

    /// Puts a packet together within granted limits. On failure the frames that were written go
    /// back to their owners through `recovered`.
    fn compose(
        &mut self,
        header: &Vec<u8>,
        packet_type: PacketType,
        tag_len: usize,
        limits: &Constraints,
        frames: &Vec<FrameWrite<T>>,
        accepted: &mut Vec<bool>,
        recovered: &mut Vec<T>,
    ) -> (result: Result<Packet, PacketError>)
        requires
            header@.len() > 0,
            header@.len() + length_size(packet_type) + 4 + tag_len < least(
                limits.capacity as int,
                limits.anti_amplification as int,
            ),
            old(self).overhead <= MIN_DATAGRAM,
        ensures
            final(self).overhead == old(self).overhead,
            final(self).max_datagrams == old(self).max_datagrams,
            final(self).anti_amplifier == old(self).anti_amplifier,
            final(self).pending@ == old(self).pending@,
            final(self).signals == old(self).signals,
            ({
                let view = composed(header@, packet_type, tag_len as int, *limits, old(self).pending@, frames@);
                let fresh = fresh_view(header@, packet_type, tag_len as int, limits.capacity as int);
                let assembly = assembled(fresh, *limits, old(self).pending@, frames@);
                let target = MIN_DATAGRAM - old(self).overhead;
                &&& final(accepted)@ == old(accepted)@ + assembly.accepted
                &&& match result {
                    Ok(packet) => {
                        &&& view.cursor != view.body_offset
                        &&& packet.wf()
                        &&& packet.view() == if must_fill(view) { view.padded(target) } else { view }
                        &&& must_fill(view) ==> !view.padding_refused(target, *limits)
                        &&& final(self).frames@ == old(self).frames@ + assembly.records
                        &&& final(recovered)@ == old(recovered)@
                    },
                    Err(error) => {
                        &&& error == if view.cursor == view.body_offset {
                            PacketError::Blocked(assembly.blocked)
                        } else {
                            PacketError::Blocked(Signals::only_congestion())
                        }
                        &&& view.cursor == view.body_offset || (must_fill(view) && view.padding_refused(
                            target,
                            *limits,
                        ))
                        &&& final(self).frames@ == Seq::<T>::empty()
                        &&& final(recovered)@ == old(recovered)@ + old(self).frames@ + assembly.records
                    },
                }
            }),
    {
        let buffer: Vec<u8> = zeroed(limits.capacity);
        let mut packet: Packet = match Packet::new(buffer, header, packet_type, tag_len) {
            Ok(packet) => packet,
            Err(error) => {
                assert(false);
                return Err(error);
            },
        };
        let ghost fresh = fresh_view(header@, packet_type, tag_len as int, limits.capacity as int);
        assert(packet.view().msg =~= fresh.msg);
        assert(packet.view() =~= fresh);
        proof {
            lemma_assembled_type(fresh, *limits, self.pending@, frames@);
        }
        let mut result: Result<(), PacketError> = match packet.assemble(
            limits,
            &mut self.frames,
            &self.pending,
            frames,
            accepted,
        ) {
            Ok(_) => Ok(()),
            Err(error) => Err(error),
        };
        if result.is_ok() {
            let initial: bool = match packet_type {
                PacketType::Initial => true,
                _ => false,
            };
            if initial || packet.has_path_frames() {
                result = packet.pad_to(MIN_DATAGRAM - self.overhead, limits);
            }
        }
        match result {
            Ok(()) => Ok(packet),
            Err(error) => {
                let ghost written = assembled(fresh, *limits, self.pending@, frames@).records;
                recovered.append(&mut self.frames);
                assert(recovered@ =~= old(recovered)@ + old(self).frames@ + written);
                Err(error)
            },
        }
    }
}

/// A packet to which nothing was written yet.
pub open spec fn fresh_view(header: Seq<u8>, packet_type: PacketType, tag_len: int, capacity: int) -> PacketView {
    let offset = header.len() + length_size(packet_type) + 4;
    PacketView {
        msg: header + zeros(capacity - header.len()),
        packet_type,
        challenge: None,
        response: None,
        padded_to: 0,
        body_offset: offset,
        cursor: offset,
        tag_len,
        content: PacketContent::NonAckEliciting,
        in_flight: false,
        largest_acked: None,
    }
}

proof fn lemma_assembled_type<T>(
    packet: PacketView,
    constraints: Constraints,
    pending: Seq<PendingPacket>,
    frames: Seq<FrameWrite<T>>,
)
    ensures
        assembled(packet, constraints, pending, frames).packet.packet_type == packet.packet_type,
        assembled(packet, constraints, pending, frames).packet.body_offset == packet.body_offset,
    decreases frames.len(),
{
    if frames.len() > 0 {
        lemma_assembled_type(packet, constraints, pending, frames.drop_last());
    }
}


/// The error of a connection on which a packet could not be put together.
pub open spec fn packet_fault(error: PacketError, fault: QuicError) -> bool {
    match error {
        PacketError::Connection(error) => fault == error,
        PacketError::Blocked(signals) => fault.says(
            ErrorKind::Internal,
            "packet assembly blocked: "@ + signals.described(),
        ),
        PacketError::Layout => fault.says(ErrorKind::Internal, "invalid packet layout or capacity"@),
        PacketError::Crypto(_) => fault.says(ErrorKind::Internal, "packet protection failed"@),
    }
}

pub fn packet_error(error: PacketError) -> (fault: QuicError)
    ensures
        packet_fault(error, fault),
{
    match error {
        PacketError::Connection(error) => error,
        PacketError::Blocked(signals) => {
            let reason = join("packet assembly blocked: ", signals.describe().as_str());
            QuicError::new(ErrorKind::Internal, reason.as_str())
        },
        PacketError::Layout => QuicError::new(ErrorKind::Internal, "invalid packet layout or capacity"),
        PacketError::Crypto(_) => QuicError::new(ErrorKind::Internal, "packet protection failed"),
    }
}

/// Undoes the reservation of a packet that could not be sealed: its number is skipped and its
/// frames go back to `records`.
pub fn finish_sealing<T: Copy>(
    result: Result<PendingPacket, PacketError>,
    pn: u64,
    journal: &mut ArcSendJournal<T>,
    records: &mut Vec<T>,
) -> (finished: Result<PendingPacket, PacketError>)
    requires
        old(journal).wf(),
    ensures
        final(journal).wf(),
        finished == result,
        result is Ok ==> *final(journal) == *old(journal) && final(records)@ == old(records)@,
        result is Err ==> exists|returned: Seq<T>|
            {
                &&& #[trigger] old(journal).abandoned(final(journal), pn, returned)
                &&& final(records)@ == old(records)@ + returned
            },
{
    if result.is_err() {
        journal.cancel_pending(pn, records);
    }
    result
}

/// What putting frames into a packet came to, before the packet is numbered.
pub struct Composition<T> {
    /// What blocks the packet, if anything does.
    pub blocked: Option<Signals>,
    pub packet: PacketView,
    pub records: Seq<T>,
    pub accepted: Seq<bool>,
}

pub open spec fn composition<T>(
    header: Seq<u8>,
    packet_type: PacketType,
    tag_len: int,
    limits: Constraints,
    pending: Seq<PendingPacket>,
    frames: Seq<FrameWrite<T>>,
    overhead: int,
) -> Composition<T> {
    let fresh = fresh_view(header, packet_type, tag_len, limits.capacity as int);
    let assembly = assembled(fresh, limits, pending, frames);
    let target = MIN_DATAGRAM - overhead;
    let fills = must_fill(assembly.packet);
    Composition {
        blocked: if assembly.packet.cursor == fresh.cursor {
            Some(assembly.blocked)
        } else if fills && assembly.packet.padding_refused(target, limits) {
            Some(Signals::only_congestion())
        } else {
            None
        },
        packet: if fills { assembly.packet.padded(target) } else { assembly.packet },
        records: assembly.records,
        accepted: assembly.accepted,
    }
}

/// The records of a journal to which a pending packet was added.
pub open spec fn recorded<T: Copy>(
    before: &ArcSendJournal<T>,
    after: &ArcSendJournal<T>,
    generation: Option<u64>,
    frames: Seq<T>,
) -> bool {
    &&& after.records() == before.records().push(
        (SentRecord { pn: before.next_pn, generation, frames, state: SentPacketState::Pending }),
    )
    &&& after.next_pn == before.next_pn + 1
    &&& after.largest_acked == before.largest_acked
    &&& after.skipped_pns@ == before.skipped_pns@
    &&& after.slots@.len() == before.slots@.len() + frames.len()
    &&& after.next_frame() == before.next_frame() + frames.len()
}

/// A journal in which a number and the slots of `frames` were used up for nothing.
pub open spec fn wasted<T: Copy>(before: &ArcSendJournal<T>, after: &ArcSendJournal<T>, frames: Seq<T>) -> bool {
    &&& after.records() == before.records()
    &&& after.next_pn == before.next_pn + 1
    &&& after.largest_acked == before.largest_acked
    &&& after.next_frame() == before.next_frame() + frames.len()
    &&& after.offset >= before.offset
    &&& skips(before.skipped_pns@, after.skipped_pns@, before.next_pn)
}

proof fn lemma_wasted<T: Copy>(
    before: &ArcSendJournal<T>,
    middle: &ArcSendJournal<T>,
    after: &ArcSendJournal<T>,
    generation: Option<u64>,
    frames: Seq<T>,
    returned: Seq<T>,
)
    requires
        before.wf(),
        middle.wf(),
        recorded(before, middle, generation, frames),
        middle.abandoned(after, before.next_pn, returned),
    ensures
        wasted(before, after, frames),
        returned == frames,
{
    let last = before.records().len() as int;
    assert(middle.packets@.len() == middle.records().len());
    assert(middle.records()[last].pn == before.next_pn);
    assert(middle.packets@[last].pn == before.next_pn);
    assert(middle.has(before.next_pn));
    let index = middle.index_of(before.next_pn);
    if index < last {
        assert(middle.packets@[index].pn < middle.packets@[last].pn);
    }
    assert(middle.records().remove(last) =~= before.records());
}

impl<T: Copy> Sender<T> {
    /// What comes of a packet that was put together, numbered and sealed.
    pub open spec fn long_attempt(
        &self,
        after: &Self,
        keys: rustls::quic::DirectionalKeys,
        composition: Composition<T>,
        journal: &ArcSendJournal<T>,
        journal_after: &ArcSendJournal<T>,
        recovered: Seq<T>,
        result: Result<Option<PendingPacket>, QuicError>,
    ) -> bool {
        let packet = composition.packet;
        let pn = journal.next_pn;
        let number = PacketNumber::encoded(pn, journal.largest_acked);
        let offset = packet.body_offset - 4;
        if let Some(signals) = composition.blocked {
            &&& result == Ok::<Option<PendingPacket>, QuicError>(None)
            &&& after.signals == self.signals.join(signals)
            &&& *journal_after == *journal
            &&& recovered == composition.records
        } else if journal.is_full(composition.records.len()) {
            &&& result == Ok::<Option<PendingPacket>, QuicError>(None)
            &&& after.signals == self.signals.join(Signals::only_transport())
            &&& *journal_after == *journal
            &&& recovered == composition.records
        } else if pn > VARINT_MAX {
            &&& result matches Err(error) && error.says(ErrorKind::AeadLimitReached, "packet numbers exhausted"@)
            &&& after.signals == self.signals
            &&& *journal_after == *journal
            &&& recovered == composition.records
        } else {
            &&& after.signals == self.signals
            &&& match sealed_packet(
                keys,
                None,
                pn,
                packet.wire(number),
                offset,
                offset + number.bytes(),
                packet.tag_len,
            ) {
                Ok(bytes) => {
                    &&& result matches Ok(Some(pending)) && pending.msg@ == bytes && bytes.len() == packet.wire_len(
                        number,
                    ) && packet.describes(pending, pn, number, None)
                    &&& recorded(journal, journal_after, None, composition.records)
                    &&& recovered == Seq::<T>::empty()
                },
                Err(error) => {
                    &&& result matches Err(fault) && packet_fault(error, fault)
                    &&& wasted(journal, journal_after, composition.records)
                    &&& recovered == composition.records
                },
            }
        }
    }

    /// What comes of the attempt to put together, number and seal a packet with a long header.
    pub open spec fn assembles_long(
        &self,
        after: &Self,
        keys: rustls::quic::DirectionalKeys,
        header: Seq<u8>,
        packet_type: PacketType,
        journal: &ArcSendJournal<T>,
        journal_after: &ArcSendJournal<T>,
        constraints: Constraints,
        probes: u64,
        frames: Seq<FrameWrite<T>>,
        accepted: Seq<bool>,
        accepted_after: Seq<bool>,
        recovered: Seq<T>,
        recovered_after: Seq<T>,
        result: Result<Option<PendingPacket>, QuicError>,
    ) -> bool {
        match admission(
            journal.is_full(1),
            self.pending@,
            self.overhead as int,
            constraints,
            probes,
            packet_type,
            header.len() as int,
            tag_size(keys, None) as int,
        ) {
            Admission::NoRecord => {
                &&& result == Ok::<Option<PendingPacket>, QuicError>(None)
                &&& after.signals == self.signals.join(Signals::only_transport())
                &&& *journal_after == *journal
                &&& accepted_after == accepted
                &&& recovered_after == recovered
            },
            Admission::NoRoom => {
                &&& result == Ok::<Option<PendingPacket>, QuicError>(None)
                &&& after.signals == self.signals.join(Signals::only_credit())
                &&& *journal_after == *journal
                &&& accepted_after == accepted
                &&& recovered_after == recovered
            },
            Admission::Granted(limits) => {
                let composition = composition(
                    header,
                    packet_type,
                    tag_size(keys, None) as int,
                    limits,
                    self.pending@,
                    frames,
                    self.overhead as int,
                );
                &&& accepted_after == accepted + composition.accepted
                &&& recovered_after.len() >= recovered.len()
                &&& recovered_after.take(recovered.len() as int) == recovered
                &&& self.long_attempt(
                    after,
                    keys,
                    composition,
                    journal,
                    journal_after,
                    recovered_after.skip(recovered.len() as int),
                    result,
                )
            },
        }
    }

    /// Puts together, numbers and seals a packet with a long header. Without a packet, the frames
    /// that were written are handed back in `recovered` and `signals` tells what to wait for.
    /// `probes` is how many loss probes are due in the packet's space.
    #[verifier::rlimit(40)]
    pub fn assemble_long_packet(
        &mut self,
        keys: &rustls::quic::DirectionalKeys,
        header: &Vec<u8>,
        packet_type: PacketType,
        journal: &mut ArcSendJournal<T>,
        constraints: &Constraints,
        probes: u64,
        frames: &Vec<FrameWrite<T>>,
        accepted: &mut Vec<bool>,
        recovered: &mut Vec<T>,
    ) -> (result: Result<Option<PendingPacket>, QuicError>)
        requires
            old(self).overhead <= MIN_DATAGRAM,
            old(self).frames@.len() == 0,
            header@.len() > 0,
            is_long(packet_type),
            old(journal).wf(),
            old(journal).next_frame() + frames@.len() <= u64::MAX,
            2 * (old(journal).next_pn - old(journal).largest_acked) < 0x1_0000_0000,
        ensures
            final(journal).wf(),
            final(self).same_queue(old(self)),
            old(self).assembles_long(
                final(self),
                *keys,
                header@,
                packet_type,
                old(journal),
                final(journal),
                *constraints,
                probes,
                frames@,
                old(accepted)@,
                final(accepted)@,
                old(recovered)@,
                final(recovered)@,
                result,
            ),
    {
        let tag: usize = tag_len(keys, &None);
        let full: bool = !journal.has_capacity();
        let limits: Constraints = match self.consider(full, constraints, probes, packet_type, header.len(), tag) {
            Admission::NoRecord => {
                self.signals = self.signals.union(Signals::transport());
                return Ok(None);
            },
            Admission::NoRoom => {
                self.signals = self.signals.union(Signals::credit());
                return Ok(None);
            },
            Admission::Granted(limits) => limits,
        };
        let ghost composition = composition(
            header@,
            packet_type,
            tag as int,
            limits,
            self.pending@,
            frames@,
            self.overhead as int,
        );
        let ghost handed = recovered@;
        proof {
            lemma_assembled_type(
                fresh_view(header@, packet_type, tag as int, limits.capacity as int),
                limits,
                self.pending@,
                frames@,
            );
            lemma_records_bounded(
                fresh_view(header@, packet_type, tag as int, limits.capacity as int),
                limits,
                self.pending@,
                frames@,
            );
        }
        let packet: Packet = match self.compose(header, packet_type, tag, &limits, frames, accepted, recovered) {
            Ok(packet) => packet,
            Err(error) => {
                assert(recovered@.skip(handed.len() as int) =~= composition.records);
                assert(recovered@.take(handed.len() as int) =~= handed);
                assert(self.frames@ =~= old(self).frames@);
                return self.give_up(error);
            },
        };
        assert(self.frames@ =~= composition.records);
        assert(packet.view() == composition.packet);
        let ghost journal_before = *journal;
        let (pn, number) = match journal.record_pending(None, &mut self.frames) {
            Ok(allocated) => allocated,
            Err(error) => {
                recovered.append(&mut self.frames);
                assert(recovered@.skip(handed.len() as int) =~= composition.records);
                assert(recovered@.take(handed.len() as int) =~= handed);
                assert(self.frames@ =~= old(self).frames@);
                return self.give_up(error);
            },
        };
        let ghost journal_middle = *journal;
        assert(recorded(&journal_before, &journal_middle, None, composition.records));
        let sealed: Result<PendingPacket, PacketError> = packet.seal_long(keys, pn, number);
        match finish_sealing(sealed, pn, journal, &mut self.frames) {
            Ok(packet) => {
                assert(recovered@.skip(handed.len() as int) =~= Seq::<T>::empty());
                assert(recovered@.take(handed.len() as int) =~= handed);
                assert(self.frames@ =~= old(self).frames@);
                Ok(Some(packet))
            },
            Err(error) => {
                proof {
                    let returned = choose|returned: Seq<T>|
                        {
                            &&& #[trigger] journal_middle.abandoned(journal, pn, returned)
                            &&& self.frames@ == Seq::<T>::empty() + returned
                        };
                    lemma_wasted(&journal_before, &journal_middle, journal, None, composition.records, returned);
                    assert(self.frames@ =~= composition.records);
                }
                recovered.append(&mut self.frames);
                assert(recovered@.skip(handed.len() as int) =~= composition.records);
                assert(recovered@.take(handed.len() as int) =~= handed);
                assert(self.frames@ =~= old(self).frames@);
                self.give_up(error)
            },
        }
    }

    /// Attempts an Initial packet, which fills a datagram.
    pub fn assemble_initial_packet(
        &mut self,
        keys: &rustls::quic::DirectionalKeys,
        header: &Vec<u8>,
        journal: &mut ArcSendJournal<T>,
        constraints: &Constraints,
        probes: u64,
        frames: &Vec<FrameWrite<T>>,
        accepted: &mut Vec<bool>,
        recovered: &mut Vec<T>,
    ) -> (result: Result<Option<PendingPacket>, QuicError>)
        requires
            old(self).overhead <= MIN_DATAGRAM,
            old(self).frames@.len() == 0,
            header@.len() > 0,
            old(journal).wf(),
            old(journal).next_frame() + frames@.len() <= u64::MAX,
            2 * (old(journal).next_pn - old(journal).largest_acked) < 0x1_0000_0000,
        ensures
            final(journal).wf(),
            final(self).same_queue(old(self)),
            old(self).assembles_long(
                final(self),
                *keys,
                header@,
                PacketType::Initial,
                old(journal),
                final(journal),
                *constraints,
                probes,
                frames@,
                old(accepted)@,
                final(accepted)@,
                old(recovered)@,
                final(recovered)@,
                result,
            ),
    {
        self.assemble_long_packet(
            keys,
            header,
            PacketType::Initial,
            journal,
            constraints,
            probes,
            frames,
            accepted,
            recovered,
        )
    }

    /// Attempts a Handshake packet.
    pub fn assemble_handshake_packet(
        &mut self,
        keys: &rustls::quic::DirectionalKeys,
        header: &Vec<u8>,
        journal: &mut ArcSendJournal<T>,
        constraints: &Constraints,
        probes: u64,
        frames: &Vec<FrameWrite<T>>,
        accepted: &mut Vec<bool>,
        recovered: &mut Vec<T>,
    ) -> (result: Result<Option<PendingPacket>, QuicError>)
        requires
            old(self).overhead <= MIN_DATAGRAM,
            old(self).frames@.len() == 0,
            header@.len() > 0,
            old(journal).wf(),
            old(journal).next_frame() + frames@.len() <= u64::MAX,
            2 * (old(journal).next_pn - old(journal).largest_acked) < 0x1_0000_0000,
        ensures
            final(journal).wf(),
            final(self).same_queue(old(self)),
            old(self).assembles_long(
                final(self),
                *keys,
                header@,
                PacketType::Handshake,
                old(journal),
                final(journal),
                *constraints,
                probes,
                frames@,
                old(accepted)@,
                final(accepted)@,
                old(recovered)@,
                final(recovered)@,
                result,
            ),
    {
        self.assemble_long_packet(
            keys,
            header,
            PacketType::Handshake,
            journal,
            constraints,
            probes,
            frames,
            accepted,
            recovered,
        )
    }

    /// Attempts a 0-RTT packet. It shares its numbers with one-RTT packets.
    pub fn assemble_0rtt_packet(
        &mut self,
        keys: &rustls::quic::DirectionalKeys,
        header: &Vec<u8>,
        journal: &mut ArcSendJournal<T>,
        constraints: &Constraints,
        probes: u64,
        frames: &Vec<FrameWrite<T>>,
        accepted: &mut Vec<bool>,
        recovered: &mut Vec<T>,
    ) -> (result: Result<Option<PendingPacket>, QuicError>)
        requires
            old(self).overhead <= MIN_DATAGRAM,
            old(self).frames@.len() == 0,
            header@.len() > 0,
            old(journal).wf(),
            old(journal).next_frame() + frames@.len() <= u64::MAX,
            2 * (old(journal).next_pn - old(journal).largest_acked) < 0x1_0000_0000,
        ensures
            final(journal).wf(),
            final(self).same_queue(old(self)),
            old(self).assembles_long(
                final(self),
                *keys,
                header@,
                PacketType::ZeroRtt,
                old(journal),
                final(journal),
                *constraints,
                probes,
                frames@,
                old(accepted)@,
                final(accepted)@,
                old(recovered)@,
                final(recovered)@,
                result,
            ),
    {
        self.assemble_long_packet(
            keys,
            header,
            PacketType::ZeroRtt,
            journal,
            constraints,
            probes,
            frames,
            accepted,
            recovered,
        )
    }

    /// What comes of a one-RTT packet that was put together, numbered and sealed.
    pub open spec fn short_attempt(
        &self,
        after: &Self,
        keys: &OneRttKeys,
        keys_after: &OneRttKeys,
        composition: Composition<T>,
        journal: &ArcSendJournal<T>,
        journal_after: &ArcSendJournal<T>,
        recovered: Seq<T>,
        result: Result<Option<PendingPacket>, QuicError>,
    ) -> bool {
        if let Some(signals) = composition.blocked {
            &&& result == Ok::<Option<PendingPacket>, QuicError>(None)
            &&& after.signals == self.signals.join(signals)
            &&& *keys_after == *keys
            &&& *journal_after == *journal
            &&& recovered == composition.records
        } else {
            ||| {
                &&& result matches Err(error) && keys.unprepared(&keys_after.packets, error)
                &&& after.signals == self.signals
                &&& *journal_after == *journal
                &&& recovered == composition.records
            }
            ||| {
                &&& keys.ready(keys_after)
                &&& journal.is_full(composition.records.len())
                &&& result == Ok::<Option<PendingPacket>, QuicError>(None)
                &&& after.signals == self.signals.join(Signals::only_transport())
                &&& *journal_after == *journal
                &&& recovered == composition.records
            }
            ||| {
                &&& keys.ready(keys_after)
                &&& !journal.is_full(composition.records.len()) && journal.next_pn > VARINT_MAX
                &&& result matches Err(error) && error.says(
                    ErrorKind::AeadLimitReached,
                    "packet numbers exhausted"@,
                )
                &&& after.signals == self.signals
                &&& *journal_after == *journal
                &&& recovered == composition.records
            }
            ||| {
                &&& !journal.is_full(composition.records.len()) && journal.next_pn <= VARINT_MAX
                &&& after.signals == self.signals
                &&& sealed_one_rtt(
                    keys,
                    keys_after,
                    composition,
                    journal,
                    journal_after,
                    recovered,
                    result,
                )
            }
        }
    }

    /// What comes of the attempt to put together, number and seal a one-RTT packet.
    pub open spec fn assembles_short(
        &self,
        after: &Self,
        keys: &OneRttKeys,
        keys_after: &OneRttKeys,
        header: Seq<u8>,
        journal: &ArcSendJournal<T>,
        journal_after: &ArcSendJournal<T>,
        constraints: Constraints,
        probes: u64,
        frames: Seq<FrameWrite<T>>,
        accepted: Seq<bool>,
        accepted_after: Seq<bool>,
        recovered: Seq<T>,
        recovered_after: Seq<T>,
        result: Result<Option<PendingPacket>, QuicError>,
    ) -> bool {
        let tag = tag_size(*keys.headers.sealing, keys.packets.keys@.last().updated) as int;
        match admission(
            journal.is_full(1),
            self.pending@,
            self.overhead as int,
            constraints,
            probes,
            PacketType::OneRtt,
            header.len() as int,
            tag,
        ) {
            Admission::NoRecord => {
                &&& result == Ok::<Option<PendingPacket>, QuicError>(None)
                &&& after.signals == self.signals.join(Signals::only_transport())
                &&& *keys_after == *keys
                &&& *journal_after == *journal
                &&& accepted_after == accepted
                &&& recovered_after == recovered
            },
            Admission::NoRoom => {
                &&& result == Ok::<Option<PendingPacket>, QuicError>(None)
                &&& after.signals == self.signals.join(Signals::only_credit())
                &&& *keys_after == *keys
                &&& *journal_after == *journal
                &&& accepted_after == accepted
                &&& recovered_after == recovered
            },
            Admission::Granted(limits) => {
                let composition = composition(
                    header,
                    PacketType::OneRtt,
                    tag,
                    limits,
                    self.pending@,
                    frames,
                    self.overhead as int,
                );
                &&& accepted_after == accepted + composition.accepted
                &&& recovered_after.len() >= recovered.len()
                &&& recovered_after.take(recovered.len() as int) == recovered
                &&& self.short_attempt(
                    after,
                    keys,
                    keys_after,
                    composition,
                    journal,
                    journal_after,
                    recovered_after.skip(recovered.len() as int),
                    result,
                )
            },
        }
    }

    /// Puts together, numbers and seals a one-RTT packet. Without a packet, the frames that were
    /// written are handed back in `recovered` and `signals` tells what to wait for. `probes` is
    /// how many loss probes are due.
    pub fn assemble_1rtt_packet(
        &mut self,
        keys: &mut OneRttKeys,
        header: &Vec<u8>,
        journal: &mut ArcSendJournal<T>,
        constraints: &Constraints,
        probes: u64,
        frames: &Vec<FrameWrite<T>>,
        accepted: &mut Vec<bool>,
        recovered: &mut Vec<T>,
    ) -> (result: Result<Option<PendingPacket>, QuicError>)
        requires
            old(self).overhead <= MIN_DATAGRAM,
            old(self).frames@.len() == 0,
            header@.len() > 0,
            old(keys).wf(),
            old(journal).wf(),
            old(journal).next_frame() + frames@.len() <= u64::MAX,
            2 * (old(journal).next_pn - old(journal).largest_acked) < 0x1_0000_0000,
        ensures
            final(keys).wf(),
            final(journal).wf(),
            final(self).same_queue(old(self)),
            old(self).assembles_short(
                final(self),
                old(keys),
                final(keys),
                header@,
                old(journal),
                final(journal),
                *constraints,
                probes,
                frames@,
                old(accepted)@,
                final(accepted)@,
                old(recovered)@,
                final(recovered)@,
                result,
            ),
    {
        let tag: usize = keys.tag_len();
        let full: bool = !journal.has_capacity();
        let limits: Constraints = match self.consider(
            full,
            constraints,
            probes,
            PacketType::OneRtt,
            header.len(),
            tag,
        ) {
            Admission::NoRecord => {
                self.signals = self.signals.union(Signals::transport());
                return Ok(None);
            },
            Admission::NoRoom => {
                self.signals = self.signals.union(Signals::credit());
                return Ok(None);
            },
            Admission::Granted(limits) => limits,
        };
        let ghost composition = composition(
            header@,
            PacketType::OneRtt,
            tag as int,
            limits,
            self.pending@,
            frames@,
            self.overhead as int,
        );
        let ghost handed = recovered@;
        proof {
            let fresh = fresh_view(header@, PacketType::OneRtt, tag as int, limits.capacity as int);
            lemma_assembled_type(fresh, limits, self.pending@, frames@);
            lemma_records_bounded(fresh, limits, self.pending@, frames@);
        }
        let packet: Packet = match self.compose(
            header,
            PacketType::OneRtt,
            tag,
            &limits,
            frames,
            accepted,
            recovered,
        ) {
            Ok(packet) => packet,
            Err(error) => {
                assert(recovered@.skip(handed.len() as int) =~= composition.records);
                assert(recovered@.take(handed.len() as int) =~= handed);
                assert(self.frames@ =~= old(self).frames@);
                return self.give_up(error);
            },
        };
        assert(self.frames@ =~= composition.records);
        assert(packet.view() == composition.packet);
        let ghost journal_before = *journal;
        let ((pn, number), key) = match keys.reserve(journal, &mut self.frames) {
            Ok(reserved) => reserved,
            Err(error) => {
                recovered.append(&mut self.frames);
                assert(recovered@.skip(handed.len() as int) =~= composition.records);
                assert(recovered@.take(handed.len() as int) =~= handed);
                assert(self.frames@ =~= old(self).frames@);
                return self.give_up(error);
            },
        };
        let ghost journal_middle = *journal;
        assert(recorded(&journal_before, &journal_middle, Some(key.generation), composition.records));
        let sealed: Result<PendingPacket, PacketError> = packet.seal(&key, pn, number);
        match finish_sealing(sealed, pn, journal, &mut self.frames) {
            Ok(packet) => {
                assert(recovered@.skip(handed.len() as int) =~= Seq::<T>::empty());
                assert(recovered@.take(handed.len() as int) =~= handed);
                assert(self.frames@ =~= old(self).frames@);
                proof {
                    assert(sealed_with(
                        old(keys),
                        keys,
                        key,
                        composition,
                        &journal_before,
                        journal,
                        Seq::empty(),
                        Ok(Some(packet)),
                    ));
                }
                Ok(Some(packet))
            },
            Err(error) => {
                proof {
                    let returned = choose|returned: Seq<T>|
                        {
                            &&& #[trigger] journal_middle.abandoned(journal, pn, returned)
                            &&& self.frames@ == Seq::<T>::empty() + returned
                        };
                    lemma_wasted(
                        &journal_before,
                        &journal_middle,
                        journal,
                        Some(key.generation),
                        composition.records,
                        returned,
                    );
                    assert(self.frames@ =~= composition.records);
                }
                recovered.append(&mut self.frames);
                assert(recovered@.skip(handed.len() as int) =~= composition.records);
                assert(recovered@.take(handed.len() as int) =~= handed);
                assert(self.frames@ =~= old(self).frames@);
                let result = self.give_up(error);
                assert(sealed_with(
                    old(keys),
                    keys,
                    key,
                    composition,
                    &journal_before,
                    journal,
                    composition.records,
                    result,
                ));
                result
            },
        }
    }

    /// Waits for what blocks a packet; any other obstacle ends the connection.
    fn give_up(&mut self, error: PacketError) -> (result: Result<Option<PendingPacket>, QuicError>)
        ensures
            final(self).same_queue(old(self)),
            match error {
                PacketError::Blocked(signals) => result == Ok::<Option<PendingPacket>, QuicError>(None)
                    && final(self).signals == old(self).signals.join(signals),
                error => result matches Err(fault) && packet_fault(error, fault) && final(self).signals == old(
                    self,
                ).signals,
            },
    {
        match error {
            PacketError::Blocked(signals) => {
                self.signals = self.signals.union(signals);
                Ok(None)
            },
            error => Err(packet_error(error)),
        }
    }
}

/// What sealing a numbered one-RTT packet with a reserved key came to.
pub open spec fn sealed_with<T: Copy>(
    keys: &OneRttKeys,
    keys_after: &OneRttKeys,
    key: OneRttSealingKey,
    composition: Composition<T>,
    journal: &ArcSendJournal<T>,
    journal_after: &ArcSendJournal<T>,
    recovered: Seq<T>,
    result: Result<Option<PendingPacket>, QuicError>,
) -> bool {
    let packet = composition.packet;
    let pn = journal.next_pn;
    let number = PacketNumber::encoded(pn, journal.largest_acked);
    let offset = packet.body_offset - 4;
    let wire = packet.wire(number);
    &&& keys.reserves(keys_after, key)
    &&& match sealed_packet(
        *key.sealing,
        key.updated,
        pn,
        wire.update(0, with_phase(wire[0], key.generation % 2 == 1)),
        offset,
        offset + number.bytes(),
        packet.tag_len,
    ) {
        Ok(bytes) => {
            &&& result matches Ok(Some(pending)) && pending.msg@ == bytes && bytes.len() == packet.wire_len(number)
                && packet.describes(pending, pn, number, Some(key.generation))
            &&& recorded(journal, journal_after, Some(key.generation), composition.records)
            &&& recovered == Seq::<T>::empty()
        },
        Err(error) => {
            &&& result matches Err(fault) && packet_fault(error, fault)
            &&& wasted(journal, journal_after, composition.records)
            &&& recovered == composition.records
        },
    }
}

/// What sealing a numbered one-RTT packet came to.
pub open spec fn sealed_one_rtt<T: Copy>(
    keys: &OneRttKeys,
    keys_after: &OneRttKeys,
    composition: Composition<T>,
    journal: &ArcSendJournal<T>,
    journal_after: &ArcSendJournal<T>,
    recovered: Seq<T>,
    result: Result<Option<PendingPacket>, QuicError>,
) -> bool {
    exists|key: OneRttSealingKey| #[trigger]
        sealed_with(keys, keys_after, key, composition, journal, journal_after, recovered, result)
}

proof fn lemma_records_bounded<T>(
    packet: PacketView,
    constraints: Constraints,
    pending: Seq<PendingPacket>,
    frames: Seq<FrameWrite<T>>,
)
    ensures
        assembled(packet, constraints, pending, frames).records.len() <= frames.len(),
    decreases frames.len(),
{
    if frames.len() > 0 {
        lemma_records_bounded(packet, constraints, pending, frames.drop_last());
    }
}

/// Why no packet could be put together is told as an internal error in words, but for an error of the
/// connection, which is told as it is.
pub proof fn packet_errors_are_told(error: PacketError, fault: QuicError)
    requires
        packet_fault(error, fault),
    ensures
        error matches PacketError::Connection(cause) ==> fault == cause,
        !(error is Connection) ==> fault.kind == ErrorKind::Internal,
        error is Layout ==> fault.reason@ == "invalid packet layout or capacity"@,
        error is Crypto ==> fault.reason@ == "packet protection failed"@,
        error matches PacketError::Blocked(signals) ==> fault.reason@ == "packet assembly blocked: "@
            + signals.described(),
{
}

} // verus!
