//! Putting packets together within their limits, and making them ready to be sealed.
use vstd::prelude::*;
use vstd::slice::{slice_subrange, slice_to_vec};

use crate::base::error::PacketError;
use crate::base::packet_number::PacketNumber;
use crate::base::signals::Signals;
use crate::transport::constraints::{least, lesser, Constraints};
use crate::transport::keys::OneRttSealingKey;
use crate::transport::sealing::{seal_long, sealed_packet, with_phase};

verus! {

/// Longest encoding of a variable-length integer.
pub const VARINT_MAX_SIZE: usize = 8;

/// The packet-number spaces.
#[derive(Clone, Copy, Debug, PartialEq, Eq, Structural)]
pub enum Epoch {
    Initial,
    Handshake,
    Data,
}

#[derive(Clone, Copy, Debug, PartialEq, Eq, Structural)]
pub enum PacketType {
    Initial,
    ZeroRtt,
    Handshake,
    OneRtt,
}

/// What a packet asks of its receiver, weakest first.
#[derive(Clone, Copy, Debug, PartialEq, Eq, Structural)]
pub enum PacketContent {
    NonAckEliciting,
    JustPing,
    EffectivePayload,
}

impl PacketContent {
    /// The stronger of the two.
    pub open spec fn joined(self, other: PacketContent) -> PacketContent {
        if self is EffectivePayload || other is EffectivePayload {
            PacketContent::EffectivePayload
        } else if self is JustPing || other is JustPing {
            PacketContent::JustPing
        } else {
            PacketContent::NonAckEliciting
        }
    }

    pub open spec fn elicits(self) -> bool {
        !(self is NonAckEliciting)
    }

    pub fn join(self, other: PacketContent) -> (content: PacketContent)
        ensures
            content == self.joined(other),
    {
        match (self, other) {
            (PacketContent::EffectivePayload, _) => PacketContent::EffectivePayload,
            (_, PacketContent::EffectivePayload) => PacketContent::EffectivePayload,
            (PacketContent::JustPing, _) => PacketContent::JustPing,
            (_, PacketContent::JustPing) => PacketContent::JustPing,
            _ => PacketContent::NonAckEliciting,
        }
    }

    pub fn is_ack_eliciting(self) -> (elicits: bool)
        ensures
            elicits == self.elicits(),
    {
        match self {
            PacketContent::NonAckEliciting => false,
            _ => true,
        }
    }
}

/// What matters of a frame besides its bytes. A frame that must arrive has a descriptor by which
/// it is recovered. A source that has no frame says what it waits for instead.
#[derive(Clone, Copy, Debug, PartialEq, Eq)]
pub enum FrameKind<T> {
    Padding,
    Ping,
    Ack { largest: u64 },
    PathChallenge(u64),
    PathResponse(u64),
    Datagram,
    Close,
    Guaranteed(T),
    Idle(Signals),
}

impl<T> FrameKind<T> {
    pub open spec fn content(self) -> PacketContent {
        match self {
            FrameKind::Padding => PacketContent::NonAckEliciting,
            FrameKind::Ack { .. } => PacketContent::NonAckEliciting,
            FrameKind::Close => PacketContent::NonAckEliciting,
            FrameKind::Idle(_) => PacketContent::NonAckEliciting,
            FrameKind::Ping => PacketContent::JustPing,
            _ => PacketContent::EffectivePayload,
        }
    }
}

/// What a source offers: an encoded frame, and whether its type may stand in the packet at hand, or
/// nothing.
#[derive(Debug)]
pub struct FrameWrite<T> {
    pub kind: FrameKind<T>,
    pub bytes: Vec<u8>,
    pub belongs: bool,
}

pub open spec fn epoch_of(packet_type: PacketType) -> Epoch {
    match packet_type {
        PacketType::Initial => Epoch::Initial,
        PacketType::Handshake => Epoch::Handshake,
        _ => Epoch::Data,
    }
}

pub fn epoch(packet_type: PacketType) -> (epoch: Epoch)
    ensures
        epoch == epoch_of(packet_type),
{
    match packet_type {
        PacketType::Initial => Epoch::Initial,
        PacketType::Handshake => Epoch::Handshake,
        _ => Epoch::Data,
    }
}

pub open spec fn is_long(packet_type: PacketType) -> bool {
    !(packet_type is OneRtt)
}

/// Bytes of the length field in a long header.
pub open spec fn length_size(packet_type: PacketType) -> int {
    if is_long(packet_type) {
        2
    } else {
        0
    }
}

/// A sealed packet that waits to be submitted.
#[derive(Debug)]
pub struct PendingPacket {
    pub msg: Vec<u8>,
    pub packet_type: PacketType,
    pub challenge: Option<u64>,
    pub response: Option<u64>,
    pub pn: u64,
    pub generation: Option<u64>,
    pub content: PacketContent,
    pub in_flight: bool,
    pub largest_acked: Option<u64>,
}

impl PendingPacket {
    pub fn bytes(&self) -> (bytes: &[u8])
        ensures
            bytes@ == self.msg@,
    {
        self.msg.as_slice()
    }

    pub fn epoch(&self) -> (found: Epoch)
        ensures
            found == epoch_of(self.packet_type),
    {
        epoch(self.packet_type)
    }
}

/// Whether `sent`, which waits in the same burst, makes a frame of this kind redundant.
pub open spec fn repeats<T>(sent: PendingPacket, packet_type: PacketType, kind: FrameKind<T>) -> bool {
    match kind {
        FrameKind::Ack { largest } => epoch_of(sent.packet_type) == epoch_of(packet_type) && (
        sent.largest_acked matches Some(pn) && pn >= largest),
        FrameKind::PathChallenge(token) => sent.challenge == Some(token),
        FrameKind::PathResponse(token) => sent.response == Some(token),
        _ => false,
    }
}

/// Whether one of the waiting packets makes a frame of this kind redundant.
pub open spec fn duplicate<T>(pending: Seq<PendingPacket>, packet_type: PacketType, kind: FrameKind<T>) -> bool {
    exists|i: int| #![trigger pending[i]] 0 <= i < pending.len() && repeats(pending[i], packet_type, kind)
}

/// A packet that is being put together, with four bytes kept for its number.
#[derive(Debug)]
pub struct Packet {
    pub msg: Vec<u8>,
    pub packet_type: PacketType,
    pub challenge: Option<u64>,
    pub response: Option<u64>,
    pub padded_to: usize,
    pub body_offset: usize,
    pub cursor: usize,
    pub tag_len: usize,
    pub content: PacketContent,
    pub in_flight: bool,
    pub largest_acked: Option<u64>,
}

pub open spec fn zeros(count: int) -> Seq<u8> {
    Seq::new(count as nat, |i: int| 0u8)
}

/// The largest of the two.
pub open spec fn greatest(left: int, right: int) -> int {
    if left < right {
        right
    } else {
        left
    }
}

/// The state of a packet that is being put together.
#[verifier::ext_equal]
pub struct PacketView {
    pub msg: Seq<u8>,
    pub packet_type: PacketType,
    pub challenge: Option<u64>,
    pub response: Option<u64>,
    pub padded_to: int,
    pub body_offset: int,
    pub cursor: int,
    pub tag_len: int,
    pub content: PacketContent,
    pub in_flight: bool,
    pub largest_acked: Option<u64>,
}

impl PacketView {
    pub open spec fn wf(self) -> bool {
        &&& 4 + length_size(self.packet_type) < self.body_offset <= self.cursor
        &&& 0 <= self.tag_len
        &&& self.cursor + self.tag_len <= self.msg.len()
        &&& 0 <= self.padded_to <= self.cursor + self.tag_len
        &&& self.content.elicits() ==> self.in_flight
    }

    /// Where a frame of `length` bytes would end, with the padding that header protection of the
    /// shortest packet number needs.
    pub open spec fn end_after(self, length: int) -> int {
        greatest(self.cursor + length, self.body_offset + 18 - self.tag_len)
    }

    /// Whether the packet would count as in flight with a frame of this kind and length.
    pub open spec fn in_flight_with<T>(self, kind: FrameKind<T>, length: int) -> bool {
        ||| self.in_flight
        ||| kind.content().elicits()
        ||| kind is Padding
        ||| self.end_after(length) != self.cursor + length
    }

    /// Why a frame cannot be written, if so.
    pub open spec fn obstacle<T>(
        self,
        constraints: Constraints,
        pending: Seq<PendingPacket>,
        frame: FrameWrite<T>,
    ) -> Option<Signals> {
        let size = self.end_after(frame.bytes@.len() as int) + self.tag_len;
        if let FrameKind::Idle(signals) = frame.kind {
            Some(signals)
        } else if duplicate(pending, self.packet_type, frame.kind) || !frame.belongs {
            Some(Signals::only_transport())
        } else if size > least(
            self.msg.len() as int,
            least(constraints.capacity as int, constraints.anti_amplification as int),
        ) || (self.in_flight_with(frame.kind, frame.bytes@.len() as int) && size > constraints.congestion) {
            Some(Signals::only_congestion())
        } else {
            None
        }
    }

    /// The packet once a frame is written.
    pub open spec fn with_frame<T>(self, frame: FrameWrite<T>) -> PacketView {
        let length = frame.bytes@.len() as int;
        let end = self.end_after(length);
        PacketView {
            msg: self.msg.take(self.cursor) + frame.bytes@ + zeros(end - self.cursor - length) + self.msg.skip(end),
            cursor: end,
            content: self.content.joined(frame.kind.content()),
            in_flight: self.in_flight_with(frame.kind, length),
            largest_acked: match frame.kind {
                FrameKind::Ack { largest } => Some(largest),
                _ => self.largest_acked,
            },
            challenge: match frame.kind {
                FrameKind::PathChallenge(token) => Some(token),
                _ => self.challenge,
            },
            response: match frame.kind {
                FrameKind::PathResponse(token) => Some(token),
                _ => self.response,
            },
            ..self
        }
    }

    /// Why the packet cannot be padded to `length` bytes, if so.
    pub open spec fn padding_refused(self, length: int, constraints: Constraints) -> bool {
        let size = self.cursor + self.tag_len;
        length > greatest(size - 2, 0) && (self.cursor == self.body_offset || length > room_limit(
            self.msg.len() as int,
            constraints,
        ))
    }

    /// The packet padded to `length` bytes.
    pub open spec fn padded(self, length: int) -> PacketView {
        let size = self.cursor + self.tag_len;
        let asked = PacketView { padded_to: greatest(self.padded_to, length), ..self };
        if length > size {
            PacketView {
                msg: self.msg.take(self.cursor) + zeros(length - size) + self.msg.skip(length - self.tag_len),
                cursor: length - self.tag_len,
                in_flight: true,
                ..asked
            }
        } else {
            asked
        }
    }

    /// Room left for the data of a frame whose length field may have to be added.
    pub open spec fn room(self, constraints: Constraints) -> int {
        greatest(
            room_limit(self.msg.len() as int, constraints) - self.cursor - self.tag_len - VARINT_MAX_SIZE,
            0,
        )
    }
}

impl PacketView {
    /// Bytes that the packet takes on the wire with this packet number.
    pub open spec fn wire_len(self, number: PacketNumber) -> int {
        greatest(self.cursor + self.tag_len - (4 - number.bytes()), self.padded_to)
    }

    /// Whether fixing the packet number calls for padding.
    pub open spec fn needs_padding(self, number: PacketNumber) -> bool {
        self.wire_len(number) > self.cursor + self.tag_len - (4 - number.bytes())
    }

    /// The length field of a long header: two bytes that count what follows them.
    pub open spec fn length_field(self, number: PacketNumber) -> u16 {
        0x4000u16 | ((self.wire_len(number) - (self.body_offset - 4)) as u16)
    }

    /// The header up to the packet number.
    pub open spec fn header(self, number: PacketNumber) -> Seq<u8> {
        let end = self.body_offset - 4;
        let plain = self.msg.take(end).update(0, self.msg[0] | ((number.bytes() - 1) as u8));
        if is_long(self.packet_type) {
            plain.update(end - 2, (self.length_field(number) / 0x100) as u8).update(
                end - 1,
                (self.length_field(number) % 0x100) as u8,
            )
        } else {
            plain
        }
    }

    /// The packet before it is sealed; its last bytes are kept for the tag.
    pub open spec fn wire(self, number: PacketNumber) -> Seq<u8> {
        let header = self.header(number);
        let body = self.msg.subrange(self.body_offset, self.cursor);
        let used = header.len() + number.bytes() + body.len();
        header + number.wire() + body + zeros(self.wire_len(number) - used)
    }
}

/// The tightest of all limits on a packet that counts as in flight.
pub open spec fn room_limit(buffer: int, constraints: Constraints) -> int {
    least(
        buffer,
        least(
            constraints.congestion as int,
            least(constraints.capacity as int, constraints.anti_amplification as int),
        ),
    )
}

/// What assembling comes to.
pub struct Assembly<T> {
    pub packet: PacketView,
    pub records: Seq<T>,
    pub accepted: Seq<bool>,
    pub blocked: Signals,
}

/// The frames written in turn, each if nothing stands in its way.
pub open spec fn assembled<T>(
    packet: PacketView,
    constraints: Constraints,
    pending: Seq<PendingPacket>,
    frames: Seq<FrameWrite<T>>,
) -> Assembly<T>
    decreases frames.len(),
{
    if frames.len() == 0 {
        Assembly { packet, records: Seq::empty(), accepted: Seq::empty(), blocked: Signals::none() }
    } else {
        let before = assembled(packet, constraints, pending, frames.drop_last());
        let frame = frames.last();
        match before.packet.obstacle(constraints, pending, frame) {
            Some(signals) => Assembly {
                accepted: before.accepted.push(false),
                blocked: before.blocked.join(signals),
                ..before
            },
            None => Assembly {
                packet: before.packet.with_frame(frame),
                records: match frame.kind {
                    FrameKind::Guaranteed(descriptor) => before.records.push(descriptor),
                    _ => before.records,
                },
                accepted: before.accepted.push(true),
                ..before
            },
        }
    }
}

impl Packet {
    pub open spec fn view(&self) -> PacketView {
        PacketView {
            msg: self.msg@,
            packet_type: self.packet_type,
            challenge: self.challenge,
            response: self.response,
            padded_to: self.padded_to as int,
            body_offset: self.body_offset as int,
            cursor: self.cursor as int,
            tag_len: self.tag_len as int,
            content: self.content,
            in_flight: self.in_flight,
            largest_acked: self.largest_acked,
        }
    }

    pub open spec fn wf(&self) -> bool {
        self.view().wf()
    }

    /// Starts a packet in `buffer` with an encoded header whose packet-number length bits are
    /// clear.
    pub fn new(buffer: Vec<u8>, header: &Vec<u8>, packet_type: PacketType, tag_len: usize) -> (result: Result<
        Packet,
        PacketError,
    >)
        requires
            header@.len() > 0,
        ensures
            ({
                let offset = header@.len() + length_size(packet_type) + 4;
                match result {
                    Ok(packet) => {
                        &&& offset + tag_len < buffer@.len()
                        &&& packet.wf()
                        &&& packet.msg@ == header@ + zeros(offset - header@.len()) + buffer@.skip(offset)
                        &&& packet.packet_type == packet_type
                        &&& packet.body_offset == offset
                        &&& packet.cursor == offset
                        &&& packet.tag_len == tag_len
                        &&& packet.padded_to == 0
                        &&& packet.content == PacketContent::NonAckEliciting
                        &&& !packet.in_flight
                        &&& packet.challenge is None
                        &&& packet.response is None
                        &&& packet.largest_acked is None
                    },
                    Err(error) => error == PacketError::Layout && offset + tag_len >= buffer@.len(),
                }
            }),
    {
        let extra: usize = match packet_type {
            PacketType::OneRtt => 4,
            _ => 6,
        };
        if tag_len > buffer.len() || header.len() > buffer.len() - tag_len || extra >= buffer.len() - tag_len
            - header.len() {
            return Err(PacketError::Layout);
        }
        let body_offset: usize = header.len() + extra;
        let mut msg: Vec<u8> = slice_to_vec(header.as_slice());
        let mut room: Vec<u8> = zeroed(extra);
        msg.append(&mut room);
        let mut rest: Vec<u8> = slice_to_vec(slice_subrange(buffer.as_slice(), body_offset, buffer.len()));
        msg.append(&mut rest);
        assert(msg@ =~= header@ + zeros(extra as int) + buffer@.skip(body_offset as int));
        Ok(
            Packet {
                msg,
                packet_type,
                challenge: None,
                response: None,
                padded_to: 0,
                body_offset,
                cursor: body_offset,
                tag_len,
                content: PacketContent::NonAckEliciting,
                in_flight: false,
                largest_acked: None,
            },
        )
    }

    pub fn has_path_frames(&self) -> (found: bool)
        ensures
            found <==> self.challenge is Some || self.response is Some,
    {
        self.challenge.is_some() || self.response.is_some()
    }

    fn repeats_pending<T: Copy>(&self, pending: &Vec<PendingPacket>, kind: FrameKind<T>) -> (found: bool)
        ensures
            found == duplicate(pending@, self.packet_type, kind),
    {
        let mut index: usize = 0;
        while index < pending.len()
            invariant
                index <= pending@.len(),
                forall|i: int|
                    #![trigger pending@[i]]
                    0 <= i < index ==> !repeats(pending@[i], self.packet_type, kind),
            decreases pending@.len() - index,
        {
            let sent: &PendingPacket = &pending[index];
            let found: bool = match kind {
                FrameKind::Ack { largest } => sent.epoch() == epoch(self.packet_type) && match sent.largest_acked {
                    Some(pn) => pn >= largest,
                    None => false,
                },
                FrameKind::PathChallenge(token) => match sent.challenge {
                    Some(other) => other == token,
                    None => false,
                },
                FrameKind::PathResponse(token) => match sent.response {
                    Some(other) => other == token,
                    None => false,
                },
                _ => false,
            };
            if found {
                return true;
            }
            index = index + 1;
        }
        false
    }

    /// Writes one frame if the limits allow it, and records what must be recovered. A frame that
    /// a waiting packet makes redundant, or that does not belong into the packet, is refused.
    pub fn write<T: Copy>(
        &mut self,
        constraints: &Constraints,
        records: &mut Vec<T>,
        pending: &Vec<PendingPacket>,
        frame: &FrameWrite<T>,
    ) -> (result: Result<PacketContent, Signals>)
        requires
            old(self).wf(),
        ensures
            final(self).wf(),
            match (result, old(self).view().obstacle(*constraints, pending@, *frame)) {
                (Ok(content), None) => {
                    &&& content == frame.kind.content()
                    &&& final(self).view() == old(self).view().with_frame(*frame)
                    &&& final(records)@ == match frame.kind {
                        FrameKind::Guaranteed(descriptor) => old(records)@.push(descriptor),
                        _ => old(records)@,
                    }
                },
                (Err(signals), Some(obstacle)) => {
                    &&& signals == obstacle
                    &&& final(self).view() == old(self).view()
                    &&& final(records)@ == old(records)@
                },
                _ => false,
            },
    {
        if let FrameKind::Idle(signals) = frame.kind {
            return Err(signals);
        }
        if self.repeats_pending(pending, frame.kind) {
            return Err(Signals::transport());
        }
        if !frame.belongs {
            return Err(Signals::transport());
        }
        let length: usize = frame.bytes.len();
        if length > self.msg.len() - self.cursor {
            return Err(Signals::congestion());
        }
        let end: usize = self.cursor + length;
        let floor: usize = if self.body_offset > usize::MAX - 18 {
            return Err(Signals::congestion());
        } else if self.body_offset + 18 < self.tag_len {
            0
        } else {
            self.body_offset + 18 - self.tag_len
        };
        let padded_end: usize = if end < floor {
            floor
        } else {
            end
        };
        let content: PacketContent = match frame.kind {
            FrameKind::Padding => PacketContent::NonAckEliciting,
            FrameKind::Ack { .. } => PacketContent::NonAckEliciting,
            FrameKind::Close => PacketContent::NonAckEliciting,
            FrameKind::Ping => PacketContent::JustPing,
            _ => PacketContent::EffectivePayload,
        };
        let padding: bool = match frame.kind {
            FrameKind::Padding => true,
            _ => false,
        };
        let in_flight: bool = self.in_flight || content.is_ack_eliciting() || padding || padded_end != end;
        let room: usize = lesser(
            self.msg.len(),
            lesser(constraints.capacity, constraints.anti_amplification),
        );
        if padded_end > self.msg.len() || self.tag_len > self.msg.len() - padded_end {
            return Err(Signals::congestion());
        }
        let size: usize = padded_end + self.tag_len;
        if size > room || (in_flight && size > constraints.congestion) {
            return Err(Signals::congestion());
        }
        let ghost before = self.msg@;
        let mut rest: Vec<u8> = self.msg.split_off(padded_end);
        self.msg.truncate(self.cursor);
        let mut bytes: Vec<u8> = slice_to_vec(frame.bytes.as_slice());
        self.msg.append(&mut bytes);
        let mut padding: Vec<u8> = zeroed(padded_end - end);
        self.msg.append(&mut padding);
        self.msg.append(&mut rest);
        assert(self.msg@ =~= before.take(self.cursor as int) + frame.bytes@ + zeros(padded_end - end) + before.skip(
            padded_end as int,
        ));
        self.cursor = padded_end;
        self.content = self.content.join(content);
        self.in_flight = in_flight;
        match frame.kind {
            FrameKind::Ack { largest } => {
                self.largest_acked = Some(largest);
            },
            FrameKind::PathChallenge(token) => {
                self.challenge = Some(token);
            },
            FrameKind::PathResponse(token) => {
                self.response = Some(token);
            },
            FrameKind::Guaranteed(descriptor) => {
                records.push(descriptor);
            },
            _ => {},
        }
        Ok(content)
    }

    /// Writes the frames in turn, each if the limits allow it. `accepted` tells which were
    /// written; the others stay with their sources. Nothing written at all is an error that says
    /// what the sources wait for.
    pub fn assemble<T: Copy>(
        &mut self,
        constraints: &Constraints,
        records: &mut Vec<T>,
        pending: &Vec<PendingPacket>,
        frames: &Vec<FrameWrite<T>>,
        accepted: &mut Vec<bool>,
    ) -> (result: Result<PacketContent, PacketError>)
        requires
            old(self).wf(),
        ensures
            final(self).wf(),
            ({
                let assembly = assembled(old(self).view(), *constraints, pending@, frames@);
                &&& final(self).view() == assembly.packet
                &&& final(records)@ == old(records)@ + assembly.records
                &&& final(accepted)@ == old(accepted)@ + assembly.accepted
                &&& result == if assembly.packet.cursor == old(self).cursor {
                    Err::<PacketContent, PacketError>(PacketError::Blocked(assembly.blocked))
                } else {
                    Ok(assembly.packet.content)
                }
            }),
    {
        let start: usize = self.cursor;
        let ghost before = self.view();
        let ghost recorded = records@;
        let ghost flagged = accepted@;
        let mut blocked: Signals = Signals::empty();
        let mut index: usize = 0;
        assert(frames@.take(0) =~= Seq::<FrameWrite<T>>::empty());
        assert(records@ =~= recorded + Seq::<T>::empty());
        assert(accepted@ =~= flagged + Seq::<bool>::empty());
        while index < frames.len()
            invariant
                self.wf(),
                index <= frames@.len(),
                ({
                    let assembly = assembled(before, *constraints, pending@, frames@.take(index as int));
                    &&& self.view() == assembly.packet
                    &&& records@ == recorded + assembly.records
                    &&& accepted@ == flagged + assembly.accepted
                    &&& blocked == assembly.blocked
                }),
            decreases frames@.len() - index,
        {
            assert(frames@.take(index + 1).drop_last() =~= frames@.take(index as int));
            let ghost previous = assembled(before, *constraints, pending@, frames@.take(index as int));
            match self.write(constraints, records, pending, &frames[index]) {
                Ok(_) => {
                    accepted.push(true);
                },
                Err(signals) => {
                    blocked = blocked.union(signals);
                    accepted.push(false);
                },
            }
            index = index + 1;
            proof {
                let assembly = assembled(before, *constraints, pending@, frames@.take(index as int));
                assert(records@ =~= recorded + assembly.records);
                assert(accepted@ =~= flagged + assembly.accepted);
            }
        }
        assert(frames@.take(index as int) =~= frames@);
        if self.cursor == start {
            return Err(PacketError::Blocked(blocked));
        }
        Ok(self.content)
    }

    /// Pads the packet to `length` bytes on the wire. Padding makes the whole packet count
    /// against the congestion limit. The packet number may yet take two bytes fewer than are kept
    /// for it, so that a length just below the present one can call for padding too.
    pub fn pad_to(&mut self, length: usize, constraints: &Constraints) -> (result: Result<(), PacketError>)
        requires
            old(self).wf(),
        ensures
            final(self).wf(),
            match result {
                Ok(()) => {
                    &&& !old(self).view().padding_refused(length as int, *constraints)
                    &&& final(self).view() == old(self).view().padded(length as int)
                },
                Err(error) => {
                    &&& old(self).view().padding_refused(length as int, *constraints)
                    &&& error == PacketError::Blocked(Signals::only_congestion())
                    &&& final(self).view() == old(self).view()
                },
            },
    {
        assert(self.msg@.len() == self.msg.len());
        let size: usize = self.cursor + self.tag_len;
        let floor: usize = if size < 2 {
            0
        } else {
            size - 2
        };
        if length > floor {
            if self.cursor == self.body_offset || length > self.msg.len() || length > lesser(
                constraints.capacity,
                constraints.anti_amplification,
            ) || length > constraints.congestion {
                return Err(PacketError::Blocked(Signals::congestion()));
            }
            if length > size {
                let ghost before = self.msg@;
                let end: usize = length - self.tag_len;
                let mut rest: Vec<u8> = self.msg.split_off(end);
                self.msg.truncate(self.cursor);
                let mut padding: Vec<u8> = zeroed(end - self.cursor);
                self.msg.append(&mut padding);
                self.msg.append(&mut rest);
                assert(self.msg@ =~= before.take(self.cursor as int) + zeros(length - size) + before.skip(
                    end as int,
                ));
                self.cursor = end;
                self.in_flight = true;
                self.content = self.content.join(PacketContent::NonAckEliciting);
            }
        }
        if self.padded_to < length {
            self.padded_to = length;
        }
        Ok(())
    }

    /// Room left for the data of a frame whose length field may have to be added.
    pub fn remaining_mut(&self, constraints: &Constraints) -> (room: usize)
        requires
            self.wf(),
        ensures
            room == self.view().room(*constraints),
    {
        let limit: usize = lesser(
            self.msg.len(),
            lesser(constraints.congestion, lesser(constraints.capacity, constraints.anti_amplification)),
        );
        assert(self.msg@.len() == self.msg.len());
        let used: usize = self.cursor + self.tag_len;
        if limit <= used || limit - used <= VARINT_MAX_SIZE {
            0
        } else {
            limit - used - VARINT_MAX_SIZE
        }
    }

    /// Takes up `count` bytes that are zero already: padding in front of a frame.
    pub fn advance_mut(&mut self, constraints: &Constraints, count: usize)
        requires
            old(self).wf(),
            count <= old(self).view().room(*constraints),
            forall|i: int|
                #![trigger old(self).msg@[i]]
                old(self).cursor <= i < old(self).cursor + count ==> old(self).msg@[i] == 0,
        ensures
            final(self).wf(),
            final(self).view() == (PacketView {
                cursor: old(self).cursor + count,
                in_flight: old(self).in_flight || count != 0,
                ..old(self).view()
            }),
    {
        self.cursor = self.cursor + count;
        if count != 0 {
            self.in_flight = true;
        }
    }
}

impl Packet {
    /// The packet with its number, ready to be sealed.
    fn finalize(&self, number: PacketNumber) -> (wire: Vec<u8>)
        requires
            self.wf(),
            number.wf(),
        ensures
            wire@ == self.view().wire(number),
            wire@.len() == self.view().wire_len(number),
    {
        assert(self.msg@.len() == self.msg.len());
        let pn_offset: usize = self.body_offset - 4;
        let size: usize = number.size();
        let shift: usize = 4 - size;
        let unpadded: usize = self.cursor + self.tag_len - shift;
        let total: usize = if unpadded < self.padded_to {
            self.padded_to
        } else {
            unpadded
        };
        let mut wire: Vec<u8> = slice_to_vec(slice_subrange(self.msg.as_slice(), 0, pn_offset));
        let first: u8 = self.msg[0] | ((size - 1) as u8);
        wire.set(0, first);
        let long: bool = match self.packet_type {
            PacketType::OneRtt => false,
            _ => true,
        };
        if long {
            let length: u16 = 0x4000u16 | ((total - pn_offset) as u16);
            wire.set(pn_offset - 2, (length / 0x100) as u8);
            wire.set(pn_offset - 1, (length % 0x100) as u8);
        }
        assert(wire@ =~= self.view().header(number));
        let mut bytes: Vec<u8> = number.to_bytes();
        wire.append(&mut bytes);
        let mut body: Vec<u8> = slice_to_vec(slice_subrange(self.msg.as_slice(), self.body_offset, self.cursor));
        wire.append(&mut body);
        let mut padding: Vec<u8> = zeroed(total - wire.len());
        wire.append(&mut padding);
        assert(wire@ =~= self.view().wire(number));
        wire
    }

    fn sealed_as(self, msg: Vec<u8>, pn: u64, number: PacketNumber, generation: Option<u64>) -> (packet: PendingPacket)
        requires
            self.wf(),
        ensures
            packet.msg == msg,
            self.view().describes(packet, pn, number, generation),
    {
        assert(self.msg@.len() == self.msg.len());
        let unpadded: usize = self.cursor + self.tag_len - (4 - number.size());
        PendingPacket {
            msg,
            packet_type: self.packet_type,
            challenge: self.challenge,
            response: self.response,
            pn,
            generation,
            content: self.content,
            in_flight: self.in_flight || self.padded_to > unpadded,
            largest_acked: self.largest_acked,
        }
    }

    /// Seals the packet with the key that was reserved together with its number. What becomes of
    /// the journal's record is for the caller to say.
    pub fn seal(self, key: &OneRttSealingKey, pn: u64, number: PacketNumber) -> (result: Result<
        PendingPacket,
        PacketError,
    >)
        requires
            self.wf(),
            number.wf(),
        ensures
            ({
                let packet = self.view();
                let wire = packet.wire(number);
                let offset = packet.body_offset - 4;
                let outcome = sealed_packet(
                    *key.sealing,
                    key.updated,
                    pn,
                    wire.update(0, with_phase(wire[0], key.generation % 2 == 1)),
                    offset,
                    offset + number.bytes(),
                    packet.tag_len,
                );
                match result {
                    Ok(pending) => {
                        &&& outcome == Ok::<Seq<u8>, PacketError>(pending.msg@)
                        &&& pending.msg@.len() == packet.wire_len(number)
                        &&& packet.describes(pending, pn, number, Some(key.generation))
                    },
                    Err(error) => outcome == Err::<Seq<u8>, PacketError>(error),
                }
            }),
    {
        let wire: Vec<u8> = self.finalize(number);
        let pn_offset: usize = self.body_offset - 4;
        match key.seal(pn, &wire, pn_offset, pn_offset + number.size(), self.tag_len) {
            Ok((msg, generation, _)) => Ok(self.sealed_as(msg, pn, number, Some(generation))),
            Err(error) => Err(error),
        }
    }

    /// Seals the packet with keys that have one generation only.
    pub fn seal_long(self, keys: &rustls::quic::DirectionalKeys, pn: u64, number: PacketNumber) -> (result: Result<
        PendingPacket,
        PacketError,
    >)
        requires
            self.wf(),
            number.wf(),
        ensures
            ({
                let packet = self.view();
                let offset = packet.body_offset - 4;
                let outcome = sealed_packet(
                    *keys,
                    None,
                    pn,
                    packet.wire(number),
                    offset,
                    offset + number.bytes(),
                    packet.tag_len,
                );
                match result {
                    Ok(pending) => {
                        &&& outcome == Ok::<Seq<u8>, PacketError>(pending.msg@)
                        &&& pending.msg@.len() == packet.wire_len(number)
                        &&& packet.describes(pending, pn, number, None)
                    },
                    Err(error) => outcome == Err::<Seq<u8>, PacketError>(error),
                }
            }),
    {
        let wire: Vec<u8> = self.finalize(number);
        let pn_offset: usize = self.body_offset - 4;
        match seal_long(keys, pn, &wire, pn_offset, pn_offset + number.size(), self.tag_len) {
            Ok(msg) => Ok(self.sealed_as(msg, pn, number, None)),
            Err(error) => Err(error),
        }
    }
}

impl PacketView {
    /// Whether `pending` is this packet, sealed.
    pub open spec fn describes(
        self,
        pending: PendingPacket,
        pn: u64,
        number: PacketNumber,
        generation: Option<u64>,
    ) -> bool {
        &&& pending.packet_type == self.packet_type
        &&& pending.challenge == self.challenge
        &&& pending.response == self.response
        &&& pending.pn == pn
        &&& pending.generation == generation
        &&& pending.content == self.content
        &&& pending.in_flight == (self.in_flight || self.needs_padding(number))
        &&& pending.largest_acked == self.largest_acked
    }

    /// Whether the packet respects the limits, whatever length its number will have.
    pub open spec fn respects(self, constraints: Constraints) -> bool {
        let size = self.cursor + self.tag_len;
        &&& self.cursor > self.body_offset ==> size <= least(
            constraints.capacity as int,
            constraints.anti_amplification as int,
        )
        &&& self.in_flight && self.cursor > self.body_offset ==> size <= constraints.congestion
        &&& self.padded_to > size - 2 && self.padded_to > 0 ==> self.padded_to <= room_limit(
            self.msg.len() as int,
            constraints,
        )
        &&& self.padded_to <= size
    }
}

/// A fresh packet respects any limits.
pub proof fn fresh_packet_respects_limits(packet: PacketView, constraints: Constraints)
    requires
        packet.wf(),
        packet.cursor == packet.body_offset,
        packet.padded_to == 0,
    ensures
        packet.respects(constraints),
{
}

/// Neither writing nor padding ever exceeds the limits they are given.
pub proof fn assembly_respects_limits<T>(
    packet: PacketView,
    constraints: Constraints,
    pending: Seq<PendingPacket>,
    frames: Seq<FrameWrite<T>>,
)
    requires
        packet.wf(),
        packet.respects(constraints),
    ensures
        assembled(packet, constraints, pending, frames).packet.wf(),
        assembled(packet, constraints, pending, frames).packet.respects(constraints),
    decreases frames.len(),
{
    if frames.len() > 0 {
        assembly_respects_limits(packet, constraints, pending, frames.drop_last());
        let before = assembled(packet, constraints, pending, frames.drop_last()).packet;
        let frame = frames.last();
        if before.obstacle(constraints, pending, frame) is None {
            let end = before.end_after(frame.bytes@.len() as int);
            let after = before.with_frame(frame);
            assert(after.msg.len() == before.msg.len());
        }
    }
}

/// Padding respects the limits too.
pub proof fn padding_respects_limits(packet: PacketView, length: int, constraints: Constraints)
    requires
        packet.wf(),
        packet.respects(constraints),
        0 <= length,
        !packet.padding_refused(length, constraints),
    ensures
        packet.padded(length).wf(),
        packet.padded(length).respects(constraints),
{
    let size = packet.cursor + packet.tag_len;
    if length > size {
        let after = packet.padded(length);
        assert(after.msg.len() == packet.msg.len());
    }
}

/// A packet that respects the limits does so on the wire: its length is within the buffer, the
/// capacity and the anti-amplification credit, and within the congestion limit if it counts as in
/// flight, with any packet number of at least two bytes.
pub proof fn sealed_packet_respects_limits(packet: PacketView, number: PacketNumber, constraints: Constraints)
    requires
        packet.wf(),
        packet.cursor > packet.body_offset,
        packet.respects(constraints),
        number.bytes() >= 2,
    ensures
        packet.wire_len(number) <= packet.msg.len(),
        packet.wire_len(number) <= constraints.capacity,
        packet.wire_len(number) <= constraints.anti_amplification,
        packet.in_flight || packet.needs_padding(number) ==> packet.wire_len(number) <= constraints.congestion,
{
}

/// Once a frame is written there is a whole sample for header protection behind the packet
/// number, with any packet number of at least two bytes.
pub proof fn written_packet_has_a_sample<T>(packet: PacketView, frame: FrameWrite<T>, number: PacketNumber)
    requires
        packet.wf(),
        number.bytes() >= 2,
    ensures
        ({
            let after = packet.with_frame(frame);
            after.wire_len(number) >= after.body_offset - 4 + 4 + 16
        }),
{
}

/// A source whose frame is refused keeps it: exactly the accepted frames are recorded.
pub proof fn only_accepted_frames_are_recorded<T>(
    packet: PacketView,
    constraints: Constraints,
    pending: Seq<PendingPacket>,
    frames: Seq<FrameWrite<T>>,
)
    ensures
        ({
            let assembly = assembled(packet, constraints, pending, frames);
            &&& assembly.accepted.len() == frames.len()
            &&& assembly.records == guaranteed(frames, assembly.accepted)
        }),
    decreases frames.len(),
{
    if frames.len() > 0 {
        let rest = frames.drop_last();
        only_accepted_frames_are_recorded(packet, constraints, pending, rest);
        let accepted = assembled(packet, constraints, pending, frames).accepted;
        assert(accepted.drop_last() =~= assembled(packet, constraints, pending, rest).accepted);
    }
}

/// The descriptors of the accepted frames that must arrive.
pub open spec fn guaranteed<T>(frames: Seq<FrameWrite<T>>, accepted: Seq<bool>) -> Seq<T>
    decreases frames.len(),
{
    if frames.len() == 0 {
        Seq::empty()
    } else {
        let before = guaranteed(frames.drop_last(), accepted.drop_last());
        match frames.last().kind {
            FrameKind::Guaranteed(descriptor) if accepted.last() => before.push(descriptor),
            _ => before,
        }
    }
}

/// A vector of `count` zero bytes.
pub fn zeroed(count: usize) -> (bytes: Vec<u8>)
    ensures
        bytes@ == zeros(count as int),
{
    let mut bytes: Vec<u8> = Vec::with_capacity(count);
    while bytes.len() < count
        invariant
            bytes@.len() <= count,
            bytes@ == zeros(bytes@.len() as int),
        decreases count - bytes@.len(),
    {
        bytes.push(0);
        assert(bytes@ =~= zeros(bytes@.len() as int));
    }
    bytes
}

/// A source that has nothing to write is passed over, and what it waits for is among what the assembly
/// says is waited for.
pub proof fn idle_source_says_what_it_waits_for<T>(
    packet: PacketView,
    constraints: Constraints,
    pending: Seq<PendingPacket>,
    frames: Seq<FrameWrite<T>>,
    index: int,
)
    requires
        0 <= index < frames.len(),
        frames[index].kind is Idle,
    ensures
        ({
            let assembly = assembled(packet, constraints, pending, frames);
            &&& assembly.accepted.len() == frames.len()
            &&& !assembly.accepted[index]
            &&& assembly.blocked.join(frames[index].kind->Idle_0) == assembly.blocked
        }),
    decreases frames.len(),
{
    let rest = frames.drop_last();
    only_accepted_frames_are_recorded(packet, constraints, pending, rest);
    if index < rest.len() {
        assert(rest[index] == frames[index]);
        idle_source_says_what_it_waits_for(packet, constraints, pending, rest, index);
    }
}

/// A packet asks as much of its receiver as the frame in it that asks most.
pub proof fn contents_join_to_the_stronger(left: PacketContent, right: PacketContent)
    ensures
        left.joined(right) is EffectivePayload <==> left is EffectivePayload || right is EffectivePayload,
        left.joined(right) is NonAckEliciting <==> left is NonAckEliciting && right is NonAckEliciting,
        left.elicits() <==> left is JustPing || left is EffectivePayload,
{
}

/// The room that is offered for data leaves eight bytes for the length in front of it within every limit, and is
/// all that is left within the tightest.
pub proof fn room_is_what_the_limits_leave(packet: PacketView, constraints: Constraints)
    requires
        packet.wf(),
    ensures
        ({
            let used = packet.cursor + packet.tag_len + 8;
            let room = packet.room(constraints);
            let fits = |more: int|
                {
                    &&& used + more <= packet.msg.len()
                    &&& used + more <= constraints.capacity
                    &&& used + more <= constraints.congestion
                    &&& used + more <= constraints.anti_amplification
                };
            &&& room >= 0
            &&& room > 0 ==> fits(room)
            &&& !fits(room + 1)
        }),
{
}

/// Padding makes a packet as long as asked for with zero bytes behind its frames, and lets it count as in
/// flight where any were added; what was in it stays.
pub proof fn padding_fills_with_zeros(packet: PacketView, length: int, number: PacketNumber)
    requires
        packet.wf(),
        0 <= length <= packet.msg.len(),
        1 <= number.bytes() <= 4,
    ensures
        ({
            let after = packet.padded(length);
            &&& after.wire_len(number) >= length
            &&& after.msg.len() == packet.msg.len()
            &&& after.msg.take(packet.cursor) == packet.msg.take(packet.cursor)
            &&& forall|i: int| #![trigger after.msg[i]] packet.cursor <= i < after.cursor ==> after.msg[i] == 0
            &&& after.cursor + after.tag_len == if packet.cursor + packet.tag_len < length {
                length
            } else {
                packet.cursor + packet.tag_len
            }
            &&& after.in_flight <==> packet.in_flight || packet.cursor + packet.tag_len < length
            &&& after.content == packet.content
            &&& after.challenge == packet.challenge
            &&& after.response == packet.response
            &&& after.largest_acked == packet.largest_acked
            &&& after.packet_type == packet.packet_type
            &&& after.body_offset == packet.body_offset
        }),
{
    let after = packet.padded(length);
    assert(after.msg.take(packet.cursor) =~= packet.msg.take(packet.cursor));
}

/// What is read of a packet that is being put together is all that it is.
pub proof fn packets_are_read_as_they_are(packet: Packet)
    ensures
        packet.view().msg == packet.msg@,
        packet.view().packet_type == packet.packet_type,
        packet.view().challenge == packet.challenge && packet.view().response == packet.response,
        packet.view().padded_to == packet.padded_to && packet.view().body_offset == packet.body_offset,
        packet.view().cursor == packet.cursor && packet.view().tag_len == packet.tag_len,
        packet.view().content == packet.content && packet.view().in_flight == packet.in_flight,
        packet.view().largest_acked == packet.largest_acked,
{
}

} // verus!
