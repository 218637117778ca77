//! What a packet that was put together holds, and how it keeps to its limits.
use vstd::prelude::*;

use crate::base::error::QuicError;
use crate::base::ordered::ascending_with;
use crate::base::packet_number::PacketNumber;
use crate::transport::assembly::{
    assembled, assembly_respects_limits, epoch_of, idle_source_says_what_it_waits_for, length_size,
    padding_respects_limits, sealed_packet_respects_limits, Epoch, FrameKind, FrameWrite, PacketType, PacketView,
    PendingPacket,
};
use crate::transport::constraints::Constraints;
use crate::transport::keys::{OneRttKeys, OneRttSealingKey};
use crate::transport::protection::tag_size;
use crate::transport::records::{skips, ArcSendJournal, SentPacketState, SentRecord, MAX_SKIPPED_PNS};
use crate::transport::sender::{admission, composition, eliciting, fresh_view, sealed_with, Admission, Sender};

verus! {

/// A frame is written exactly if its source has one, its type belongs in the packet, no packet of the same
/// burst makes it redundant, and the packet with it, its tag and a whole sample for header protection keeps to
/// the buffer, the capacity and the credit, and to the congestion limit if it then counts as in flight.
pub proof fn frame_is_written_where_it_fits<T>(
    packet: PacketView,
    constraints: Constraints,
    pending: Seq<PendingPacket>,
    frame: FrameWrite<T>,
)
    requires
        packet.wf(),
    ensures
        packet.obstacle(constraints, pending, frame) is None <==> {
            let plain = packet.cursor + frame.bytes@.len() + packet.tag_len;
            let sampled = packet.body_offset + 18;
            let fits = |limit: int| plain <= limit && sampled <= limit;
            &&& !(frame.kind is Idle)
            &&& frame.belongs
            &&& forall|i: int|
                #![trigger pending[i]]
                0 <= i < pending.len() ==> match frame.kind {
                    FrameKind::Ack { largest } => epoch_of(pending[i].packet_type) != epoch_of(packet.packet_type) || (
                    pending[i].largest_acked matches Some(other) ==> other < largest),
                    FrameKind::PathChallenge(token) => pending[i].challenge != Some(token),
                    FrameKind::PathResponse(token) => pending[i].response != Some(token),
                    _ => true,
                }
            &&& fits(packet.msg.len() as int)
            &&& fits(constraints.capacity as int)
            &&& fits(constraints.anti_amplification as int)
            &&& fits(constraints.congestion as int) || (!packet.in_flight && plain >= sampled && (frame.kind is Ack
                || frame.kind is Close))
        },
        frame.kind matches FrameKind::Idle(signals) ==> packet.obstacle(constraints, pending, frame) == Some(signals),
{
    if packet.obstacle(constraints, pending, frame) is None {
        assert forall|i: int| #![trigger pending[i]] 0 <= i < pending.len() implies match frame.kind {
            FrameKind::Ack { largest } => epoch_of(pending[i].packet_type) != epoch_of(packet.packet_type) || (
            pending[i].largest_acked matches Some(other) ==> other < largest),
            FrameKind::PathChallenge(token) => pending[i].challenge != Some(token),
            FrameKind::PathResponse(token) => pending[i].response != Some(token),
            _ => true,
        } by {}
    }
}

/// What a written frame adds to a packet: its bytes, behind all that was there, and what it stands for.
pub proof fn written_frame_is_in_the_packet<T>(packet: PacketView, frame: FrameWrite<T>)
    requires
        packet.wf(),
        packet.cursor + frame.bytes@.len() + packet.tag_len <= packet.msg.len(),
        packet.body_offset + 18 <= packet.msg.len(),
    ensures
        ({
            let after = packet.with_frame(frame);
            let end = packet.cursor + frame.bytes@.len();
            &&& after.wf()
            &&& after.msg.len() == packet.msg.len()
            &&& after.msg.take(packet.cursor) == packet.msg.take(packet.cursor)
            &&& after.msg.subrange(packet.cursor, end) == frame.bytes@
            &&& after.cursor >= end
            &&& forall|i: int| #![trigger after.msg[i]] end <= i < after.cursor ==> after.msg[i] == 0
            &&& after.cursor + after.tag_len >= after.body_offset + 18
            &&& after.body_offset == packet.body_offset
            &&& after.tag_len == packet.tag_len
            &&& after.packet_type == packet.packet_type
            &&& after.padded_to == packet.padded_to
            &&& after.content is EffectivePayload <==> packet.content is EffectivePayload || !(frame.kind is Padding
                || frame.kind is Ack || frame.kind is Close || frame.kind is Idle || frame.kind is Ping)
            &&& after.content is NonAckEliciting <==> packet.content is NonAckEliciting && (frame.kind is Padding
                || frame.kind is Ack || frame.kind is Close || frame.kind is Idle)
            &&& after.in_flight <==> packet.in_flight || !(after.content is NonAckEliciting) || frame.kind is Padding
                || after.cursor > end
            &&& after.challenge == if frame.kind is PathChallenge {
                Some(frame.kind->PathChallenge_0)
            } else {
                packet.challenge
            }
            &&& after.response == if frame.kind is PathResponse {
                Some(frame.kind->PathResponse_0)
            } else {
                packet.response
            }
            &&& after.largest_acked == if frame.kind is Ack {
                Some(frame.kind->largest)
            } else {
                packet.largest_acked
            }
        }),
{
    let after = packet.with_frame(frame);
    let end = packet.cursor + frame.bytes@.len();
    assert(after.msg.take(packet.cursor) =~= packet.msg.take(packet.cursor));
    assert(after.msg.subrange(packet.cursor, end) =~= frame.bytes@);
}

proof fn lemma_fresh(header: Seq<u8>, packet_type: PacketType, tag_len: int, limits: Constraints)
    requires
        header.len() > 0,
        tag_len >= 0,
        header.len() + length_size(packet_type) + 4 + tag_len < limits.capacity,
    ensures
        fresh_view(header, packet_type, tag_len, limits.capacity as int).wf(),
        fresh_view(header, packet_type, tag_len, limits.capacity as int).msg.len() == limits.capacity,
        fresh_view(header, packet_type, tag_len, limits.capacity as int).respects(limits),
{
}

/// What is known of a packet and of what was written to it.
spec fn holds<T>(fresh: PacketView, packet: PacketView, frames: Seq<FrameWrite<T>>, accepted: Seq<bool>) -> bool {
    &&& packet.wf()
    &&& accepted.len() == frames.len()
    &&& packet.msg.len() == fresh.msg.len()
    &&& packet.packet_type == fresh.packet_type
    &&& packet.body_offset == fresh.body_offset
    &&& packet.tag_len == fresh.tag_len
    &&& packet.padded_to == fresh.padded_to
    &&& packet.msg.take(fresh.cursor) == fresh.msg.take(fresh.cursor)
    &&& packet.cursor >= fresh.cursor
    &&& packet.cursor > fresh.cursor ==> packet.cursor + packet.tag_len >= packet.body_offset + 18
    &&& packet.challenge is Some <==> exists|i: int|
        #![trigger accepted[i]]
        0 <= i < frames.len() && accepted[i] && frames[i].kind is PathChallenge
    &&& packet.response is Some <==> exists|i: int|
        #![trigger accepted[i]]
        0 <= i < frames.len() && accepted[i] && frames[i].kind is PathResponse
    &&& packet.largest_acked is Some <==> exists|i: int|
        #![trigger accepted[i]]
        0 <= i < frames.len() && accepted[i] && frames[i].kind is Ack
    &&& packet.content is EffectivePayload <==> exists|i: int|
        #![trigger accepted[i]]
        0 <= i < frames.len() && accepted[i] && !quiet(frames[i].kind) && !(frames[i].kind is Ping)
    &&& packet.content is NonAckEliciting <==> forall|i: int|
        #![trigger accepted[i]]
        0 <= i < frames.len() && accepted[i] ==> quiet(frames[i].kind)
    &&& forall|i: int|
        #![trigger accepted[i]]
        0 <= i < frames.len() && accepted[i] ==> carried(packet, frames[i].bytes@)
    &&& packet.cursor >= fresh.cursor + accepted_bytes(frames, accepted)
    &&& packet.in_flight <==> !(packet.content is NonAckEliciting) || packet.cursor > fresh.cursor + accepted_bytes(
        frames,
        accepted,
    ) || exists|i: int| #![trigger accepted[i]] 0 <= i < frames.len() && accepted[i] && frames[i].kind is Padding
}

/// The bytes of the frames that were accepted.
pub open spec fn accepted_bytes<T>(frames: Seq<FrameWrite<T>>, accepted: Seq<bool>) -> int
    decreases frames.len(),
{
    if frames.len() == 0 {
        0
    } else {
        accepted_bytes(frames.drop_last(), accepted.drop_last()) + if accepted.last() {
            frames.last().bytes@.len() as int
        } else {
            0
        }
    }
}

/// Frames that call for no acknowledgement.
spec fn quiet<T>(kind: FrameKind<T>) -> bool {
    kind is Padding || kind is Ack || kind is Close || kind is Idle
}

/// Whether a packet holds these bytes somewhere in its payload.
pub open spec fn carried(packet: PacketView, bytes: Seq<u8>) -> bool {
    exists|at: int|
        packet.body_offset <= at && at + bytes.len() <= packet.cursor && #[trigger] packet.msg.subrange(
            at,
            at + bytes.len(),
        ) == bytes
}

proof fn lemma_carried(before: PacketView, after: PacketView, bytes: Seq<u8>)
    requires
        before.wf(),
        carried(before, bytes),
        after.body_offset == before.body_offset,
        after.cursor >= before.cursor,
        after.msg.len() == before.msg.len(),
        after.msg.take(before.cursor) == before.msg.take(before.cursor),
    ensures
        carried(after, bytes),
{
    let at = choose|at: int|
        before.body_offset <= at && at + bytes.len() <= before.cursor && #[trigger] before.msg.subrange(
            at,
            at + bytes.len(),
        ) == bytes;
    assert forall|i: int| #![trigger after.msg[i]] at <= i < at + bytes.len() implies after.msg[i] == before.msg[i] by {
        assert(before.cursor <= before.msg.len());
        assert(0 <= i < before.cursor);
        assert(after.msg.take(before.cursor)[i] == after.msg[i]);
        assert(before.msg.take(before.cursor)[i] == before.msg[i]);
    }
    assert(after.msg.subrange(at, at + bytes.len()) =~= before.msg.subrange(at, at + bytes.len()));
}

proof fn lemma_holds<T>(fresh: PacketView, limits: Constraints, pending: Seq<PendingPacket>, frames: Seq<FrameWrite<T>>)
    requires
        fresh.wf(),
        fresh.cursor == fresh.body_offset,
        fresh.challenge is None,
        fresh.response is None,
        fresh.largest_acked is None,
        fresh.content is NonAckEliciting,
        !fresh.in_flight,
        fresh.msg.len() == limits.capacity,
    ensures
        ({
            let assembly = assembled(fresh, limits, pending, frames);
            holds(fresh, assembly.packet, frames, assembly.accepted)
        }),
    decreases frames.len(),
{
    if frames.len() > 0 {
        let rest = frames.drop_last();
        let last = frames.len() - 1;
        let frame = frames.last();
        let earlier = assembled(fresh, limits, pending, rest);
        let assembly = assembled(fresh, limits, pending, frames);
        lemma_holds(fresh, limits, pending, rest);
        let accepted = assembly.accepted;
        assert(accepted.len() == frames.len());
        assert(accepted.drop_last() =~= earlier.accepted);
        assert forall|i: int| #![trigger accepted[i]] 0 <= i < last implies accepted[i] == earlier.accepted[i]
            && frames[i] == rest[i] by {}
        assert forall|i: int| #![trigger earlier.accepted[i]] 0 <= i < last implies accepted[i] == earlier.accepted[i]
            && frames[i] == rest[i] by {}
        assert(frames[last] == frame);
        if earlier.packet.obstacle(limits, pending, frame) is None {
            assert(accepted[last]);
            frame_is_written_where_it_fits(earlier.packet, limits, pending, frame);
            written_frame_is_in_the_packet(earlier.packet, frame);
            let packet = assembly.packet;
            assert(packet.msg.take(fresh.cursor) =~= fresh.msg.take(fresh.cursor)) by {
                assert forall|i: int| 0 <= i < fresh.cursor implies packet.msg[i] == fresh.msg[i] by {
                    assert(packet.msg.take(earlier.packet.cursor)[i] == earlier.packet.msg.take(
                        earlier.packet.cursor,
                    )[i]);
                    assert(earlier.packet.msg.take(fresh.cursor)[i] == fresh.msg.take(fresh.cursor)[i]);
                }
            }
            assert forall|i: int| #![trigger accepted[i]] 0 <= i < frames.len() && accepted[i] implies carried(
                packet,
                frames[i].bytes@,
            ) by {
                if i < last {
                    assert(carried(earlier.packet, rest[i].bytes@));
                    lemma_carried(earlier.packet, packet, frames[i].bytes@);
                } else {
                    let at = earlier.packet.cursor;
                    assert(packet.msg.subrange(at, at + frame.bytes@.len()) == frame.bytes@);
                }
            }
        } else {
            assert(!accepted[last]);
        }
    } else {
        assert(fresh.msg.take(fresh.cursor) =~= fresh.msg.take(fresh.cursor));
    }
}

proof fn lemma_recorded<T>(packet: PacketView, limits: Constraints, pending: Seq<PendingPacket>, frames: Seq<FrameWrite<T>>)
    ensures
        ({
            let assembly = assembled(packet, limits, pending, frames);
            &&& assembly.accepted.len() == frames.len()
            &&& assembly.records == frames.zip_with(assembly.accepted).filter(
                |offer: (FrameWrite<T>, bool)| offer.1 && offer.0.kind is Guaranteed,
            ).map_values(|offer: (FrameWrite<T>, bool)| offer.0.kind->Guaranteed_0)
        }),
    decreases frames.len(),
{
    reveal(Seq::filter);
    let assembly = assembled(packet, limits, pending, frames);
    let taken = |offer: (FrameWrite<T>, bool)| offer.1 && offer.0.kind is Guaranteed;
    let descriptor = |offer: (FrameWrite<T>, bool)| offer.0.kind->Guaranteed_0;
    let offers = frames.zip_with(assembly.accepted);
    if frames.len() > 0 {
        let rest = frames.drop_last();
        lemma_recorded(packet, limits, pending, rest);
        let earlier = assembled(packet, limits, pending, rest);
        assert(offers.drop_last() =~= rest.zip_with(earlier.accepted));
        let offer = offers.last();
        assert(offer == (frames.last(), assembly.accepted.last()));
        if taken(offer) {
            assert(offers.filter(taken).map_values(descriptor) =~= offers.drop_last().filter(taken).map_values(
                descriptor,
            ).push(descriptor(offer)));
        }
    } else {
        assert(offers.filter(taken).map_values(descriptor) =~= Seq::empty());
    }
}

/// A packet that is not held back: an Initial packet, and one with a path challenge or response, fills a whole
/// datagram of 1200 bytes with what is added around it. Its length is within the capacity and the credit, and
/// within the congestion limit if it counts as in flight. Every frame that was accepted stands in its payload,
/// and it asks for an acknowledgement exactly if one of these does. It counts as in flight exactly if it asks for
/// one or has padding. What must arrive of its frames is recorded, and nothing else.
pub proof fn packet_holds_what_was_accepted<T>(
    header: Seq<u8>,
    packet_type: PacketType,
    tag_len: int,
    limits: Constraints,
    pending: Seq<PendingPacket>,
    frames: Seq<FrameWrite<T>>,
    overhead: int,
    number: PacketNumber,
)
    requires
        header.len() > 0,
        tag_len >= 0,
        header.len() + length_size(packet_type) + 4 + tag_len < limits.capacity,
        0 <= overhead <= 1200,
        number.bytes() >= 2,
        composition(header, packet_type, tag_len, limits, pending, frames, overhead).blocked is None,
    ensures
        ({
            let whole = composition(header, packet_type, tag_len, limits, pending, frames, overhead);
            let packet = whole.packet;
            let accepted = whole.accepted;
            &&& accepted.len() == frames.len()
            &&& packet.packet_type == packet_type
            &&& 0 < packet.wire_len(number) <= limits.capacity
            &&& packet.wire_len(number) <= limits.anti_amplification
            &&& packet.in_flight || packet.needs_padding(number) ==> packet.wire_len(number) <= limits.congestion
            &&& packet_type is Initial ==> packet.wire_len(number) >= 1200 - overhead
            &&& (exists|i: int|
                #![trigger accepted[i]]
                0 <= i < frames.len() && accepted[i] && (frames[i].kind is PathChallenge || frames[i].kind
                    is PathResponse)) ==> packet.wire_len(number) >= 1200 - overhead
            &&& packet.challenge is Some <==> exists|i: int|
                #![trigger accepted[i]]
                0 <= i < frames.len() && accepted[i] && frames[i].kind is PathChallenge
            &&& packet.response is Some <==> exists|i: int|
                #![trigger accepted[i]]
                0 <= i < frames.len() && accepted[i] && frames[i].kind is PathResponse
            &&& packet.largest_acked is Some <==> exists|i: int|
                #![trigger accepted[i]]
                0 <= i < frames.len() && accepted[i] && frames[i].kind is Ack
            &&& packet.content is NonAckEliciting <==> forall|i: int|
                #![trigger accepted[i]]
                0 <= i < frames.len() && accepted[i] ==> frames[i].kind is Padding || frames[i].kind is Ack
                    || frames[i].kind is Close || frames[i].kind is Idle
            &&& packet.content is EffectivePayload <==> exists|i: int|
                #![trigger accepted[i]]
                0 <= i < frames.len() && accepted[i] && !(frames[i].kind is Padding || frames[i].kind is Ack
                    || frames[i].kind is Close || frames[i].kind is Idle || frames[i].kind is Ping)
            &&& !(packet.content is NonAckEliciting) ==> packet.in_flight
            &&& forall|i: int|
                #![trigger accepted[i]]
                0 <= i < frames.len() && accepted[i] ==> carried(packet, frames[i].bytes@)
            &&& whole.records == frames.zip_with(accepted).filter(
                |offer: (FrameWrite<T>, bool)| offer.1 && offer.0.kind is Guaranteed,
            ).map_values(|offer: (FrameWrite<T>, bool)| offer.0.kind->Guaranteed_0)
            &&& exists|i: int| #![trigger accepted[i]] 0 <= i < frames.len() && accepted[i]
            &&& packet.in_flight || packet.needs_padding(number) <==> {
                ||| !(packet.content is NonAckEliciting)
                ||| packet.wire_len(number) > header.len() + (if packet_type is OneRtt {
                    0int
                } else {
                    2
                }) + number.bytes() + accepted_bytes(frames, accepted) + tag_len
                ||| exists|i: int|
                    #![trigger accepted[i]]
                    0 <= i < frames.len() && accepted[i] && frames[i].kind is Padding
            }
        }),
{
    let fresh = fresh_view(header, packet_type, tag_len, limits.capacity as int);
    let whole = composition(header, packet_type, tag_len, limits, pending, frames, overhead);
    let assembly = assembled(fresh, limits, pending, frames);
    let target = 1200 - overhead;
    lemma_fresh(header, packet_type, tag_len, limits);
    lemma_holds(fresh, limits, pending, frames);
    lemma_recorded(fresh, limits, pending, frames);
    assembly_respects_limits(fresh, limits, pending, frames);
    if whole.packet != assembly.packet || assembly.packet.padded_to < whole.packet.padded_to {
        padding_respects_limits(assembly.packet, target, limits);
    }
    sealed_packet_respects_limits(whole.packet, number, limits);
    let accepted = whole.accepted;
    assert forall|i: int| #![trigger accepted[i]] 0 <= i < frames.len() && accepted[i] implies carried(
        whole.packet,
        frames[i].bytes@,
    ) by {
        assert(carried(assembly.packet, frames[i].bytes@));
        assert(whole.packet.msg.take(assembly.packet.cursor) =~= assembly.packet.msg.take(assembly.packet.cursor));
        lemma_carried(assembly.packet, whole.packet, frames[i].bytes@);
    }
    if forall|i: int| #![trigger accepted[i]] 0 <= i < frames.len() ==> !accepted[i] {
        lemma_nothing_written(fresh, limits, pending, frames);
    }
}

proof fn lemma_nothing_written<T>(
    fresh: PacketView,
    limits: Constraints,
    pending: Seq<PendingPacket>,
    frames: Seq<FrameWrite<T>>,
)
    requires
        ({
            let accepted = assembled(fresh, limits, pending, frames).accepted;
            forall|i: int| #![trigger accepted[i]] 0 <= i < frames.len() ==> !accepted[i]
        }),
    ensures
        assembled(fresh, limits, pending, frames).packet == fresh,
    decreases frames.len(),
{
    if frames.len() > 0 {
        let rest = frames.drop_last();
        let earlier = assembled(fresh, limits, pending, rest).accepted;
        let accepted = assembled(fresh, limits, pending, frames).accepted;
        lemma_recorded(fresh, limits, pending, rest);
        assert(accepted[frames.len() - 1] == accepted.last());
        assert forall|i: int| #![trigger earlier[i]] 0 <= i < rest.len() implies !earlier[i] by {
            assert(accepted[i] == earlier[i]);
        }
        lemma_nothing_written(fresh, limits, pending, rest);
    }
}

proof fn lemma_eliciting(pending: Seq<PendingPacket>, space: Epoch)
    ensures
        eliciting(pending, space) == pending.filter(
            |waiting: PendingPacket|
                epoch_of(waiting.packet_type) == space && !(waiting.content is NonAckEliciting),
        ).len(),
    decreases pending.len(),
{
    reveal(Seq::filter);
    if pending.len() > 0 {
        lemma_eliciting(pending.drop_last(), space);
    }
}

/// The limits for a packet are those of the burst less what is added around it. A loss probe that is due, and
/// for which no packet that elicits an acknowledgement waits yet, may take a whole datagram whatever
/// congestion says; no other packet may take more than the congestion limit.
pub proof fn limits_leave_room_for_what_is_added(
    full: bool,
    pending: Seq<PendingPacket>,
    overhead: int,
    constraints: Constraints,
    probes: u64,
    packet_type: PacketType,
    header_len: int,
    tag_len: int,
)
    requires
        0 <= overhead,
        0 <= header_len,
        0 <= tag_len,
    ensures
        ({
            let admitted = admission(full, pending, overhead, constraints, probes, packet_type, header_len, tag_len);
            let fixed = header_len + 4 + tag_len + if packet_type is OneRtt {
                0int
            } else {
                2
            };
            let waiting = pending.filter(
                |waiting: PendingPacket|
                    epoch_of(waiting.packet_type) == epoch_of(packet_type) && !(waiting.content is NonAckEliciting),
            ).len();
            &&& admitted is NoRecord <==> full
            &&& admitted is Granted <==> !full && fixed + overhead < constraints.capacity && fixed + overhead
                < constraints.anti_amplification
            &&& (admitted matches Admission::Granted(limits) ==> {
                &&& limits.capacity + overhead == constraints.capacity
                &&& limits.anti_amplification + overhead == constraints.anti_amplification
                &&& waiting >= probes ==> if overhead <= constraints.congestion {
                    limits.congestion + overhead == constraints.congestion
                } else {
                    limits.congestion == 0
                }
                &&& waiting < probes && overhead <= 1200 ==> if constraints.congestion < 1200 {
                    limits.congestion + overhead == 1200
                } else {
                    limits.congestion + overhead == constraints.congestion
                }
            })
        }),
{
    lemma_eliciting(pending, epoch_of(packet_type));
}

/// The first byte of a sealed packet tells how long its number is, and the length field of a long header how
/// many bytes follow it. Behind the header stand the number and the payload.
pub proof fn header_tells_what_follows(packet: PacketView, number: PacketNumber)
    requires
        packet.wf(),
        number.wf(),
        number.bytes() >= 1,
        packet.cursor + packet.tag_len < 0x4000,
        packet.msg[0] % 4 == 0,
    ensures
        ({
            let wire = packet.wire(number);
            let start = packet.body_offset - 4;
            let payload = packet.msg.subrange(packet.body_offset, packet.cursor);
            &&& wire.len() == packet.wire_len(number)
            &&& wire[0] == packet.msg[0] + number.bytes() - 1
            &&& !(packet.packet_type is OneRtt) ==> wire[start - 2] as int * 0x100 + wire[start - 1] as int == 0x4000
                + wire.len() - start
            &&& wire.subrange(start, start + number.bytes()) == number.wire()
            &&& wire.subrange(start + number.bytes(), start + number.bytes() + payload.len()) == payload
            &&& forall|i: int|
                #![trigger wire[i]]
                start + number.bytes() + payload.len() <= i < wire.len() ==> wire[i] == 0
        }),
{
    let wire = packet.wire(number);
    let start = packet.body_offset - 4;
    let size = number.bytes();
    let header = packet.header(number);
    let payload = packet.msg.subrange(packet.body_offset, packet.cursor);
    let first = packet.msg[0];
    let low = (size - 1) as u8;
    assert(first | low == first + low) by (bit_vector)
        requires
            first % 4 == 0,
            low < 4,
    ;
    let length = (packet.wire_len(number) - start) as u16;
    assert(0x4000u16 | length == 0x4000 + length) by (bit_vector)
        requires
            length < 0x4000,
    ;
    assert(header.len() == start);
    assert(wire.subrange(start, start + size) =~= number.wire());
    assert(wire.subrange(start + size, start + size + payload.len()) =~= payload);
    if !(packet.packet_type is OneRtt) {
        assert(wire[start - 2] == header[start - 2]);
        assert(wire[start - 1] == header[start - 1]);
    }
}

proof fn lemma_granted<T: Copy>(
    sender: Sender<T>,
    header: Seq<u8>,
    packet_type: PacketType,
    tag_len: int,
    journal: ArcSendJournal<T>,
    constraints: Constraints,
    probes: u64,
    frames: Seq<FrameWrite<T>>,
    limits: Constraints,
    number: PacketNumber,
)
    requires
        header.len() > 0,
        tag_len >= 0,
        sender.overhead <= 1200,
        number.bytes() >= 2,
        admission(
            journal.is_full(1),
            sender.pending@,
            sender.overhead as int,
            constraints,
            probes,
            packet_type,
            header.len() as int,
            tag_len,
        ) == Admission::Granted(limits),
    ensures
        ({
            let whole = composition(
                header,
                packet_type,
                tag_len,
                limits,
                sender.pending@,
                frames,
                sender.overhead as int,
            );
            let packet = whole.packet;
            let accepted = whole.accepted;
            let length = packet.wire_len(number) + sender.overhead;
            &&& accepted.len() == frames.len()
            &&& whole.records == frames.zip_with(accepted).filter(
                |offer: (FrameWrite<T>, bool)| offer.1 && offer.0.kind is Guaranteed,
            ).map_values(|offer: (FrameWrite<T>, bool)| offer.0.kind->Guaranteed_0)
            &&& whole.blocked is None ==> {
                &&& length <= constraints.capacity
                &&& length <= constraints.anti_amplification
                &&& packet.in_flight || packet.needs_padding(number) ==> length <= constraints.congestion || (length
                    <= 1200 && probes > sender.pending@.filter(
                    |waiting: PendingPacket|
                        epoch_of(waiting.packet_type) == epoch_of(packet_type) && !(waiting.content is NonAckEliciting),
                ).len())
            }
        }),
{
    limits_leave_room_for_what_is_added(
        journal.is_full(1),
        sender.pending@,
        sender.overhead as int,
        constraints,
        probes,
        packet_type,
        header.len() as int,
        tag_len,
    );
    let fresh = fresh_view(header, packet_type, tag_len, limits.capacity as int);
    lemma_recorded(fresh, limits, sender.pending@, frames);
    let whole = composition(header, packet_type, tag_len, limits, sender.pending@, frames, sender.overhead as int);
    if whole.blocked is None {
        packet_holds_what_was_accepted(
            header,
            packet_type,
            tag_len,
            limits,
            sender.pending@,
            frames,
            sender.overhead as int,
            number,
        );
    }
}

/// A packet with a long header that is handed out keeps to the limits of its burst, with what is added around
/// it, unless it is a loss probe, which congestion does not hold back. An Initial packet, and one with a path
/// challenge or response, fills 1200 bytes. It has the next number of its space, under which what must arrive
/// of it is on record.
pub proof fn long_packet_keeps_its_limits<T: Copy>(
    sender: Sender<T>,
    after: Sender<T>,
    keys: rustls::quic::DirectionalKeys,
    header: Seq<u8>,
    packet_type: PacketType,
    journal: ArcSendJournal<T>,
    journal_after: ArcSendJournal<T>,
    constraints: Constraints,
    probes: u64,
    frames: Seq<FrameWrite<T>>,
    accepted: Seq<bool>,
    accepted_after: Seq<bool>,
    recovered: Seq<T>,
    recovered_after: Seq<T>,
    pending: PendingPacket,
)
    requires
        sender.assembles_long(
            &after,
            keys,
            header,
            packet_type,
            &journal,
            &journal_after,
            constraints,
            probes,
            frames,
            accepted,
            accepted_after,
            recovered,
            recovered_after,
            Ok(Some(pending)),
        ),
        sender.overhead <= 1200,
        header.len() > 0,
        !(packet_type is OneRtt),
        2 * (journal.next_pn - journal.largest_acked) < 0x1_0000_0000,
    ensures
        ({
            let taken = accepted_after.skip(accepted.len() as int);
            let length = pending.msg@.len() + sender.overhead;
            &&& taken.len() == frames.len()
            &&& accepted_after == accepted + taken
            &&& length <= constraints.capacity
            &&& length <= constraints.anti_amplification
            &&& pending.in_flight ==> length <= constraints.congestion || (length <= 1200 && probes > sender.pending@.filter(
                |waiting: PendingPacket|
                    epoch_of(waiting.packet_type) == epoch_of(packet_type) && !(waiting.content is NonAckEliciting),
            ).len())
            &&& packet_type is Initial || (exists|i: int|
                #![trigger taken[i]]
                0 <= i < frames.len() && taken[i] && (frames[i].kind is PathChallenge || frames[i].kind is PathResponse))
                ==> length >= 1200
            &&& pending.packet_type == packet_type
            &&& pending.pn == journal.next_pn
            &&& pending.content is NonAckEliciting <==> forall|i: int|
                #![trigger taken[i]]
                0 <= i < frames.len() && taken[i] ==> frames[i].kind is Padding || frames[i].kind is Ack || frames[i].kind
                    is Close || frames[i].kind is Idle
            &&& pending.in_flight <==> {
                ||| !(pending.content is NonAckEliciting)
                ||| pending.msg@.len() > header.len() + 2 + PacketNumber::encoded(
                    journal.next_pn,
                    journal.largest_acked,
                ).bytes() + accepted_bytes(frames, taken) + tag_size(keys, None)
                ||| exists|i: int| #![trigger taken[i]] 0 <= i < frames.len() && taken[i] && frames[i].kind is Padding
            }
            &&& pending.challenge is Some <==> exists|i: int|
                #![trigger taken[i]]
                0 <= i < frames.len() && taken[i] && frames[i].kind is PathChallenge
            &&& pending.response is Some <==> exists|i: int|
                #![trigger taken[i]]
                0 <= i < frames.len() && taken[i] && frames[i].kind is PathResponse
            &&& pending.largest_acked is Some <==> exists|i: int|
                #![trigger taken[i]]
                0 <= i < frames.len() && taken[i] && frames[i].kind is Ack
            &&& journal_after.records() == journal.records().push(
                SentRecord {
                    pn: journal.next_pn,
                    generation: pending.generation,
                    frames: frames.zip_with(taken).filter(
                        |offer: (FrameWrite<T>, bool)| offer.1 && offer.0.kind is Guaranteed,
                    ).map_values(|offer: (FrameWrite<T>, bool)| offer.0.kind->Guaranteed_0),
                    state: SentPacketState::Pending,
                },
            )
            &&& journal_after.next_pn == journal.next_pn + 1
            &&& pending.generation is None
            &&& recovered_after == recovered
        }),
{
    let tag = tag_size(keys, None) as int;
    let admitted = admission(
        journal.is_full(1),
        sender.pending@,
        sender.overhead as int,
        constraints,
        probes,
        packet_type,
        header.len() as int,
        tag,
    );
    if let Admission::Granted(limits) = admitted {
        let number = PacketNumber::encoded(journal.next_pn, journal.largest_acked);
        let whole = composition(header, packet_type, tag, limits, sender.pending@, frames, sender.overhead as int);
        lemma_granted(sender, header, packet_type, tag, journal, constraints, probes, frames, limits, number);
        limits_leave_room_for_what_is_added(
            journal.is_full(1),
            sender.pending@,
            sender.overhead as int,
            constraints,
            probes,
            packet_type,
            header.len() as int,
            tag,
        );
        packet_holds_what_was_accepted(
            header,
            packet_type,
            tag,
            limits,
            sender.pending@,
            frames,
            sender.overhead as int,
            number,
        );
        assert(accepted_after.skip(accepted.len() as int) =~= whole.accepted);
        assert(recovered_after =~= recovered_after.take(recovered.len() as int) + recovered_after.skip(
            recovered.len() as int,
        ));
        assert(recovered_after =~= recovered);
    }
}

/// The length of the tag that the newest keys put behind a packet.
spec fn current_tag(keys: OneRttKeys) -> int {
    tag_size(*keys.headers.sealing, keys.packets.keys@.last().updated) as int
}

/// A one-RTT packet that is handed out keeps to the limits of its burst, with what is added around it, unless
/// it is a loss probe, which congestion does not hold back. One with a path challenge or response fills 1200
/// bytes. It has the next number of its space, under which what must arrive of it is on record.
pub proof fn one_rtt_packet_keeps_its_limits<T: Copy>(
    sender: Sender<T>,
    after: Sender<T>,
    keys: OneRttKeys,
    keys_after: OneRttKeys,
    header: Seq<u8>,
    journal: ArcSendJournal<T>,
    journal_after: ArcSendJournal<T>,
    constraints: Constraints,
    probes: u64,
    frames: Seq<FrameWrite<T>>,
    accepted: Seq<bool>,
    accepted_after: Seq<bool>,
    recovered: Seq<T>,
    recovered_after: Seq<T>,
    pending: PendingPacket,
)
    requires
        sender.assembles_short(
            &after,
            &keys,
            &keys_after,
            header,
            &journal,
            &journal_after,
            constraints,
            probes,
            frames,
            accepted,
            accepted_after,
            recovered,
            recovered_after,
            Ok(Some(pending)),
        ),
        sender.overhead <= 1200,
        header.len() > 0,
        2 * (journal.next_pn - journal.largest_acked) < 0x1_0000_0000,
    ensures
        ({
            let taken = accepted_after.skip(accepted.len() as int);
            let length = pending.msg@.len() + sender.overhead;
            &&& taken.len() == frames.len()
            &&& accepted_after == accepted + taken
            &&& length <= constraints.capacity
            &&& length <= constraints.anti_amplification
            &&& pending.in_flight ==> length <= constraints.congestion || (length <= 1200 && probes > sender.pending@.filter(
                |waiting: PendingPacket|
                    epoch_of(waiting.packet_type) == epoch_of(PacketType::OneRtt) && !(waiting.content is NonAckEliciting),
            ).len())
            &&& (exists|i: int|
                #![trigger taken[i]]
                0 <= i < frames.len() && taken[i] && (frames[i].kind is PathChallenge || frames[i].kind is PathResponse))
                ==> length >= 1200
            &&& pending.packet_type == PacketType::OneRtt
            &&& pending.pn == journal.next_pn
            &&& pending.content is NonAckEliciting <==> forall|i: int|
                #![trigger taken[i]]
                0 <= i < frames.len() && taken[i] ==> frames[i].kind is Padding || frames[i].kind is Ack || frames[i].kind
                    is Close || frames[i].kind is Idle
            &&& pending.in_flight <==> {
                ||| !(pending.content is NonAckEliciting)
                ||| pending.msg@.len() > header.len() + PacketNumber::encoded(
                    journal.next_pn,
                    journal.largest_acked,
                ).bytes() + accepted_bytes(frames, taken) + tag_size(*keys.headers.sealing, keys.packets.keys@.last().updated)
                ||| exists|i: int| #![trigger taken[i]] 0 <= i < frames.len() && taken[i] && frames[i].kind is Padding
            }
            &&& pending.challenge is Some <==> exists|i: int|
                #![trigger taken[i]]
                0 <= i < frames.len() && taken[i] && frames[i].kind is PathChallenge
            &&& pending.response is Some <==> exists|i: int|
                #![trigger taken[i]]
                0 <= i < frames.len() && taken[i] && frames[i].kind is PathResponse
            &&& pending.largest_acked is Some <==> exists|i: int|
                #![trigger taken[i]]
                0 <= i < frames.len() && taken[i] && frames[i].kind is Ack
            &&& journal_after.records() == journal.records().push(
                SentRecord {
                    pn: journal.next_pn,
                    generation: pending.generation,
                    frames: frames.zip_with(taken).filter(
                        |offer: (FrameWrite<T>, bool)| offer.1 && offer.0.kind is Guaranteed,
                    ).map_values(|offer: (FrameWrite<T>, bool)| offer.0.kind->Guaranteed_0),
                    state: SentPacketState::Pending,
                },
            )
            &&& journal_after.next_pn == journal.next_pn + 1
            &&& pending.generation is Some
            &&& recovered_after == recovered
        }),
{
    let packet_type = PacketType::OneRtt;
    let tag = current_tag(keys);
    let admitted = admission(
        journal.is_full(1),
        sender.pending@,
        sender.overhead as int,
        constraints,
        probes,
        packet_type,
        header.len() as int,
        tag,
    );
    if let Admission::Granted(limits) = admitted {
        let number = PacketNumber::encoded(journal.next_pn, journal.largest_acked);
        let whole = composition(header, packet_type, tag, limits, sender.pending@, frames, sender.overhead as int);
        let key = choose|key: OneRttSealingKey| #[trigger]
            sealed_with(
                &keys,
                &keys_after,
                key,
                whole,
                &journal,
                &journal_after,
                recovered_after.skip(recovered.len() as int),
                Ok(Some(pending)),
            );
        lemma_granted(sender, header, packet_type, tag, journal, constraints, probes, frames, limits, number);
        limits_leave_room_for_what_is_added(
            journal.is_full(1),
            sender.pending@,
            sender.overhead as int,
            constraints,
            probes,
            packet_type,
            header.len() as int,
            tag,
        );
        packet_holds_what_was_accepted(
            header,
            packet_type,
            tag,
            limits,
            sender.pending@,
            frames,
            sender.overhead as int,
            number,
        );
        assert(accepted_after.skip(accepted.len() as int) =~= whole.accepted);
        assert(recovered_after =~= recovered_after.take(recovered.len() as int) + recovered_after.skip(
            recovered.len() as int,
        ));
        assert(recovered_after =~= recovered);
    }
}

proof fn lemma_skipped<T: Copy>(journal: ArcSendJournal<T>, after: ArcSendJournal<T>)
    requires
        journal.wf(),
    ensures
        skips(journal.skipped_pns@, after.skipped_pns@, journal.next_pn) ==> after.skipped_pns@.contains(journal.next_pn),
{
    let before = journal.skipped_pns@;
    let pn = journal.next_pn;
    if skips(before, after.skipped_pns@, pn) {
        let skipped = choose|skipped: Seq<u64>|
            {
                &&& #[trigger] ascending_with(before, skipped, pn)
                &&& after.skipped_pns@ == if skipped.len() > MAX_SKIPPED_PNS {
                    skipped.drop_first()
                } else {
                    skipped
                }
            };
        assert(skipped.contains(pn));
        let at = choose|at: int| 0 <= at < skipped.len() && skipped[at] == pn;
        if skipped.len() > MAX_SKIPPED_PNS {
            if at == 0 {
                assert(skipped.contains(skipped[1]));
                assert(skipped[0] < skipped[1]);
                assert(before.contains(skipped[1]));
                let k = choose|k: int| 0 <= k < before.len() && before[k] == skipped[1];
                assert(before[k] < journal.next_pn);
            }
            assert(skipped.drop_first()[at - 1] == pn);
        }
    }
}

/// Where no packet with a long header comes of an attempt, nothing is put on record, and all that must arrive
/// of what was accepted goes back to its owners. A number that was to be sealed with is skipped for good.
pub proof fn failed_long_packet_gives_everything_back<T: Copy>(
    sender: Sender<T>,
    after: Sender<T>,
    keys: rustls::quic::DirectionalKeys,
    header: Seq<u8>,
    packet_type: PacketType,
    journal: ArcSendJournal<T>,
    journal_after: ArcSendJournal<T>,
    constraints: Constraints,
    probes: u64,
    frames: Seq<FrameWrite<T>>,
    accepted: Seq<bool>,
    accepted_after: Seq<bool>,
    recovered: Seq<T>,
    recovered_after: Seq<T>,
    result: Result<Option<PendingPacket>, QuicError>,
)
    requires
        sender.assembles_long(
            &after,
            keys,
            header,
            packet_type,
            &journal,
            &journal_after,
            constraints,
            probes,
            frames,
            accepted,
            accepted_after,
            recovered,
            recovered_after,
            result,
        ),
        !(result matches Ok(Some(_))),
        journal.wf(),
    ensures
        ({
            let taken = accepted_after.skip(accepted.len() as int);
            &&& accepted_after == accepted + taken
            &&& journal_after.records() == journal.records()
            &&& (result matches Err(error) && error.kind is Internal ==> journal_after.next_pn == journal.next_pn + 1
                && journal_after.skipped_pns@.contains(journal.next_pn))
            &&& taken.len() == 0 && recovered_after == recovered || taken.len() == frames.len() && recovered_after
                == recovered + frames.zip_with(taken).filter(
                |offer: (FrameWrite<T>, bool)| offer.1 && offer.0.kind is Guaranteed,
            ).map_values(|offer: (FrameWrite<T>, bool)| offer.0.kind->Guaranteed_0)
        }),
{
    let tag = tag_size(keys, None) as int;
    let admitted = admission(
        journal.is_full(1),
        sender.pending@,
        sender.overhead as int,
        constraints,
        probes,
        packet_type,
        header.len() as int,
        tag,
    );
    assert(accepted + Seq::<bool>::empty() =~= accepted);
    assert(accepted.skip(accepted.len() as int) =~= Seq::<bool>::empty());
    if let Admission::Granted(limits) = admitted {
        let whole = composition(header, packet_type, tag, limits, sender.pending@, frames, sender.overhead as int);
        lemma_recorded(
            fresh_view(header, packet_type, tag, limits.capacity as int),
            limits,
            sender.pending@,
            frames,
        );
        assert(accepted_after.skip(accepted.len() as int) =~= whole.accepted);
        assert(recovered_after =~= recovered_after.take(recovered.len() as int) + recovered_after.skip(
            recovered.len() as int,
        ));
        lemma_skipped(journal, journal_after);
    }
}

/// Where no one-RTT packet comes of an attempt, nothing is put on record, and all that must arrive of what was
/// accepted goes back to its owners. A number that was to be sealed with is skipped for good.
pub proof fn failed_one_rtt_packet_gives_everything_back<T: Copy>(
    sender: Sender<T>,
    after: Sender<T>,
    keys: OneRttKeys,
    keys_after: OneRttKeys,
    header: Seq<u8>,
    journal: ArcSendJournal<T>,
    journal_after: ArcSendJournal<T>,
    constraints: Constraints,
    probes: u64,
    frames: Seq<FrameWrite<T>>,
    accepted: Seq<bool>,
    accepted_after: Seq<bool>,
    recovered: Seq<T>,
    recovered_after: Seq<T>,
    result: Result<Option<PendingPacket>, QuicError>,
)
    requires
        sender.assembles_short(
            &after,
            &keys,
            &keys_after,
            header,
            &journal,
            &journal_after,
            constraints,
            probes,
            frames,
            accepted,
            accepted_after,
            recovered,
            recovered_after,
            result,
        ),
        !(result matches Ok(Some(_))),
        journal.wf(),
    ensures
        ({
            let taken = accepted_after.skip(accepted.len() as int);
            &&& accepted_after == accepted + taken
            &&& journal_after.records() == journal.records()
            &&& (result matches Err(error) && error.kind is Internal ==> journal_after.next_pn == journal.next_pn + 1
                && journal_after.skipped_pns@.contains(journal.next_pn))
            &&& taken.len() == 0 && recovered_after == recovered || taken.len() == frames.len() && recovered_after
                == recovered + frames.zip_with(taken).filter(
                |offer: (FrameWrite<T>, bool)| offer.1 && offer.0.kind is Guaranteed,
            ).map_values(|offer: (FrameWrite<T>, bool)| offer.0.kind->Guaranteed_0)
        }),
{
    let packet_type = PacketType::OneRtt;
    let tag = current_tag(keys);
    let admitted = admission(
        journal.is_full(1),
        sender.pending@,
        sender.overhead as int,
        constraints,
        probes,
        packet_type,
        header.len() as int,
        tag,
    );
    assert(accepted + Seq::<bool>::empty() =~= accepted);
    assert(accepted.skip(accepted.len() as int) =~= Seq::<bool>::empty());
    if let Admission::Granted(limits) = admitted {
        let whole = composition(header, packet_type, tag, limits, sender.pending@, frames, sender.overhead as int);
        lemma_recorded(
            fresh_view(header, packet_type, tag, limits.capacity as int),
            limits,
            sender.pending@,
            frames,
        );
        assert(accepted_after.skip(accepted.len() as int) =~= whole.accepted);
        assert(recovered_after =~= recovered_after.take(recovered.len() as int) + recovered_after.skip(
            recovered.len() as int,
        ));
        lemma_skipped(journal, journal_after);
    }
}

/// A sender that puts no packet with a long header together knows what it waits for, besides what it waited for
/// already: a record where the journal is full, credit where the limits leave no room, and else what the sources
/// and the limits said. With a packet or an error it waits for nothing more.
pub proof fn sender_of_long_packets_knows_what_it_waits_for<T: Copy>(
    sender: Sender<T>,
    after: Sender<T>,
    keys: rustls::quic::DirectionalKeys,
    header: Seq<u8>,
    packet_type: PacketType,
    journal: ArcSendJournal<T>,
    journal_after: ArcSendJournal<T>,
    constraints: Constraints,
    probes: u64,
    frames: Seq<FrameWrite<T>>,
    accepted: Seq<bool>,
    accepted_after: Seq<bool>,
    recovered: Seq<T>,
    recovered_after: Seq<T>,
    result: Result<Option<PendingPacket>, QuicError>,
)
    requires
        sender.assembles_long(
            &after,
            keys,
            header,
            packet_type,
            &journal,
            &journal_after,
            constraints,
            probes,
            frames,
            accepted,
            accepted_after,
            recovered,
            recovered_after,
            result,
        ),
    ensures
        after.signals.join(sender.signals) == after.signals,
        result matches Ok(Some(_)) ==> after.signals == sender.signals,
        result is Err ==> after.signals == sender.signals,
        journal.is_full(1) ==> result == Ok::<Option<PendingPacket>, QuicError>(None) && after.signals.transport,
        !journal.is_full(1) && accepted_after == accepted && frames.len() > 0 ==> result == Ok::<
            Option<PendingPacket>,
            QuicError,
        >(None) && after.signals.credit,
{
    let tag = tag_size(keys, None) as int;
    let admitted = admission(
        journal.is_full(1),
        sender.pending@,
        sender.overhead as int,
        constraints,
        probes,
        packet_type,
        header.len() as int,
        tag,
    );
    if let Admission::Granted(limits) = admitted {
        let whole = composition(header, packet_type, tag, limits, sender.pending@, frames, sender.overhead as int);
        lemma_recorded(fresh_view(header, packet_type, tag, limits.capacity as int), limits, sender.pending@, frames);
        assert(accepted_after.len() == accepted.len() + whole.accepted.len());
    }
}

/// A sender that puts no one-RTT packet together knows what it waits for, in the same way.
pub proof fn sender_of_one_rtt_packets_knows_what_it_waits_for<T: Copy>(
    sender: Sender<T>,
    after: Sender<T>,
    keys: OneRttKeys,
    keys_after: OneRttKeys,
    header: Seq<u8>,
    journal: ArcSendJournal<T>,
    journal_after: ArcSendJournal<T>,
    constraints: Constraints,
    probes: u64,
    frames: Seq<FrameWrite<T>>,
    accepted: Seq<bool>,
    accepted_after: Seq<bool>,
    recovered: Seq<T>,
    recovered_after: Seq<T>,
    result: Result<Option<PendingPacket>, QuicError>,
)
    requires
        sender.assembles_short(
            &after,
            &keys,
            &keys_after,
            header,
            &journal,
            &journal_after,
            constraints,
            probes,
            frames,
            accepted,
            accepted_after,
            recovered,
            recovered_after,
            result,
        ),
    ensures
        after.signals.join(sender.signals) == after.signals,
        result matches Ok(Some(_)) ==> after.signals == sender.signals,
        result is Err ==> after.signals == sender.signals,
        journal.is_full(1) ==> result == Ok::<Option<PendingPacket>, QuicError>(None) && after.signals.transport,
        !journal.is_full(1) && accepted_after == accepted && frames.len() > 0 ==> result == Ok::<
            Option<PendingPacket>,
            QuicError,
        >(None) && after.signals.credit,
{
    let tag = current_tag(keys);
    let admitted = admission(
        journal.is_full(1),
        sender.pending@,
        sender.overhead as int,
        constraints,
        probes,
        PacketType::OneRtt,
        header.len() as int,
        tag,
    );
    if let Admission::Granted(limits) = admitted {
        let whole = composition(
            header,
            PacketType::OneRtt,
            tag,
            limits,
            sender.pending@,
            frames,
            sender.overhead as int,
        );
        lemma_recorded(
            fresh_view(header, PacketType::OneRtt, tag, limits.capacity as int),
            limits,
            sender.pending@,
            frames,
        );
        assert(accepted_after.len() == accepted.len() + whole.accepted.len());
    }
}

/// A packet is held back exactly if nothing was written to it, or if it has to fill a datagram and cannot; the
/// sender then waits for what its sources said, or for congestion.
pub proof fn packet_is_held_back_without_content<T>(
    header: Seq<u8>,
    packet_type: PacketType,
    tag_len: int,
    limits: Constraints,
    pending: Seq<PendingPacket>,
    frames: Seq<FrameWrite<T>>,
    overhead: int,
    index: int,
)
    requires
        header.len() > 0,
        tag_len >= 0,
        tag_len < 18,
        header.len() + length_size(packet_type) + 4 + tag_len < limits.capacity,
        0 <= overhead <= 1200,
        1200 - overhead <= limits.capacity,
        1200 - overhead <= limits.anti_amplification,
        1200 - overhead <= limits.congestion,
    ensures
        ({
            let whole = composition(header, packet_type, tag_len, limits, pending, frames, overhead);
            &&& whole.blocked is None <==> exists|i: int|
                #![trigger whole.accepted[i]]
                0 <= i < frames.len() && whole.accepted[i]
            &&& whole.blocked is Some && 0 <= index < frames.len() && frames[index].kind is Idle
                ==> whole.blocked->Some_0.join(frames[index].kind->Idle_0) == whole.blocked->Some_0
        }),
{
    let fresh = fresh_view(header, packet_type, tag_len, limits.capacity as int);
    let whole = composition(header, packet_type, tag_len, limits, pending, frames, overhead);
    let assembly = assembled(fresh, limits, pending, frames);
    lemma_fresh(header, packet_type, tag_len, limits);
    lemma_holds(fresh, limits, pending, frames);
    assembly_respects_limits(fresh, limits, pending, frames);
    let accepted = whole.accepted;
    if exists|i: int| #![trigger accepted[i]] 0 <= i < frames.len() && accepted[i] {
        lemma_something_written(fresh, limits, pending, frames);
    } else {
        lemma_nothing_written(fresh, limits, pending, frames);
    }
    if 0 <= index < frames.len() && frames[index].kind is Idle {
        idle_source_says_what_it_waits_for(fresh, limits, pending, frames, index);
    }
}

proof fn lemma_something_written<T>(
    fresh: PacketView,
    limits: Constraints,
    pending: Seq<PendingPacket>,
    frames: Seq<FrameWrite<T>>,
)
    requires
        fresh.wf(),
        fresh.cursor == fresh.body_offset,
        fresh.challenge is None,
        fresh.response is None,
        fresh.largest_acked is None,
        fresh.content is NonAckEliciting,
        !fresh.in_flight,
        fresh.msg.len() == limits.capacity,
        fresh.tag_len < 18,
        ({
            let accepted = assembled(fresh, limits, pending, frames).accepted;
            exists|i: int| #![trigger accepted[i]] 0 <= i < frames.len() && accepted[i]
        }),
    ensures
        assembled(fresh, limits, pending, frames).packet.cursor > fresh.cursor,
    decreases frames.len(),
{
    let rest = frames.drop_last();
    let earlier = assembled(fresh, limits, pending, rest);
    let assembly = assembled(fresh, limits, pending, frames);
    let accepted = assembly.accepted;
    let last = frames.len() - 1;
    lemma_holds(fresh, limits, pending, rest);
    lemma_holds(fresh, limits, pending, frames);
    assert(accepted[last] == accepted.last());
    if earlier.packet.obstacle(limits, pending, frames.last()) is Some {
        let i = choose|i: int| #![trigger accepted[i]] 0 <= i < frames.len() && accepted[i];
        assert(earlier.accepted[i] == accepted[i]);
        lemma_something_written(fresh, limits, pending, rest);
    } else {
        frame_is_written_where_it_fits(earlier.packet, limits, pending, frames.last());
        written_frame_is_in_the_packet(earlier.packet, frames.last());
    }
}

} // verus!
