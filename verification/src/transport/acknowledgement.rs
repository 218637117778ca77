//! What an acknowledgement leads to.
use vstd::prelude::*;

use crate::base::ack::AckFrame;
use crate::base::error::{ErrorKind, QuicError};
use crate::base::signals::Signals;
use crate::base::varint::{VarInt, VARINT_MAX};
use crate::transport::frames::{GuaranteedFrame, ReliableFrame, StreamCtlFrame};
use crate::transport::records::ArcSendJournal;

verus! {

/// Who is told that a frame arrived.
#[derive(Clone, Copy, Debug, PartialEq, Eq, Structural)]
pub enum AckedFrame {
    Crypto { offset: u64, len: u64 },
    Stream { stream: u64, offset: u64, len: u64 },
    Reset(u64),
    /// Nobody.
    Ignored,
}

/// Who is told that a frame arrived.
pub open spec fn told_of(frame: GuaranteedFrame) -> AckedFrame {
    match frame {
        GuaranteedFrame::Crypto(range) => AckedFrame::Crypto { offset: range.offset, len: range.len },
        GuaranteedFrame::Stream(range) => AckedFrame::Stream {
            stream: range.stream,
            offset: range.offset,
            len: range.len,
        },
        GuaranteedFrame::Reliable(ReliableFrame::StreamCtl(StreamCtlFrame::ResetStream(frame))) => AckedFrame::Reset(
            frame,
        ),
        _ => AckedFrame::Ignored,
    }
}

/// Who is told that a frame arrived.
pub fn acked_frame(frame: GuaranteedFrame) -> (acked: AckedFrame)
    ensures
        acked == told_of(frame),
{
    match frame {
        GuaranteedFrame::Crypto(range) => AckedFrame::Crypto { offset: range.offset, len: range.len },
        GuaranteedFrame::Stream(range) => AckedFrame::Stream {
            stream: range.stream,
            offset: range.offset,
            len: range.len,
        },
        GuaranteedFrame::Reliable(ReliableFrame::StreamCtl(StreamCtlFrame::ResetStream(frame))) => AckedFrame::Reset(
            frame,
        ),
        _ => AckedFrame::Ignored,
    }
}

/// A delay in units of two to the exponent microseconds, in microseconds: bits beyond 64 are lost,
/// and what does not fit a variable-length integer is cut off.
pub open spec fn scaled(delay: u64, exponent: u32) -> u64 {
    if exponent >= 64 || (delay << exponent) > VARINT_MAX {
        VARINT_MAX
    } else {
        delay << exponent
    }
}

/// The delay that an acknowledgement reports, in microseconds.
pub fn scaled_delay(delay: u64, exponent: u32) -> (micros: u64)
    ensures
        micros == scaled(delay, exponent),
        micros <= VARINT_MAX,
{
    if exponent >= 64 {
        return VARINT_MAX;
    }
    let shifted: u64 = delay << exponent;
    if shifted > VARINT_MAX {
        VARINT_MAX
    } else {
        shifted
    }
}

/// What an acknowledgement of sent packets leads to.
#[derive(Debug)]
pub struct Acknowledged<T> {
    /// The frames that arrived, for their owners.
    pub frames: Vec<T>,
    /// The key generations that the peer has answered.
    pub generations: Vec<u64>,
    /// The acknowledgement for congestion control, its delay in microseconds.
    pub ack: AckFrame,
    /// What senders are told.
    pub wake: Signals,
}

/// Takes an acknowledgement of 1-RTT packets, whose delay is in units of two to the peer's exponent
/// microseconds. A wrong one changes nothing.
pub fn acknowledge<T: Copy>(journal: &mut ArcSendJournal<T>, ack: &AckFrame, exponent: u64) -> (result: Result<
    Acknowledged<T>,
    QuicError,
>)
    requires
        old(journal).wf(),
    ensures
        final(journal).wf(),
        match result {
            Ok(acknowledged) => {
                &&& old(journal).acknowledged(
                    final(journal),
                    ack,
                    acknowledged.generations@,
                    acknowledged.frames@,
                )
                &&& acknowledged.ack.largest == ack.largest
                &&& acknowledged.ack.delay.value == scaled(ack.delay.value, exponent as u32)
                &&& acknowledged.ack.first_range == ack.first_range
                &&& acknowledged.ack.ranges@ == ack.ranges@
                &&& acknowledged.ack.ecn == ack.ecn
                &&& acknowledged.wake == Signals::only_congestion().join(Signals::only_transport())
            },
            Err(error) => *final(journal) == *old(journal) && old(journal).refuses(ack, error),
        },
{
    let delay = scaled_delay(ack.delay.value, #[verifier::truncate] (exponent as u32));
    let (generations, frames) = match journal.acknowledge(ack) {
        Ok(acknowledged) => acknowledged,
        Err(error) => return Err(error),
    };
    let mut ranges: Vec<(VarInt, VarInt)> = Vec::new();
    let mut at: usize = 0;
    while at < ack.ranges.len()
        invariant
            at <= ack.ranges@.len(),
            ranges@ == ack.ranges@.take(at as int),
        decreases ack.ranges@.len() - at,
    {
        ranges.push(ack.ranges[at]);
        at = at + 1;
        assert(ranges@ =~= ack.ranges@.take(at as int));
    }
    assert(ranges@ =~= ack.ranges@);
    Ok(
        Acknowledged {
            frames,
            generations,
            ack: AckFrame {
                largest: ack.largest,
                delay: VarInt { value: delay },
                first_range: ack.first_range,
                ranges,
                ecn: ack.ecn,
            },
            wake: Signals::congestion().union(Signals::transport()),
        },
    )
}

/// The owner of what arrived is told of exactly that: CRYPTO and stream data by their range, a reset by its
/// stream; of other frames nobody is told.
pub proof fn owners_are_told_of_what_arrived(frame: GuaranteedFrame, stream: u64)
    ensures
        told_of(frame) is Crypto <==> frame is Crypto,
        frame matches GuaranteedFrame::Crypto(range) ==> told_of(frame) == (AckedFrame::Crypto {
            offset: range.offset,
            len: range.len,
        }),
        told_of(frame) is Stream <==> frame is Stream,
        frame matches GuaranteedFrame::Stream(range) ==> told_of(frame) == (AckedFrame::Stream {
            stream: range.stream,
            offset: range.offset,
            len: range.len,
        }),
        told_of(frame) == AckedFrame::Reset(stream) <==> frame == GuaranteedFrame::Reliable(
            ReliableFrame::StreamCtl(StreamCtlFrame::ResetStream(stream)),
        ),
{
}

/// A reported delay stands for as many microseconds as its exponent says: one exponent more doubles it.
pub proof fn delay_doubles_with_its_exponent(delay: u64, exponent: u32)
    requires
        exponent < 62,
        delay < 0x1000_0000_0000_0000,
    ensures
        scaled(delay, 0) == delay,
        delay << exponent <= 0x1000_0000_0000_0000 && delay <= 0xffff_ffff && exponent < 28 ==> scaled(
            delay,
            (exponent + 1) as u32,
        ) == 2 * scaled(delay, exponent),
        scaled(delay, exponent) <= VARINT_MAX,
{
    assert(delay << 0u32 == delay) by (bit_vector);
    let more = (exponent + 1) as u32;
    if delay <= 0xffff_ffff && exponent < 28 {
        assert(delay << more == 2 * (delay << exponent)) by (bit_vector)
            requires
                delay <= 0xffff_ffff,
                exponent < 28,
                more == exponent + 1,
        ;
    }
}

} // verus!
