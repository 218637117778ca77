//! Frames that must arrive. What a frame says goes by the caller's handle on it.
use vstd::prelude::*;

verus! {

/// A range of a stream.
#[derive(Clone, Copy, Debug, PartialEq, Eq, Structural)]
pub struct StreamRange {
    pub stream: u64,
    pub offset: u64,
    pub len: u64,
    pub fin: bool,
}

/// A range of the CRYPTO stream.
#[derive(Clone, Copy, Debug, PartialEq, Eq, Structural)]
pub struct CryptoRange {
    pub offset: u64,
    pub len: u64,
}

/// A frame that controls a stream.
#[derive(Clone, Copy, Debug, PartialEq, Eq, Structural)]
pub enum StreamCtlFrame {
    ResetStream(u64),
    Other(u64),
}

/// A frame that is sent again as it is.
#[derive(Clone, Copy, Debug, PartialEq, Eq, Structural)]
pub enum ReliableFrame {
    NewToken(u64),
    MaxData(u64),
    DataBlocked(u64),
    NewConnectionId(u64),
    RetireConnectionId(u64),
    HandshakeDone,
    AddAddress(u64),
    RemoveAddress(u64),
    PunchMeNow(u64),
    PunchDone(u64),
    StreamCtl(StreamCtlFrame),
}

/// Any frame.
#[derive(Clone, Copy, Debug, PartialEq, Eq, Structural)]
pub enum Frame {
    Padding,
    Ping,
    Ack(u64),
    Close(u64),
    PathChallenge(u64),
    PathResponse(u64),
    Datagram(u64),
    Stream(StreamRange),
    Crypto(CryptoRange),
    NewToken(u64),
    MaxData(u64),
    DataBlocked(u64),
    NewConnectionId(u64),
    RetireConnectionId(u64),
    HandshakeDone,
    AddAddress(u64),
    RemoveAddress(u64),
    PunchMeNow(u64),
    PunchDone(u64),
    StreamCtl(StreamCtlFrame),
}

/// What is kept of a frame until it is acknowledged. The data of streams stays in their buffers.
#[derive(Clone, Copy, Debug, PartialEq, Eq, Structural)]
pub enum GuaranteedFrame {
    Stream(StreamRange),
    Crypto(CryptoRange),
    Reliable(ReliableFrame),
}

impl GuaranteedFrame {
    /// The frame that is kept.
    pub open spec fn frame(self) -> Frame {
        match self {
            GuaranteedFrame::Stream(range) => Frame::Stream(range),
            GuaranteedFrame::Crypto(range) => Frame::Crypto(range),
            GuaranteedFrame::Reliable(ReliableFrame::NewToken(frame)) => Frame::NewToken(frame),
            GuaranteedFrame::Reliable(ReliableFrame::MaxData(frame)) => Frame::MaxData(frame),
            GuaranteedFrame::Reliable(ReliableFrame::DataBlocked(frame)) => Frame::DataBlocked(frame),
            GuaranteedFrame::Reliable(ReliableFrame::NewConnectionId(frame)) => Frame::NewConnectionId(frame),
            GuaranteedFrame::Reliable(ReliableFrame::RetireConnectionId(frame)) => Frame::RetireConnectionId(frame),
            GuaranteedFrame::Reliable(ReliableFrame::HandshakeDone) => Frame::HandshakeDone,
            GuaranteedFrame::Reliable(ReliableFrame::AddAddress(frame)) => Frame::AddAddress(frame),
            GuaranteedFrame::Reliable(ReliableFrame::RemoveAddress(frame)) => Frame::RemoveAddress(frame),
            GuaranteedFrame::Reliable(ReliableFrame::PunchMeNow(frame)) => Frame::PunchMeNow(frame),
            GuaranteedFrame::Reliable(ReliableFrame::PunchDone(frame)) => Frame::PunchDone(frame),
            GuaranteedFrame::Reliable(ReliableFrame::StreamCtl(frame)) => Frame::StreamCtl(frame),
        }
    }

    /// Keeps a frame, if it is one that must arrive; else gives it back.
    pub fn try_from_frame(frame: Frame) -> (result: Result<GuaranteedFrame, Frame>)
        ensures
            match result {
                Ok(kept) => kept.frame() == frame,
                Err(back) => back == frame && (frame is Padding || frame is Ping || frame is Ack || frame is Close
                    || frame is PathChallenge || frame is PathResponse || frame is Datagram),
            },
    {
        let reliable = match frame {
            Frame::Stream(range) => return Ok(GuaranteedFrame::Stream(range)),
            Frame::Crypto(range) => return Ok(GuaranteedFrame::Crypto(range)),
            Frame::NewToken(frame) => ReliableFrame::NewToken(frame),
            Frame::MaxData(frame) => ReliableFrame::MaxData(frame),
            Frame::DataBlocked(frame) => ReliableFrame::DataBlocked(frame),
            Frame::NewConnectionId(frame) => ReliableFrame::NewConnectionId(frame),
            Frame::RetireConnectionId(frame) => ReliableFrame::RetireConnectionId(frame),
            Frame::HandshakeDone => ReliableFrame::HandshakeDone,
            Frame::AddAddress(frame) => ReliableFrame::AddAddress(frame),
            Frame::RemoveAddress(frame) => ReliableFrame::RemoveAddress(frame),
            Frame::PunchMeNow(frame) => ReliableFrame::PunchMeNow(frame),
            Frame::PunchDone(frame) => ReliableFrame::PunchDone(frame),
            Frame::StreamCtl(frame) => ReliableFrame::StreamCtl(frame),
            frame => return Err(frame),
        };
        Ok(GuaranteedFrame::Reliable(reliable))
    }

    /// The frame that is kept.
    pub fn into_frame(self) -> (frame: Frame)
        ensures
            frame == self.frame(),
    {
        match self {
            GuaranteedFrame::Stream(range) => Frame::Stream(range),
            GuaranteedFrame::Crypto(range) => Frame::Crypto(range),
            GuaranteedFrame::Reliable(ReliableFrame::NewToken(frame)) => Frame::NewToken(frame),
            GuaranteedFrame::Reliable(ReliableFrame::MaxData(frame)) => Frame::MaxData(frame),
            GuaranteedFrame::Reliable(ReliableFrame::DataBlocked(frame)) => Frame::DataBlocked(frame),
            GuaranteedFrame::Reliable(ReliableFrame::NewConnectionId(frame)) => Frame::NewConnectionId(frame),
            GuaranteedFrame::Reliable(ReliableFrame::RetireConnectionId(frame)) => Frame::RetireConnectionId(frame),
            GuaranteedFrame::Reliable(ReliableFrame::HandshakeDone) => Frame::HandshakeDone,
            GuaranteedFrame::Reliable(ReliableFrame::AddAddress(frame)) => Frame::AddAddress(frame),
            GuaranteedFrame::Reliable(ReliableFrame::RemoveAddress(frame)) => Frame::RemoveAddress(frame),
            GuaranteedFrame::Reliable(ReliableFrame::PunchMeNow(frame)) => Frame::PunchMeNow(frame),
            GuaranteedFrame::Reliable(ReliableFrame::PunchDone(frame)) => Frame::PunchDone(frame),
            GuaranteedFrame::Reliable(ReliableFrame::StreamCtl(frame)) => Frame::StreamCtl(frame),
        }
    }
}

/// A frame is kept in one way only, and comes back as it was.
pub proof fn kept_frames_come_back(left: GuaranteedFrame, right: GuaranteedFrame)
    ensures
        left.frame() == right.frame() ==> left == right,
{
}

/// What is kept of a frame is of its kind.
pub proof fn kept_frames_are_of_their_kind(kept: GuaranteedFrame, handle: u64, range: StreamRange, crypto: CryptoRange)
    ensures
        GuaranteedFrame::Stream(range).frame() == Frame::Stream(range),
        GuaranteedFrame::Crypto(crypto).frame() == Frame::Crypto(crypto),
        GuaranteedFrame::Reliable(ReliableFrame::NewToken(handle)).frame() == Frame::NewToken(handle),
        GuaranteedFrame::Reliable(ReliableFrame::MaxData(handle)).frame() == Frame::MaxData(handle),
        GuaranteedFrame::Reliable(ReliableFrame::DataBlocked(handle)).frame() == Frame::DataBlocked(handle),
        GuaranteedFrame::Reliable(ReliableFrame::NewConnectionId(handle)).frame() == Frame::NewConnectionId(handle),
        GuaranteedFrame::Reliable(ReliableFrame::RetireConnectionId(handle)).frame() == Frame::RetireConnectionId(
            handle,
        ),
        GuaranteedFrame::Reliable(ReliableFrame::HandshakeDone).frame() == Frame::HandshakeDone,
        GuaranteedFrame::Reliable(ReliableFrame::AddAddress(handle)).frame() == Frame::AddAddress(handle),
        GuaranteedFrame::Reliable(ReliableFrame::RemoveAddress(handle)).frame() == Frame::RemoveAddress(handle),
        GuaranteedFrame::Reliable(ReliableFrame::PunchMeNow(handle)).frame() == Frame::PunchMeNow(handle),
        GuaranteedFrame::Reliable(ReliableFrame::PunchDone(handle)).frame() == Frame::PunchDone(handle),
        kept.frame() is StreamCtl <==> (kept matches GuaranteedFrame::Reliable(frame) && frame is StreamCtl),
        !(kept.frame() is Padding || kept.frame() is Ping || kept.frame() is Ack || kept.frame() is Close
            || kept.frame() is PathChallenge || kept.frame() is PathResponse || kept.frame() is Datagram),
{
}

} // verus!
