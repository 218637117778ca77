//! What is done with received packets and the frames in them.
use vstd::prelude::*;

use crate::base::error::{ErrorKind, QuicError};
use crate::base::signals::Signals;
use crate::base::text::optional_text;
use crate::base::varint::VARINT_MAX;
use crate::recovery::rcvd::{lemma_insertion, ArcRcvdJournal};
use crate::transport::assembly::{Epoch, PacketContent, PacketType};

verus! {

/// A frame, as far as receiving depends on it.
#[derive(Clone, Copy, Debug, PartialEq, Eq, Structural)]
pub enum ReceivedFrame {
    Padding,
    Ping,
    Ack,
    Crypto { offset: u64, len: u64 },
    Stream,
    StreamCtl,
    MaxData,
    DataBlocked,
    NewConnectionId,
    RetireConnectionId,
    NewToken,
    PathChallenge,
    PathResponse,
    Close,
    /// HANDSHAKE_DONE and the frames of negotiated extensions.
    Other { ack_eliciting: bool },
}

/// Who takes a frame.
#[derive(Clone, Copy, Debug, PartialEq, Eq, Structural)]
pub enum FrameTarget {
    /// Nothing is to be done.
    Nobody,
    /// The journal of sent data, congestion control and the owners of acknowledged frames.
    Acknowledgement,
    /// The CRYPTO stream of a space.
    CryptoStream(Epoch),
    /// The streams, and connection flow control for what is new.
    Streams,
    /// Flow control of what is sent.
    SendFlow,
    /// Flow control of what is received.
    ReceiveFlow,
    RemoteCids,
    LocalCids,
    Tokens,
    Path,
    /// Everything stops: sending, streams and flow control fail, the owner takes the close.
    Close,
    /// The driver of the handshake.
    Driver,
}

/// The owner of a frame received in a space.
pub open spec fn target_of(epoch: Epoch, frame: ReceivedFrame) -> FrameTarget {
    match frame {
        ReceivedFrame::Padding => FrameTarget::Nobody,
        ReceivedFrame::Ping => FrameTarget::Nobody,
        ReceivedFrame::Ack => if epoch == Epoch::Data { FrameTarget::Acknowledgement } else { FrameTarget::Driver },
        ReceivedFrame::Crypto { .. } => FrameTarget::CryptoStream(epoch),
        ReceivedFrame::Stream => FrameTarget::Streams,
        ReceivedFrame::StreamCtl => FrameTarget::Streams,
        ReceivedFrame::MaxData => FrameTarget::SendFlow,
        ReceivedFrame::DataBlocked => FrameTarget::ReceiveFlow,
        ReceivedFrame::NewConnectionId => FrameTarget::RemoteCids,
        ReceivedFrame::RetireConnectionId => FrameTarget::LocalCids,
        ReceivedFrame::NewToken => FrameTarget::Tokens,
        ReceivedFrame::PathChallenge => FrameTarget::Path,
        ReceivedFrame::PathResponse => FrameTarget::Path,
        ReceivedFrame::Close => FrameTarget::Close,
        _ => FrameTarget::Driver,
    }
}

/// Finds the owner of a frame. A close also marks the connection as closing.
pub fn frame_dispatcher(epoch: Epoch, frame: ReceivedFrame, closing: &mut bool) -> (target: FrameTarget)
    ensures
        target == target_of(epoch, frame),
        *final(closing) == (*old(closing) || frame is Close),
        target is Nobody <==> frame is Padding || frame is Ping,
        target is Acknowledgement <==> frame is Ack && epoch is Data,
        target is CryptoStream <==> frame is Crypto,
        target is Streams <==> frame is Stream || frame is StreamCtl,
        target is SendFlow <==> frame is MaxData,
        target is ReceiveFlow <==> frame is DataBlocked,
        target is RemoteCids <==> frame is NewConnectionId,
        target is LocalCids <==> frame is RetireConnectionId,
        target is Tokens <==> frame is NewToken,
        target is Path <==> frame is PathChallenge || frame is PathResponse,
        target is Close <==> frame is Close,
        target is Driver <==> frame is Other || (frame is Ack && !(epoch is Data)),
{
    match frame {
        ReceivedFrame::Padding => FrameTarget::Nobody,
        ReceivedFrame::Ping => FrameTarget::Nobody,
        ReceivedFrame::Ack => if epoch == Epoch::Data {
            FrameTarget::Acknowledgement
        } else {
            FrameTarget::Driver
        },
        ReceivedFrame::Crypto { .. } => FrameTarget::CryptoStream(epoch),
        ReceivedFrame::Stream => FrameTarget::Streams,
        ReceivedFrame::StreamCtl => FrameTarget::Streams,
        ReceivedFrame::MaxData => FrameTarget::SendFlow,
        ReceivedFrame::DataBlocked => FrameTarget::ReceiveFlow,
        ReceivedFrame::NewConnectionId => FrameTarget::RemoteCids,
        ReceivedFrame::RetireConnectionId => FrameTarget::LocalCids,
        ReceivedFrame::NewToken => FrameTarget::Tokens,
        ReceivedFrame::PathChallenge => FrameTarget::Path,
        ReceivedFrame::PathResponse => FrameTarget::Path,
        ReceivedFrame::Close => {
            *closing = true;
            FrameTarget::Close
        },
        _ => FrameTarget::Driver,
    }
}

/// The space that takes a packet of this type. Early data is not taken.
pub open spec fn space_for(packet_type: PacketType) -> Option<Epoch> {
    match packet_type {
        PacketType::Initial => Some(Epoch::Initial),
        PacketType::Handshake => Some(Epoch::Handshake),
        PacketType::OneRtt => Some(Epoch::Data),
        PacketType::ZeroRtt => None,
    }
}

/// Which space's queue a packet goes to.
pub fn route_packet(packet_type: PacketType) -> (space: Option<Epoch>)
    ensures
        space == space_for(packet_type),
{
    match packet_type {
        PacketType::Initial => Some(Epoch::Initial),
        PacketType::Handshake => Some(Epoch::Handshake),
        PacketType::OneRtt => Some(Epoch::Data),
        PacketType::ZeroRtt => None,
    }
}

/// What a space's receiver does with the next packet.
#[derive(Clone, Copy, Debug, PartialEq, Eq, Structural)]
pub enum ReceiveStep {
    /// The packet belongs elsewhere.
    Skip,
    /// The space has stopped.
    Stop,
    /// The packet is opened.
    Open,
}

/// Decides on a packet before its keys are awaited, or after they came: a space that stopped
/// receiving, or whose keys are gone, ends.
pub fn receive_step(packet_type: PacketType, space: Epoch, can_receive: bool, keys_retired: bool) -> (step: ReceiveStep)
    ensures
        step == if space_for(packet_type) != Some(space) {
            ReceiveStep::Skip
        } else if !can_receive || keys_retired {
            ReceiveStep::Stop
        } else {
            ReceiveStep::Open
        },
{
    match route_packet(packet_type) {
        Some(found) => if found != space {
            ReceiveStep::Skip
        } else if !can_receive || keys_retired {
            ReceiveStep::Stop
        } else {
            ReceiveStep::Open
        },
        None => ReceiveStep::Skip,
    }
}

/// Whether an error is the first: it is reported, and the connection is closing from then on.
pub fn report_first_error(closing: &mut bool) -> (report: bool)
    ensures
        report == !*old(closing),
        *final(closing),
{
    let report: bool = !*closing;
    *closing = true;
    report
}

pub open spec fn content_of(frame: ReceivedFrame) -> PacketContent {
    match frame {
        ReceivedFrame::Padding => PacketContent::NonAckEliciting,
        ReceivedFrame::Ack => PacketContent::NonAckEliciting,
        ReceivedFrame::Close => PacketContent::NonAckEliciting,
        ReceivedFrame::Other { ack_eliciting } => if ack_eliciting {
            PacketContent::EffectivePayload
        } else {
            PacketContent::NonAckEliciting
        },
        ReceivedFrame::Ping => PacketContent::JustPing,
        _ => PacketContent::EffectivePayload,
    }
}

fn content(frame: ReceivedFrame) -> (content: PacketContent)
    ensures
        content == content_of(frame),
{
    match frame {
        ReceivedFrame::Padding => PacketContent::NonAckEliciting,
        ReceivedFrame::Ack => PacketContent::NonAckEliciting,
        ReceivedFrame::Close => PacketContent::NonAckEliciting,
        ReceivedFrame::Other { ack_eliciting } => if ack_eliciting {
            PacketContent::EffectivePayload
        } else {
            PacketContent::NonAckEliciting
        },
        ReceivedFrame::Ping => PacketContent::JustPing,
        _ => PacketContent::EffectivePayload,
    }
}

/// What is wrong with a frame on its own.
pub open spec fn frame_fault(frame: ReceivedFrame) -> Option<Seq<char>> {
    match frame {
        ReceivedFrame::Crypto { offset, len } => if offset + len > VARINT_MAX {
            Some("CRYPTO range exceeds maximum offset"@)
        } else {
            None
        },
        _ => None,
    }
}

/// The first fault of a packet: one of the frames that could be read, or else what the decoder says of
/// the bytes behind them.
pub open spec fn reading_fault(frames: Seq<ReceivedFrame>, malformed: Option<Seq<char>>) -> Option<Seq<char>> {
    match first_fault(frames) {
        Some(reason) => Some(reason),
        None => malformed,
    }
}

/// The first fault among the frames.
pub open spec fn first_fault(frames: Seq<ReceivedFrame>) -> Option<Seq<char>>
    decreases frames.len(),
{
    if frames.len() == 0 {
        None
    } else {
        match first_fault(frames.drop_last()) {
            Some(reason) => Some(reason),
            None => frame_fault(frames.last()),
        }
    }
}

/// The first close among the frames.
pub open spec fn first_close(frames: Seq<ReceivedFrame>, from: int) -> Option<int>
    decreases frames.len() - from,
{
    if from >= frames.len() {
        None
    } else if frames[from] is Close {
        Some(from)
    } else {
        first_close(frames, from + 1)
    }
}

/// The frames that are not padding, in order.
pub open spec fn deliverable(frames: Seq<ReceivedFrame>) -> Seq<usize>
    decreases frames.len(),
{
    if frames.len() == 0 {
        Seq::empty()
    } else if frames.last() is Padding {
        deliverable(frames.drop_last())
    } else {
        deliverable(frames.drop_last()).push((frames.len() - 1) as usize)
    }
}

/// What the frames ask of the receiver, taken together.
pub open spec fn total_content(frames: Seq<ReceivedFrame>) -> PacketContent
    decreases frames.len(),
{
    if frames.len() == 0 {
        PacketContent::NonAckEliciting
    } else {
        total_content(frames.drop_last()).joined(content_of(frames.last()))
    }
}

/// What is to be done with the frames of one packet: which are handed to their owners, in order,
/// and whether the packet counts as received once all were taken.
#[derive(Debug)]
pub struct ReceivePlan {
    pub dispatch: Vec<usize>,
    pub counts: bool,
    pub content: PacketContent,
}

impl ReceivePlan {
    /// Whether only frames that there are, `count` of them, are handed on.
    pub open spec fn names_frames(&self, count: nat) -> bool {
        forall|i: int| #![trigger self.dispatch@[i]] 0 <= i < self.dispatch@.len() ==> self.dispatch@[i] < count
    }

    /// Whether this is the plan for the frames.
    pub open spec fn is_for(&self, closing: bool, frames: Seq<ReceivedFrame>) -> bool {
        match first_close(frames, 0) {
            Some(index) => self.dispatch@ == seq![index as usize] && !self.counts && self.content
                == PacketContent::NonAckEliciting,
            None => if closing {
                self.dispatch@ == Seq::<usize>::empty() && !self.counts && self.content
                    == PacketContent::NonAckEliciting
            } else {
                self.dispatch@ == deliverable(frames) && self.counts && self.content == total_content(frames)
            },
        }
    }
}

/// Plans what is done with the frames of an authentic packet: those that could be read, and what the
/// decoder says of what follows them, if that is no frame. While the connection is closing, only a
/// close is of interest. Otherwise every frame must be well formed before any is handed on; a close goes
/// before all others, whose packet is then not acknowledged.
pub fn plan_receive(closing: bool, frames: &Vec<ReceivedFrame>, malformed: &Option<String>) -> (result: Result<
    ReceivePlan,
    QuicError,
>)
    ensures
        match result {
            Ok(plan) => {
                &&& closing || reading_fault(frames@, optional_text(*malformed)) is None
                &&& plan.is_for(closing, frames@)
                &&& plan.names_frames(frames@.len())
            },
            Err(error) => !closing && (reading_fault(frames@, optional_text(*malformed)) matches Some(reason)
                && error.says(ErrorKind::FrameEncoding, reason)),
        },
{
    if !closing {
        if let Some(reason) = find_fault(frames) {
            return Err(QuicError::new(ErrorKind::FrameEncoding, reason));
        }
        if let Some(reason) = malformed {
            return Err(QuicError::new(ErrorKind::FrameEncoding, reason.as_str()));
        }
    }
    if let Some(index) = find_close(frames) {
        let mut dispatch: Vec<usize> = Vec::new();
        dispatch.push(index);
        assert(dispatch@ =~= seq![index]);
        return Ok(ReceivePlan { dispatch, counts: false, content: PacketContent::NonAckEliciting });
    }
    if closing {
        return Ok(ReceivePlan { dispatch: Vec::new(), counts: false, content: PacketContent::NonAckEliciting });
    }
    let mut dispatch: Vec<usize> = Vec::new();
    let mut total: PacketContent = PacketContent::NonAckEliciting;
    let mut index: usize = 0;
    assert(frames@.take(0) =~= Seq::<ReceivedFrame>::empty());
    while index < frames.len()
        invariant
            index <= frames@.len(),
            dispatch@ == deliverable(frames@.take(index as int)),
            forall|i: int| #![trigger dispatch@[i]] 0 <= i < dispatch@.len() ==> dispatch@[i] < frames@.len(),
            total == total_content(frames@.take(index as int)),
        decreases frames@.len() - index,
    {
        assert(frames@.take(index + 1).drop_last() =~= frames@.take(index as int));
        let frame: ReceivedFrame = frames[index];
        total = total.join(content(frame));
        match frame {
            ReceivedFrame::Padding => {},
            _ => {
                dispatch.push(index);
            },
        }
        index = index + 1;
    }
    assert(frames@.take(index as int) =~= frames@);
    Ok(ReceivePlan { dispatch, counts: true, content: total })
}

fn find_fault(frames: &Vec<ReceivedFrame>) -> (fault: Option<&'static str>)
    ensures
        match fault {
            Some(reason) => first_fault(frames@) == Some(reason@),
            None => first_fault(frames@) is None,
        },
{
    let mut index: usize = 0;
    assert(frames@.take(0) =~= Seq::<ReceivedFrame>::empty());
    while index < frames.len()
        invariant
            index <= frames@.len(),
            first_fault(frames@.take(index as int)) is None,
        decreases frames@.len() - index,
    {
        assert(frames@.take(index + 1).drop_last() =~= frames@.take(index as int));
        let fault: Option<&'static str> = match frames[index] {
            ReceivedFrame::Crypto { offset, len } => if offset > VARINT_MAX || len > VARINT_MAX - offset {
                Some("CRYPTO range exceeds maximum offset")
            } else {
                None
            },
            _ => None,
        };
        if let Some(reason) = fault {
            proof {
                lemma_fault_stays(frames@, index + 1);
            }
            return Some(reason);
        }
        index = index + 1;
    }
    assert(frames@.take(index as int) =~= frames@);
    None
}

proof fn lemma_fault_stays(frames: Seq<ReceivedFrame>, count: int)
    requires
        0 <= count <= frames.len(),
        first_fault(frames.take(count)) is Some,
    ensures
        first_fault(frames) == first_fault(frames.take(count)),
    decreases frames.len() - count,
{
    if count < frames.len() {
        assert(frames.take(count + 1).drop_last() =~= frames.take(count));
        lemma_fault_stays(frames, count + 1);
    } else {
        assert(frames.take(count) =~= frames);
    }
}

fn find_close(frames: &Vec<ReceivedFrame>) -> (found: Option<usize>)
    ensures
        match found {
            Some(index) => first_close(frames@, 0) == Some(index as int) && index < frames@.len(),
            None => first_close(frames@, 0) is None,
        },
{
    let mut index: usize = 0;
    while index < frames.len()
        invariant
            index <= frames@.len(),
            first_close(frames@, 0) == first_close(frames@, index as int),
        decreases frames@.len() - index,
    {
        match frames[index] {
            ReceivedFrame::Close => return Some(index),
            _ => {},
        }
        index = index + 1;
    }
    None
}

/// What is done next on the delivery of a packet's frames.
#[derive(Clone, Copy, Debug, PartialEq, Eq, Structural)]
pub enum DeliveryStep {
    /// The frame at `index` is handed to its owner.
    Deliver { index: usize, target: FrameTarget },
    /// The connection is closing: the other frames reach nobody.
    BreakOff,
    /// Every frame was handed on.
    Done,
}

impl ReceivePlan {
    /// Whether `step` is what comes next at `place`, from whether the connection is closing by now, and
    /// whether it is closing afterwards.
    pub open spec fn steps(
        &self,
        epoch: Epoch,
        frames: Seq<ReceivedFrame>,
        place: int,
        closing: bool,
        closing_after: bool,
        step: DeliveryStep,
    ) -> bool {
        if place >= self.dispatch@.len() {
            step == DeliveryStep::Done && closing_after == closing
        } else if self.counts && closing {
            step == DeliveryStep::BreakOff && closing_after
        } else {
            let index = self.dispatch@[place];
            let frame = frames[index as int];
            step == (DeliveryStep::Deliver { index, target: target_of(epoch, frame) }) && closing_after == (closing
                || frame is Close)
        }
    }
}

/// Decides on the frame at `place` of a plan, from whether the connection is closing by now. A close
/// that is handed on marks the connection as closing.
pub fn delivery_step(
    plan: &ReceivePlan,
    epoch: Epoch,
    frames: &Vec<ReceivedFrame>,
    place: usize,
    closing: &mut bool,
) -> (step: DeliveryStep)
    requires
        plan.names_frames(frames@.len()),
    ensures
        plan.steps(epoch, frames@, place as int, *old(closing), *final(closing), step),
{
    if place >= plan.dispatch.len() {
        return DeliveryStep::Done;
    }
    if plan.counts && *closing {
        return DeliveryStep::BreakOff;
    }
    let index: usize = plan.dispatch[place];
    DeliveryStep::Deliver { index, target: frame_dispatcher(epoch, frames[index], closing) }
}

/// What became of the frames that were handed on.
#[derive(Debug)]
pub enum Dispatched {
    /// All were taken.
    All,
    /// The connection began to close in between.
    Closing,
    /// One was refused.
    Failed(QuicError),
}

/// What a packet came to.
#[derive(Clone, Copy, Debug, PartialEq, Eq, Structural)]
pub struct Concluded {
    pub content: PacketContent,
    /// Whether the packet counts as received: congestion control hears of it.
    pub counted: bool,
    /// What the sender of the path is told.
    pub wake: Signals,
}

/// What a packet comes to that does not count.
pub open spec fn unheard() -> Concluded {
    Concluded { content: PacketContent::NonAckEliciting, counted: false, wake: Signals::none() }
}

impl ReceivePlan {
    /// Whether a packet comes to `result` and turns a journal into another.
    pub open spec fn concludes(
        &self,
        dispatched: Dispatched,
        pn: u64,
        before: ArcRcvdJournal,
        now: u64,
        after: ArcRcvdJournal,
        result: Result<Concluded, QuicError>,
    ) -> bool {
        match dispatched {
            Dispatched::Failed(error) => result == Err::<Concluded, QuicError>(error) && after == before,
            Dispatched::Closing => result == Ok::<Concluded, QuicError>(unheard()) && after == before,
            Dispatched::All => {
                &&& result == Ok::<Concluded, QuicError>(
                    if self.counts {
                        Concluded { content: self.content, counted: true, wake: Signals::only_transport() }
                    } else {
                        unheard()
                    },
                )
                &&& if !self.counts || pn < before.packets.retired_before || before.packets.has(pn as int) {
                    after == before
                } else {
                    before.packets.inserted(&after.packets, pn, now)
                }
            },
        }
    }
}

/// Concludes a packet received at `now`. It is recorded, and so may be acknowledged, only if
/// every frame was taken; the sender of the path then hears of it.
pub fn conclude_receive(
    plan: &ReceivePlan,
    dispatched: Dispatched,
    pn: u64,
    journal: &mut ArcRcvdJournal,
    now: u64,
) -> (result: Result<Concluded, QuicError>)
    requires
        old(journal).wf(),
        plan.counts && dispatched is All ==> pn < u64::MAX,
    ensures
        final(journal).wf(),
        plan.concludes(dispatched, pn, *old(journal), now, *final(journal), result),
{
    match dispatched {
        Dispatched::Failed(error) => Err(error),
        Dispatched::Closing => Ok(
            Concluded { content: PacketContent::NonAckEliciting, counted: false, wake: Signals::empty() },
        ),
        Dispatched::All => {
            if plan.counts {
                journal.on_rcvd_pn(pn, now);
                Ok(Concluded { content: plan.content, counted: true, wake: Signals::transport() })
            } else {
                Ok(Concluded { content: PacketContent::NonAckEliciting, counted: false, wake: Signals::empty() })
            }
        },
    }
}

/// While the connection is closing no frame but a close reaches anyone, and nothing is
/// acknowledged.
pub proof fn closing_delivers_only_close(plan: &ReceivePlan, frames: Seq<ReceivedFrame>)
    requires
        plan.is_for(true, frames),
        frames.len() <= usize::MAX,
    ensures
        !plan.counts,
        plan.dispatch@.len() <= 1,
        forall|i: int|
            #![trigger plan.dispatch@[i]]
            0 <= i < plan.dispatch@.len() ==> plan.dispatch@[i] < frames.len() && frames[plan.dispatch@[i] as int] is Close,
{
    lemma_close_found(frames, 0);
}

proof fn lemma_close_found(frames: Seq<ReceivedFrame>, from: int)
    requires
        0 <= from,
    ensures
        first_close(frames, from) matches Some(index) ==> from <= index < frames.len() && frames[index] is Close,
    decreases frames.len() - from,
{
    if from < frames.len() {
        lemma_close_found(frames, from + 1);
    }
}

/// A packet with a close is never acknowledged by it: the close bypasses everything else.
pub proof fn close_bypasses_delivery(plan: &ReceivePlan, closing: bool, frames: Seq<ReceivedFrame>, index: int)
    requires
        plan.is_for(closing, frames),
        0 <= index < frames.len() <= usize::MAX,
        frames[index] is Close,
    ensures
        !plan.counts,
        plan.dispatch@.len() == 1,
        frames[plan.dispatch@[0] as int] is Close,
{
    lemma_close_exists(frames, 0, index);
    lemma_close_found(frames, 0);
}

proof fn lemma_close_exists(frames: Seq<ReceivedFrame>, from: int, index: int)
    requires
        0 <= from <= index < frames.len(),
        frames[index] is Close,
    ensures
        first_close(frames, from) is Some,
    decreases index - from,
{
    if from < index {
        lemma_close_exists(frames, from + 1, index);
    }
}

/// Every frame has one owner, and only padding and pings have none: acknowledgements of 1-RTT data go to the
/// journal of what was sent, those of the handshake and what extensions bring go to its driver, and CRYPTO
/// data goes to the stream of the space it came in.
pub proof fn frames_reach_their_owners(epoch: Epoch, frame: ReceivedFrame)
    ensures
        target_of(epoch, frame) is Nobody <==> frame is Padding || frame is Ping,
        target_of(epoch, frame) is Acknowledgement <==> frame is Ack && epoch is Data,
        target_of(epoch, frame) is CryptoStream <==> frame is Crypto,
        frame is Crypto ==> target_of(epoch, frame) == FrameTarget::CryptoStream(epoch),
        target_of(epoch, frame) is Streams <==> frame is Stream || frame is StreamCtl,
        target_of(epoch, frame) is SendFlow <==> frame is MaxData,
        target_of(epoch, frame) is ReceiveFlow <==> frame is DataBlocked,
        target_of(epoch, frame) is RemoteCids <==> frame is NewConnectionId,
        target_of(epoch, frame) is LocalCids <==> frame is RetireConnectionId,
        target_of(epoch, frame) is Tokens <==> frame is NewToken,
        target_of(epoch, frame) is Path <==> frame is PathChallenge || frame is PathResponse,
        target_of(epoch, frame) is Close <==> frame is Close,
        target_of(epoch, frame) is Driver <==> frame is Other || (frame is Ack && !(epoch is Data)),
{
}

/// Each type of packet belongs to one space, and each space takes one type; early data is taken by none.
pub proof fn spaces_take_their_packets(packet_type: PacketType)
    ensures
        space_for(packet_type) == Some(Epoch::Initial) <==> packet_type is Initial,
        space_for(packet_type) == Some(Epoch::Handshake) <==> packet_type is Handshake,
        space_for(packet_type) == Some(Epoch::Data) <==> packet_type is OneRtt,
        space_for(packet_type) is None <==> packet_type is ZeroRtt,
{
}

proof fn lemma_deliverable(frames: Seq<ReceivedFrame>)
    requires
        frames.len() <= usize::MAX,
    ensures
        ({
            let places = deliverable(frames);
            &&& forall|k: int|
                #![trigger places[k]]
                0 <= k < places.len() ==> places[k] < frames.len() && !(frames[places[k] as int] is Padding)
            &&& forall|k: int, l: int|
                #![trigger places[k], places[l]]
                0 <= k < l < places.len() ==> places[k] < places[l]
            &&& forall|i: int|
                #![trigger frames[i]]
                0 <= i < frames.len() && !(frames[i] is Padding) ==> places.contains(i as usize)
        }),
    decreases frames.len(),
{
    if frames.len() > 0 {
        let rest = frames.drop_last();
        let earlier = deliverable(rest);
        let places = deliverable(frames);
        lemma_deliverable(rest);
        assert forall|i: int| #![trigger frames[i]] 0 <= i < frames.len() && !(frames[i] is Padding) implies places.contains(
            i as usize,
        ) by {
            if i < rest.len() {
                assert(rest[i] == frames[i]);
                let k = choose|k: int| 0 <= k < earlier.len() && earlier[k] == i as usize;
                assert(places[k] == i as usize);
            } else {
                assert(places[places.len() - 1] == i as usize);
            }
        }
        assert forall|k: int| #![trigger places[k]] 0 <= k < places.len() implies places[k] < frames.len() && !(
        frames[places[k] as int] is Padding) by {
            if k < earlier.len() {
                assert(places[k] == earlier[k]);
                assert(rest[earlier[k] as int] == frames[earlier[k] as int]);
            }
        }
    }
}

proof fn lemma_no_close(frames: Seq<ReceivedFrame>, from: int)
    requires
        0 <= from,
        first_close(frames, from) is None,
    ensures
        forall|i: int| #![trigger frames[i]] from <= i < frames.len() ==> !(frames[i] is Close),
    decreases frames.len() - from,
{
    if from < frames.len() {
        lemma_no_close(frames, from + 1);
    }
}

proof fn lemma_close_is_first(frames: Seq<ReceivedFrame>, from: int)
    requires
        0 <= from,
    ensures
        first_close(frames, from) matches Some(index) ==> forall|i: int|
            #![trigger frames[i]]
            from <= i < index ==> !(frames[i] is Close),
    decreases frames.len() - from,
{
    if from < frames.len() {
        lemma_close_is_first(frames, from + 1);
    }
}

/// Where no close is among them and the connection is not closing, the frames of a packet are handed on once
/// each and in order, all but the padding, and the packet counts. A close is handed on alone, and the first
/// of several; its packet does not count.
pub proof fn each_frame_is_handed_on_once(plan: &ReceivePlan, closing: bool, frames: Seq<ReceivedFrame>)
    requires
        plan.is_for(closing, frames),
        frames.len() <= usize::MAX,
    ensures
        plan.counts <==> !closing && forall|i: int|
            #![trigger frames[i]]
            0 <= i < frames.len() ==> !(frames[i] is Close),
        forall|k: int|
            #![trigger plan.dispatch@[k]]
            0 <= k < plan.dispatch@.len() ==> plan.dispatch@[k] < frames.len(),
        forall|k: int, l: int|
            #![trigger plan.dispatch@[k], plan.dispatch@[l]]
            0 <= k < l < plan.dispatch@.len() ==> plan.dispatch@[k] < plan.dispatch@[l],
        forall|i: int|
            #![trigger frames[i]]
            0 <= i < frames.len() ==> (plan.dispatch@.contains(i as usize) <==> if plan.counts {
                !(frames[i] is Padding)
            } else {
                frames[i] is Close && forall|j: int| #![trigger frames[j]] 0 <= j < i ==> !(frames[j] is Close)
            }),
{
    let dispatch = plan.dispatch@;
    lemma_deliverable(frames);
    lemma_close_found(frames, 0);
    lemma_close_is_first(frames, 0);
    if first_close(frames, 0) is None {
        lemma_no_close(frames, 0);
    } else {
        let index = first_close(frames, 0)->Some_0;
        assert(frames[index] is Close);
        assert(dispatch[0] == index as usize);
    }
    assert forall|i: int| #![trigger frames[i]] 0 <= i < frames.len() implies (dispatch.contains(i as usize)
        <==> if plan.counts {
        !(frames[i] is Padding)
    } else {
        frames[i] is Close && forall|j: int| #![trigger frames[j]] 0 <= j < i ==> !(frames[j] is Close)
    }) by {
        if dispatch.contains(i as usize) {
            let k = choose|k: int| 0 <= k < dispatch.len() && dispatch[k] == i as usize;
            assert(frames[dispatch[k] as int] == frames[i]);
        }
        if let Some(index) = first_close(frames, 0) {
            if i > index {
                assert(frames[index] is Close);
            }
            if i < index {
                assert(!(frames[i] is Close));
            }
        }
    }
}

proof fn lemma_total_content(frames: Seq<ReceivedFrame>)
    ensures
        total_content(frames) is EffectivePayload <==> exists|i: int|
            #![trigger frames[i]]
            0 <= i < frames.len() && content_of(frames[i]) is EffectivePayload,
        total_content(frames).elicits() <==> exists|i: int|
            #![trigger frames[i]]
            0 <= i < frames.len() && content_of(frames[i]).elicits(),
    decreases frames.len(),
{
    if frames.len() > 0 {
        let rest = frames.drop_last();
        let last = frames.len() - 1;
        lemma_total_content(rest);
        assert forall|i: int| #![trigger frames[i]] 0 <= i < last implies frames[i] == rest[i] by {}
        assert forall|i: int| #![trigger rest[i]] 0 <= i < last implies frames[i] == rest[i] by {}
        assert(frames[last] == frames.last());
    }
}

/// A packet that counts asks for an acknowledgement exactly if one of its frames does, and is more than a
/// ping exactly if one of these is none. All frames ask for one but padding, acknowledgements, closes and what
/// an extension says does not.
pub proof fn packet_asks_what_its_frames_ask(plan: &ReceivePlan, closing: bool, frames: Seq<ReceivedFrame>)
    requires
        plan.is_for(closing, frames),
        plan.counts,
    ensures
        plan.content is NonAckEliciting <==> forall|i: int|
            #![trigger frames[i]]
            0 <= i < frames.len() ==> frames[i] is Padding || frames[i] is Ack || frames[i] is Close || frames[i] == (
            ReceivedFrame::Other { ack_eliciting: false }),
        plan.content is EffectivePayload <==> exists|i: int|
            #![trigger frames[i]]
            0 <= i < frames.len() && !(frames[i] is Padding || frames[i] is Ack || frames[i] is Close || frames[i]
                is Ping || frames[i] == (ReceivedFrame::Other { ack_eliciting: false })),
{
    lemma_total_content(frames);
    assert forall|i: int| #![trigger frames[i]] 0 <= i < frames.len() implies {
        let quiet = frames[i] is Padding || frames[i] is Ack || frames[i] is Close || frames[i] == (
        ReceivedFrame::Other { ack_eliciting: false });
        &&& content_of(frames[i]).elicits() <==> !quiet
        &&& content_of(frames[i]) is EffectivePayload <==> !quiet && !(frames[i] is Ping)
    } by {}
}

/// The frames of a packet are refused exactly if a CRYPTO frame among them reaches beyond the largest offset
/// that can be told, or if something follows them that is no frame.
pub proof fn frames_are_refused_if_one_is_wrong(frames: Seq<ReceivedFrame>, malformed: Option<Seq<char>>)
    ensures
        reading_fault(frames, malformed) is None <==> malformed is None && forall|i: int|
            #![trigger frames[i]]
            0 <= i < frames.len() ==> match frames[i] {
                ReceivedFrame::Crypto { offset, len } => offset + len < 0x4000_0000_0000_0000,
                _ => true,
            },
{
    lemma_first_fault(frames);
}

proof fn lemma_first_fault(frames: Seq<ReceivedFrame>)
    ensures
        first_fault(frames) is None <==> forall|i: int|
            #![trigger frames[i]]
            0 <= i < frames.len() ==> frame_fault(frames[i]) is None,
    decreases frames.len(),
{
    if frames.len() > 0 {
        let rest = frames.drop_last();
        lemma_first_fault(rest);
        assert forall|i: int| #![trigger frames[i]] 0 <= i < frames.len() - 1 implies frames[i] == rest[i] by {}
        assert forall|i: int| #![trigger rest[i]] 0 <= i < rest.len() implies frames[i] == rest[i] by {}
        assert(frames[frames.len() - 1] == frames.last());
    }
}

/// A frame of a plan is handed to its owner, unless the packet counts and the connection began to close
/// meanwhile; a close is handed on even then, and lets the connection close.
pub proof fn planned_frame_is_handed_to_its_owner(
    plan: &ReceivePlan,
    epoch: Epoch,
    frames: Seq<ReceivedFrame>,
    place: int,
    closing: bool,
    closing_after: bool,
    step: DeliveryStep,
)
    requires
        plan.steps(epoch, frames, place, closing, closing_after, step),
        plan.names_frames(frames.len()),
        0 <= place,
    ensures
        step is Done <==> place >= plan.dispatch@.len(),
        step is BreakOff <==> place < plan.dispatch@.len() && plan.counts && closing,
        step matches DeliveryStep::Deliver { index, target } ==> index == plan.dispatch@[place] && target == target_of(
            epoch,
            frames[index as int],
        ) && (closing_after <==> closing || frames[index as int] is Close),
        !(step is Deliver) ==> closing_after == closing,
{
}

/// A packet is recorded as received, so that it can be acknowledged, exactly if all its frames were taken and
/// it counts. What was received before stays recorded unless it is retired, and nothing else is recorded.
/// Congestion control and the sender of the path hear of no other packet.
pub proof fn packet_is_recorded_if_all_was_taken(
    plan: &ReceivePlan,
    dispatched: Dispatched,
    pn: u64,
    before: ArcRcvdJournal,
    now: u64,
    after: ArcRcvdJournal,
    result: Result<Concluded, QuicError>,
    other: int,
)
    requires
        plan.concludes(dispatched, pn, before, now, after, result),
        before.wf(),
    ensures
        plan.counts && dispatched is All ==> after.packets.has(pn as int) || pn < after.packets.retired_before,
        !(plan.counts && dispatched is All) ==> after == before,
        before.packets.has(other) ==> after.packets.has(other) || other < after.packets.retired_before,
        after.packets.has(other) ==> before.packets.has(other) || other == pn,
        match result {
            Ok(concluded) => {
                &&& !(dispatched is Failed)
                &&& concluded.counted <==> plan.counts && dispatched is All
                &&& concluded.counted ==> concluded.content == plan.content && concluded.wake
                    == Signals::only_transport()
                &&& !concluded.counted ==> concluded.content is NonAckEliciting && concluded.wake == Signals::none()
            },
            Err(error) => dispatched == Dispatched::Failed(error),
        },
{
    if before.packets.inserted(&after.packets, pn, now) {
        lemma_insertion(before.packets, after.packets, pn, now, pn as int);
        lemma_insertion(before.packets, after.packets, pn, now, other);
    }
}

} // verus!
