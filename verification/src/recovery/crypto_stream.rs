//! The reliable transmission of the CRYPTO stream. Tasks that wait go by numbers of the caller's, and
//! are returned to be woken.
use vstd::prelude::*;

use crate::base::error::{ErrorKind, QuicError};
use crate::base::signals::Signals;
use crate::base::varint::{varint_size, VARINT_MAX};
use crate::recovery::stream_buf::{
    first_sendable, frame_fits, marked, next_run, runs, Piece, RecvBuf, SendBuf, Transit,
};

verus! {

/// How far beyond what was read data may lie.
pub const MAX_REASSEMBLY: u64 = 256 * 1024;

/// How many pieces may wait to be read.
pub const MAX_SEGMENTS: usize = 1024;

/// Why writing or flushing fails.
#[derive(Debug)]
pub enum WriteFault {
    /// The stream would become longer than it may.
    TooLong,
    /// There is no graceful shutdown.
    Unsupported,
    Failed(QuicError),
}

/// Tasks that are woken.
#[derive(Clone, Copy, Debug, PartialEq, Eq, Structural)]
pub struct Woken {
    pub writer: Option<u64>,
    pub flusher: Option<u64>,
}

/// Whether a task may wait where another may wait already.
pub open spec fn may_wait(waiting: Option<u64>, task: u64) -> bool {
    waiting is None || waiting == Some(task)
}

/// The sending half while it works.
#[derive(Debug)]
pub struct Sender {
    pub sndbuf: SendBuf,
    pub writable_waker: Option<u64>,
    pub flush_waker: Option<u64>,
}

impl Sender {
    pub open spec fn wf(&self) -> bool {
        self.sndbuf.wf()
    }

    fn on_data_acked(&mut self, start: u64, end: u64) -> (woken: Woken)
        requires
            old(self).wf(),
        ensures
            final(self).wf(),
            final(self).sndbuf.capacity == old(self).sndbuf.capacity,
            final(self).sndbuf.data == old(self).sndbuf.data,
            final(self).sndbuf.states@ == marked(old(self).sndbuf.states@, start as int, end as int, Transit::Rcvd),
            ({
                let room = !final(self).sndbuf.full();
                let done = final(self).sndbuf.all_rcvd();
                &&& woken.writer == if room { old(self).writable_waker } else { None }
                &&& woken.flusher == if done { old(self).flush_waker } else { None }
                &&& final(self).writable_waker == if room { None } else { old(self).writable_waker }
                &&& final(self).flush_waker == if done { None } else { old(self).flush_waker }
            }),
    {
        self.sndbuf.on_data_acked(start, end);
        let mut woken = Woken { writer: None, flusher: None };
        if !self.sndbuf.is_full() {
            woken.writer = self.writable_waker;
            self.writable_waker = None;
        }
        if self.sndbuf.is_all_rcvd() {
            woken.flusher = self.flush_waker;
            self.flush_waker = None;
        }
        woken
    }
}

/// The sending half: it works, or has failed for good.
#[derive(Debug)]
pub enum ArcSender {
    Working(Sender),
    Failed(QuicError),
}

impl ArcSender {
    pub open spec fn wf(&self) -> bool {
        *self matches ArcSender::Working(sender) ==> sender.wf()
    }

    pub open spec fn buffer(&self) -> SendBuf {
        self->Working_0.sndbuf
    }

    /// A sender that keeps as much as a stream can ever hold.
    pub fn new() -> (sender: ArcSender)
        ensures
            sender.wf(),
            sender matches ArcSender::Working(working) && working.sndbuf.data@.len() == 0
                && working.sndbuf.capacity == VARINT_MAX && working.writable_waker is None
                && working.flush_waker is None,
    {
        ArcSender::with_capacity(VARINT_MAX)
    }

    /// A sender whose buffer is filled by `capacity` bytes that are not acknowledged.
    pub fn with_capacity(capacity: u64) -> (sender: ArcSender)
        ensures
            sender.wf(),
            sender matches ArcSender::Working(working) && working.sndbuf.data@.len() == 0
                && working.sndbuf.capacity == capacity && working.writable_waker is None
                && working.flush_waker is None,
    {
        ArcSender::Working(
            Sender { sndbuf: SendBuf::with_capacity(capacity), writable_waker: None, flush_waker: None },
        )
    }

    /// Fails, unless it did before. Returns who is woken, and what senders are told.
    pub fn on_error(&mut self, error: QuicError) -> (told: (Woken, Signals))
        requires
            old(self).wf(),
        ensures
            final(self).wf(),
            match *old(self) {
                ArcSender::Working(sender) => {
                    &&& *final(self) == ArcSender::Failed(error)
                    &&& told.0 == (Woken { writer: sender.writable_waker, flusher: sender.flush_waker })
                    &&& told.1 == Signals::only_transport()
                },
                ArcSender::Failed(_) => *final(self) == *old(self) && told.0 == (Woken { writer: None, flusher: None })
                    && told.1 == Signals::none(),
            },
    {
        let mut woken = Woken { writer: None, flusher: None };
        match self {
            ArcSender::Working(sender) => {
                woken = Woken { writer: sender.writable_waker, flusher: sender.flush_waker };
            },
            ArcSender::Failed(_) => return (woken, Signals::empty()),
        }
        *self = ArcSender::Failed(error);
        (woken, Signals::transport())
    }

    /// Abandons what was not sent, and fails its writer.
    pub fn retire(&mut self) -> (told: (Woken, Signals))
        requires
            old(self).wf(),
        ensures
            final(self).wf(),
            match *old(self) {
                ArcSender::Working(sender) => {
                    &&& *final(self) matches ArcSender::Failed(error) && error.says(
                        ErrorKind::NoError,
                        "CRYPTO sender retired"@,
                    )
                    &&& told.0 == (Woken { writer: sender.writable_waker, flusher: sender.flush_waker })
                    &&& told.1 == Signals::only_transport()
                },
                ArcSender::Failed(_) => *final(self) == *old(self) && told.0 == (Woken { writer: None, flusher: None })
                    && told.1 == Signals::none(),
            },
    {
        self.on_error(QuicError::new(ErrorKind::NoError, "CRYPTO sender retired"))
    }

    /// Writes all of `buf`, unless the stream would become too long. Where the buffer is full and there
    /// is anything to write, nothing is written, and the task waits until the peer acknowledges enough:
    /// `None`. A task must not write while another waits.
    pub fn poll_write(&mut self, task: u64, buf: &[u8]) -> (result: (Result<Option<usize>, WriteFault>, Signals))
        requires
            old(self).wf(),
            *old(self) matches ArcSender::Working(sender) ==> may_wait(sender.writable_waker, task) && may_wait(
                sender.flush_waker,
                task,
            ) && sender.sndbuf.data@.len() + buf@.len() <= usize::MAX,
        ensures
            final(self).wf(),
            match *old(self) {
                ArcSender::Failed(error) => *final(self) == *old(self) && result.1 == Signals::none() && (
                result.0 matches Err(WriteFault::Failed(fault)) && fault == error),
                ArcSender::Working(sender) => if sender.sndbuf.full() && buf@.len() > 0 {
                    &&& result.0 matches Ok(written) && written is None
                    &&& result.1 == Signals::none()
                    &&& *final(self) == ArcSender::Working(Sender { writable_waker: Some(task), ..sender })
                } else if sender.sndbuf.data@.len() + buf@.len() > VARINT_MAX {
                    *final(self) == *old(self) && result.1 == Signals::none() && (result.0 matches Err(fault)
                        && fault is TooLong)
                } else {
                    &&& result.0 matches Ok(Some(count)) && count == buf@.len()
                    &&& result.1 == Signals::only_transport()
                    &&& *final(self) matches ArcSender::Working(after) && after.sndbuf.capacity
                        == sender.sndbuf.capacity && after.sndbuf.data@ == sender.sndbuf.data@ + buf@
                        && after.sndbuf.states@ == sender.sndbuf.states@ + Seq::new(
                        buf@.len(),
                        |i: int| Transit::Pending,
                    ) && after.writable_waker == sender.writable_waker && after.flush_waker == sender.flush_waker
                },
            },
    {
        match self {
            ArcSender::Working(sender) => {
                if buf.len() > 0 && sender.sndbuf.is_full() {
                    sender.writable_waker = Some(task);
                    return (Ok(None), Signals::empty());
                }
                if buf.len() as u64 > VARINT_MAX - sender.sndbuf.written() {
                    return (Err(WriteFault::TooLong), Signals::empty());
                }
                sender.sndbuf.write_bytes(buf);
                (Ok(Some(buf.len())), Signals::transport())
            },
            ArcSender::Failed(error) => (Err(WriteFault::Failed(error.share())), Signals::empty()),
        }
    }

    /// Waits until the peer has everything: `false` while it does not. A task must not flush while
    /// another does.
    pub fn poll_flush(&mut self, task: u64) -> (result: Result<bool, WriteFault>)
        requires
            old(self).wf(),
            *old(self) matches ArcSender::Working(sender) ==> may_wait(sender.flush_waker, task),
        ensures
            final(self).wf(),
            match *old(self) {
                ArcSender::Failed(error) => *final(self) == *old(self) && (result matches Err(WriteFault::Failed(fault))
                    && fault == error),
                ArcSender::Working(sender) => {
                    &&& result matches Ok(done) && done == sender.sndbuf.all_rcvd()
                    &&& *final(self) == ArcSender::Working(
                        Sender {
                            flush_waker: if sender.sndbuf.all_rcvd() {
                                sender.flush_waker
                            } else {
                                Some(task)
                            },
                            ..sender
                        },
                    )
                },
            },
    {
        match self {
            ArcSender::Working(sender) => {
                if sender.sndbuf.is_all_rcvd() {
                    Ok(true)
                } else {
                    sender.flush_waker = Some(task);
                    Ok(false)
                }
            },
            ArcSender::Failed(error) => Err(WriteFault::Failed(error.share())),
        }
    }

    /// There is no graceful shutdown; what was not acknowledged stays.
    pub fn poll_shutdown(&self) -> (fault: WriteFault)
        ensures
            match *self {
                ArcSender::Working(_) => fault is Unsupported,
                ArcSender::Failed(error) => fault matches WriteFault::Failed(cause) && cause == error,
            },
    {
        match self {
            ArcSender::Working(_) => WriteFault::Unsupported,
            ArcSender::Failed(error) => WriteFault::Failed(error.share()),
        }
    }

    /// Takes a range as received by the peer. A writer is woken once the buffer is not full, and who
    /// flushes once the peer has everything; neither waits any more.
    pub fn on_data_acked(&mut self, start: u64, end: u64) -> (woken: Woken)
        requires
            old(self).wf(),
        ensures
            final(self).wf(),
            match *old(self) {
                ArcSender::Working(sender) => {
                    let room = !final(self).buffer().full();
                    let done = final(self).buffer().all_rcvd();
                    &&& *final(self) matches ArcSender::Working(after) && after.sndbuf.capacity
                        == sender.sndbuf.capacity && after.sndbuf.data == sender.sndbuf.data
                        && after.sndbuf.states@ == marked(
                        sender.sndbuf.states@,
                        start as int,
                        end as int,
                        Transit::Rcvd,
                    ) && after.writable_waker == (if room { None } else { sender.writable_waker })
                        && after.flush_waker == (if done { None } else { sender.flush_waker })
                    &&& woken.writer == if room { sender.writable_waker } else { None }
                    &&& woken.flusher == if done { sender.flush_waker } else { None }
                },
                ArcSender::Failed(_) => *final(self) == *old(self) && woken == (Woken { writer: None, flusher: None }),
            },
    {
        match self {
            ArcSender::Working(sender) => sender.on_data_acked(start, end),
            ArcSender::Failed(_) => Woken { writer: None, flusher: None },
        }
    }

    /// Takes what is under way of a range as lost. Returns what senders are told.
    pub fn may_loss_data(&mut self, start: u64, end: u64) -> (told: Signals)
        requires
            old(self).wf(),
        ensures
            final(self).wf(),
            match *old(self) {
                ArcSender::Working(sender) => {
                    &&& told == Signals::only_transport()
                    &&& *final(self) matches ArcSender::Working(after) && after.sndbuf.capacity
                        == sender.sndbuf.capacity && after.sndbuf.data == sender.sndbuf.data
                        && after.writable_waker == sender.writable_waker && after.flush_waker == sender.flush_waker
                        && after.sndbuf.states@.len() == sender.sndbuf.states@.len() && forall|i: int|
                        #![trigger after.sndbuf.states@[i]]
                        0 <= i < sender.sndbuf.states@.len() ==> after.sndbuf.states@[i] == if start <= i < end
                            && sender.sndbuf.states@[i] == Transit::Flighting {
                            Transit::Lost
                        } else {
                            sender.sndbuf.states@[i]
                        }
                },
                ArcSender::Failed(_) => *final(self) == *old(self) && told == Signals::none(),
            },
    {
        match self {
            ArcSender::Working(sender) => {
                sender.sndbuf.may_loss_data(start, end);
                Signals::transport()
            },
            ArcSender::Failed(_) => Signals::empty(),
        }
    }
}

/// The room that a frame with `len` bytes of data at an offset takes.
pub open spec fn frame_len(offset: int, len: int) -> int {
    1 + varint_size(offset) + varint_size(len) + len
}

/// Pieces picked up one after the other: `buffers[i]` and `rooms[i]` are what there was before piece
/// `i`.
pub struct LoadTrace {
    pub buffers: Seq<SendBuf>,
    pub rooms: Seq<int>,
}

/// Whether a piece is the next one of a buffer, for a frame in `room`, and leaves the other buffer.
pub open spec fn picked(before: SendBuf, room: int, piece: Piece, after: SendBuf) -> bool {
    let start = piece.offset as int;
    let end = start + piece.data@.len();
    &&& exists|capacity: int| #[trigger]
        next_run(before.states@, start, end, capacity) && frame_fits(room, start, capacity) && !frame_fits(
            room,
            start,
            capacity + 1,
        )
    &&& piece.data@ == before.data@.subrange(start, end)
    &&& piece.fresh == (before.states@[start] == Transit::Pending)
    &&& after.capacity == before.capacity
    &&& after.data == before.data
    &&& after.states@ == marked(before.states@, start, end, Transit::Flighting)
}

impl LoadTrace {
    /// Whether the pieces are those that were picked up in turn.
    pub open spec fn explains(self, pieces: Seq<Piece>, before: SendBuf, room: int, after: SendBuf) -> bool {
        &&& self.buffers.len() == pieces.len() + 1
        &&& self.rooms.len() == pieces.len() + 1
        &&& self.buffers[0] == before
        &&& self.rooms[0] == room
        &&& self.buffers.last() == after
        &&& forall|i: int|
            #![trigger pieces[i]]
            0 <= i < pieces.len() ==> picked(self.buffers[i], self.rooms[i], pieces[i], self.buffers[i + 1])
                && self.rooms[i + 1] == self.rooms[i] - frame_len(pieces[i].offset as int, pieces[i].data@.len() as int)
    }

    /// What the buffer waits for after the last piece.
    pub open spec fn ends_for(self, signals: Signals) -> bool {
        let buffer = self.buffers.last();
        if buffer.idle() {
            signals == Signals::only_transport()
        } else {
            signals == Signals::only_congestion() && exists|start: int|
                #[trigger] first_sendable(buffer.states@, start) && !frame_fits(self.rooms.last(), start, 1)
        }
    }
}

/// Whether pieces, picked up from a buffer as long as there is anything to send and room for it, leave
/// another buffer; and what it then waits for.
pub open spec fn loaded(
    before: SendBuf,
    room: int,
    pieces: Seq<Piece>,
    after: SendBuf,
    signals: Signals,
) -> bool {
    exists|trace: LoadTrace| #[trigger] trace.explains(pieces, before, room, after) && trace.ends_for(signals)
}

/// The buffer with everything under way taken as lost.
pub open spec fn resent(before: SendBuf, after: SendBuf) -> bool {
    &&& after.capacity == before.capacity
    &&& after.data == before.data
    &&& after.states@ == before.states@.map_values(
        |state: Transit| if state == Transit::Flighting { Transit::Lost } else { state },
    )
}

pub open spec fn pieces_of(result: Result<Vec<Piece>, Signals>) -> Seq<Piece> {
    match result {
        Ok(pieces) => pieces@,
        Err(_) => Seq::empty(),
    }
}

/// Whether filling `room` bytes of a packet from a buffer has this result and leaves another buffer.
pub open spec fn filled(
    before: SendBuf,
    room: int,
    force: bool,
    result: Result<Vec<Piece>, Signals>,
    after: SendBuf,
) -> bool {
    exists|start: SendBuf, signals: Signals|
        {
            &&& #[trigger] loaded(start, room, pieces_of(result), after, signals)
            &&& if force {
                resent(before, start)
            } else {
                start == before
            }
            &&& match result {
                Ok(pieces) => pieces@.len() > 0,
                Err(told) => told == signals,
            }
        }
}

/// How many bytes a piece takes as a frame.
fn piece_len(offset: u64, len: usize) -> (total: usize)
    requires
        frame_len(offset as int, len as int) <= usize::MAX,
    ensures
        total == frame_len(offset as int, len as int),
{
    let offset_size: usize = if offset < 0x40 {
        1
    } else if offset < 0x4000 {
        2
    } else if offset < 0x4000_0000 {
        4
    } else {
        8
    };
    let len_size: usize = if len < 0x40 {
        1
    } else if len < 0x4000 {
        2
    } else if len < 0x4000_0000 {
        4
    } else {
        8
    };
    1 + offset_size + len_size + len
}

proof fn lemma_smaller_fits(room: int, offset: int, len: int, capacity: int)
    requires
        0 <= len <= capacity,
        frame_fits(room, offset, capacity),
    ensures
        frame_len(offset, len) <= room,
{
}

/// The transport's view of the sending half.
#[derive(Debug)]
pub struct CryptoStreamOutgoing {
    pub sender: ArcSender,
}

impl CryptoStreamOutgoing {
    /// Fills `room` bytes of a packet with frames. With `force`, what is under way is sent again.
    /// Fails where there is nothing to be sent or no room, and says what to wait for: nothing, once
    /// the stream has failed.
    pub fn try_load_data_into(&mut self, room: usize, force: bool) -> (result: Result<Vec<Piece>, Signals>)
        requires
            old(self).sender.wf(),
        ensures
            final(self).sender.wf(),
            match old(self).sender {
                ArcSender::Failed(_) => result == Err::<Vec<Piece>, Signals>(Signals::none()) && *final(self) == *old(
                    self,
                ),
                ArcSender::Working(sender) => {
                    &&& final(self).sender matches ArcSender::Working(after) && after.writable_waker
                        == sender.writable_waker && after.flush_waker == sender.flush_waker
                    &&& filled(sender.sndbuf, room as int, force, result, final(self).sender.buffer())
                },
            },
    {
        match &mut self.sender {
            ArcSender::Failed(_) => Err(Signals::empty()),
            ArcSender::Working(sender) => {
                if force {
                    sender.sndbuf.resend_flighting();
                }
                let ghost start = sender.sndbuf;
                let (pieces, signals) = load_all(&mut sender.sndbuf, room);
                if pieces.len() == 0 {
                    assert(pieces@ =~= Seq::empty());
                    let result = Err(signals);
                    assert(loaded(start, room as int, pieces_of(result), sender.sndbuf, signals));
                    result
                } else {
                    let result = Ok(pieces);
                    assert(loaded(start, room as int, pieces_of(result), sender.sndbuf, signals));
                    result
                }
            },
        }
    }
}

/// Picks up pieces as long as there are any to send and room for them.
fn load_all(buffer: &mut SendBuf, room: usize) -> (result: (Vec<Piece>, Signals))
    requires
        old(buffer).wf(),
    ensures
        final(buffer).wf(),
        loaded(*old(buffer), room as int, result.0@, *final(buffer), result.1),
{
    let ghost start = *buffer;
    let mut left: usize = room;
    let mut pieces: Vec<Piece> = Vec::new();
    let ghost mut trace = LoadTrace { buffers: seq![start], rooms: seq![room as int] };
    loop
        invariant
            buffer.wf(),
            trace.explains(pieces@, start, room as int, *buffer),
            trace.rooms.last() == left,
            start == *old(buffer),
        decreases left,
    {
        let ghost before = *buffer;
        match buffer.pick_up(left) {
            Ok(piece) => {
                proof {
                    let capacity = choose|capacity: int| #[trigger]
                        next_run(
                            before.states@,
                            piece.offset as int,
                            piece.offset + piece.data@.len(),
                            capacity,
                        ) && frame_fits(left as int, piece.offset as int, capacity) && !frame_fits(
                            left as int,
                            piece.offset as int,
                            capacity + 1,
                        );
                    lemma_smaller_fits(
                        left as int,
                        piece.offset as int,
                        piece.data@.len() as int,
                        capacity,
                    );
                    assert(picked(before, left as int, piece, *buffer));
                }
                let taken = piece_len(piece.offset, piece.data.len());
                let ghost earlier = trace;
                let ghost shorter = pieces@;
                proof {
                    trace = LoadTrace {
                        buffers: trace.buffers.push(*buffer),
                        rooms: trace.rooms.push(left - taken),
                    };
                }
                let ghost added = piece;
                pieces.push(piece);
                left = left - taken;
                proof {
                    assert forall|i: int| #![trigger pieces@[i]] 0 <= i < pieces@.len() implies picked(
                        trace.buffers[i],
                        trace.rooms[i],
                        pieces@[i],
                        trace.buffers[i + 1],
                    ) && trace.rooms[i + 1] == trace.rooms[i] - frame_len(
                        pieces@[i].offset as int,
                        pieces@[i].data@.len() as int,
                    ) by {
                        if i < shorter.len() {
                            assert(pieces@[i] == shorter[i]);
                        } else {
                            assert(pieces@[i] == added);
                        }
                    }
                }
            },
            Err(signals) => {
                assert(trace.ends_for(signals));
                return (pieces, signals);
            },
        }
    }
}

/// The CRYPTO data of one packet. The first load at the Initial level sends again what is under way.
#[derive(Debug)]
pub struct CryptoStreamPackage {
    pub first_load: bool,
}

impl CryptoStreamPackage {
    pub fn new(initial: bool) -> (package: CryptoStreamPackage)
        ensures
            package.first_load == initial,
    {
        CryptoStreamPackage { first_load: initial }
    }

    /// Loads data into a packet. A load that succeeds is the last that sends again.
    pub fn dump(&mut self, outgoing: &mut CryptoStreamOutgoing, room: usize) -> (result: Result<Vec<Piece>, Signals>)
        requires
            old(outgoing).sender.wf(),
        ensures
            final(outgoing).sender.wf(),
            final(self).first_load == (old(self).first_load && result is Err),
            match old(outgoing).sender {
                ArcSender::Failed(_) => result == Err::<Vec<Piece>, Signals>(Signals::none()) && *final(outgoing)
                    == *old(outgoing),
                ArcSender::Working(sender) => {
                    &&& final(outgoing).sender matches ArcSender::Working(after) && after.writable_waker
                        == sender.writable_waker && after.flush_waker == sender.flush_waker
                    &&& filled(
                        sender.sndbuf,
                        room as int,
                        old(self).first_load,
                        result,
                        final(outgoing).sender.buffer(),
                    )
                },
            },
    {
        let result = outgoing.try_load_data_into(room, self.first_load);
        if result.is_ok() {
            self.first_load = false;
        }
        result
    }
}

/// The receiving half while it works.
#[derive(Debug)]
pub struct Recver {
    pub rcvbuf: RecvBuf,
    pub read_waker: Option<u64>,
}

/// The receiving half: it works, or has failed for good.
#[derive(Debug)]
pub enum ArcRecver {
    Working(Recver),
    Failed(QuicError),
}

/// Whether data would exceed what may wait to be read.
pub open spec fn over_budget(buffer: RecvBuf, end: int) -> bool {
    end > buffer.nread + MAX_REASSEMBLY || runs(buffer.window@) >= MAX_SEGMENTS
}

/// Whether a buffer is another with data at an offset.
pub open spec fn with_data(before: RecvBuf, offset: int, data: Seq<u8>, after: RecvBuf) -> bool {
    &&& after.nread == before.nread
    &&& forall|at: int|
        #![trigger after.held(at)]
        after.held(at) == if at >= before.nread && before.held(at) is None && offset <= at < offset + data.len() {
            Some(data[at - offset])
        } else {
            before.held(at)
        }
}

/// Whether `data` is what a buffer hands out of at most `limit` bytes, and leaves another.
pub open spec fn read_from(before: RecvBuf, limit: int, data: Seq<u8>, after: RecvBuf) -> bool {
    &&& data.len() <= limit
    &&& after.nread == before.nread + data.len()
    &&& forall|i: int| #![trigger data[i]] 0 <= i < data.len() ==> before.held(before.nread + i) == Some(data[i])
    &&& data.len() == limit || before.held(before.nread + data.len()) is None
    &&& forall|at: int| #![trigger after.held(at)] at >= after.nread ==> after.held(at) == before.held(at)
}

impl ArcRecver {
    pub open spec fn wf(&self) -> bool {
        *self matches ArcRecver::Working(recver) ==> recver.rcvbuf.wf()
    }

    pub fn new() -> (recver: ArcRecver)
        ensures
            recver.wf(),
            recver matches ArcRecver::Working(working) && working.rcvbuf.nread == 0 && working.rcvbuf.window@.len() == 0
                && working.read_waker is None,
    {
        ArcRecver::Working(Recver { rcvbuf: RecvBuf::new(), read_waker: None })
    }

    /// Fails, unless it did before. Returns who is woken.
    pub fn on_error(&mut self, error: QuicError) -> (woken: Option<u64>)
        requires
            old(self).wf(),
        ensures
            final(self).wf(),
            match *old(self) {
                ArcRecver::Working(recver) => *final(self) == ArcRecver::Failed(error) && woken == recver.read_waker,
                ArcRecver::Failed(_) => *final(self) == *old(self) && woken is None,
            },
    {
        let mut woken: Option<u64> = None;
        match self {
            ArcRecver::Working(recver) => {
                woken = recver.read_waker;
            },
            ArcRecver::Failed(_) => return None,
        }
        *self = ArcRecver::Failed(error);
        woken
    }

    /// Ends delivery, and fails the reader.
    pub fn retire(&mut self) -> (woken: Option<u64>)
        requires
            old(self).wf(),
        ensures
            final(self).wf(),
            match *old(self) {
                ArcRecver::Working(recver) => woken == recver.read_waker && (*final(self) matches ArcRecver::Failed(error)
                    && error.says(ErrorKind::NoError, "CRYPTO receiver retired"@)),
                ArcRecver::Failed(_) => *final(self) == *old(self) && woken is None,
            },
    {
        self.on_error(QuicError::new(ErrorKind::NoError, "CRYPTO receiver retired"))
    }

    /// Takes the data of a frame. What lies too far ahead is refused, and so is everything while too
    /// many pieces wait. Once the stream has failed, data is ignored. Returns who is woken.
    pub fn recv_frame(&mut self, offset: u64, data: &[u8]) -> (result: Result<Option<u64>, QuicError>)
        requires
            old(self).wf(),
            offset + data@.len() <= VARINT_MAX,
        ensures
            final(self).wf(),
            match *old(self) {
                ArcRecver::Failed(_) => *final(self) == *old(self) && (result matches Ok(woken) && woken is None),
                ArcRecver::Working(recver) => if over_budget(recver.rcvbuf, offset + data@.len()) {
                    *final(self) == *old(self) && (result matches Err(error) && error.says(
                        ErrorKind::CryptoBufferExceeded,
                        "CRYPTO reassembly budget exceeded"@,
                    ))
                } else {
                    &&& *final(self) matches ArcRecver::Working(after) && with_data(
                        recver.rcvbuf,
                        offset as int,
                        data@,
                        after.rcvbuf,
                    ) && ({
                        let readable = after.rcvbuf.held(after.rcvbuf.nread as int) is Some;
                        &&& after.read_waker == if readable { None } else { recver.read_waker }
                        &&& result matches Ok(woken) && woken == if readable { recver.read_waker } else { None }
                    })
                },
            },
    {
        match self {
            ArcRecver::Working(recver) => {
                let end: u64 = offset + data.len() as u64;
                let nread = recver.rcvbuf.nread();
                if end > nread + MAX_REASSEMBLY || recver.rcvbuf.segment_count() >= MAX_SEGMENTS {
                    return Err(
                        QuicError::new(ErrorKind::CryptoBufferExceeded, "CRYPTO reassembly budget exceeded"),
                    );
                }
                recver.rcvbuf.recv(offset, data);
                if recver.rcvbuf.is_readable() {
                    let woken = recver.read_waker;
                    recver.read_waker = None;
                    Ok(woken)
                } else {
                    Ok(None)
                }
            },
            ArcRecver::Failed(_) => Ok(None),
        }
    }

    /// Reads at most `limit` bytes, or waits: `None` where nothing can be read yet. A task must not
    /// read while another does.
    pub fn poll_read(&mut self, task: u64, limit: usize) -> (result: Result<Option<Vec<u8>>, QuicError>)
        requires
            old(self).wf(),
            *old(self) matches ArcRecver::Working(recver) ==> may_wait(recver.read_waker, task),
        ensures
            final(self).wf(),
            match *old(self) {
                ArcRecver::Failed(error) => *final(self) == *old(self) && (result matches Err(cause) && cause == error),
                ArcRecver::Working(recver) => if recver.rcvbuf.held(recver.rcvbuf.nread as int) is Some {
                    &&& *final(self) matches ArcRecver::Working(after) && after.read_waker == recver.read_waker
                        && (result matches Ok(Some(data)) && read_from(
                        recver.rcvbuf,
                        limit as int,
                        data@,
                        after.rcvbuf,
                    ))
                } else {
                    &&& result matches Ok(nothing) && nothing is None
                    &&& *final(self) == ArcRecver::Working(Recver { read_waker: Some(task), ..recver })
                },
            },
    {
        match self {
            ArcRecver::Working(recver) => {
                if recver.rcvbuf.is_readable() {
                    let data = recver.rcvbuf.try_read(limit);
                    Ok(Some(data))
                } else {
                    recver.read_waker = Some(task);
                    Ok(None)
                }
            },
            ArcRecver::Failed(error) => Err(error.share()),
        }
    }
}

/// A CRYPTO stream: its halves fail and are retired by themselves.
#[derive(Debug)]
pub struct CryptoStream {
    pub outgoing: CryptoStreamOutgoing,
    pub recver: ArcRecver,
}

impl CryptoStream {
    pub open spec fn wf(&self) -> bool {
        self.outgoing.sender.wf() && self.recver.wf()
    }

    pub fn new() -> (stream: CryptoStream)
        ensures
            stream.wf(),
            stream.outgoing.sender matches ArcSender::Working(sender) && sender.sndbuf.data@.len() == 0
                && sender.sndbuf.capacity == VARINT_MAX && sender.writable_waker is None && sender.flush_waker is None,
            stream.recver matches ArcRecver::Working(recver) && recver.rcvbuf.nread == 0
                && recver.rcvbuf.window@.len() == 0 && recver.read_waker is None,
    {
        CryptoStream::with_capacity(VARINT_MAX)
    }

    /// A stream whose writer waits while `capacity` bytes or more are not acknowledged.
    pub fn with_capacity(capacity: u64) -> (stream: CryptoStream)
        ensures
            stream.wf(),
            stream.outgoing.sender matches ArcSender::Working(sender) && sender.sndbuf.data@.len() == 0
                && sender.sndbuf.capacity == capacity && sender.writable_waker is None && sender.flush_waker is None,
            stream.recver matches ArcRecver::Working(recver) && recver.rcvbuf.nread == 0
                && recver.rcvbuf.window@.len() == 0 && recver.read_waker is None,
    {
        CryptoStream {
            outgoing: CryptoStreamOutgoing { sender: ArcSender::with_capacity(capacity) },
            recver: ArcRecver::new(),
        }
    }

    /// Fails both halves. The first cause stays. Returns who is woken.
    pub fn on_error(&mut self, error: QuicError) -> (woken: (Woken, Option<u64>))
        requires
            old(self).wf(),
        ensures
            final(self).wf(),
            final(self).outgoing.sender == match old(self).outgoing.sender {
                ArcSender::Working(_) => ArcSender::Failed(error),
                failed => failed,
            },
            final(self).recver == match old(self).recver {
                ArcRecver::Working(_) => ArcRecver::Failed(error),
                failed => failed,
            },
            woken.0 == match old(self).outgoing.sender {
                ArcSender::Working(sender) => Woken { writer: sender.writable_waker, flusher: sender.flush_waker },
                ArcSender::Failed(_) => Woken { writer: None, flusher: None },
            },
            woken.1 == match old(self).recver {
                ArcRecver::Working(recver) => recver.read_waker,
                ArcRecver::Failed(_) => None,
            },
    {
        let (sender, _) = self.outgoing.sender.on_error(error.share());
        let reader = self.recver.on_error(error);
        (sender, reader)
    }
}

/// Whether everything received of a stream is what was written at its place.
pub open spec fn carries(buf: RecvBuf, written: Seq<u8>) -> bool {
    &&& buf.nread <= written.len()
    &&& forall|at: int|
        #![trigger buf.held(at)]
        buf.held(at) is Some ==> at < written.len() && buf.held(at) == Some(written[at])
}

/// Whether a piece of what was written came and nothing was read, or something was read.
pub open spec fn stream_step(written: Seq<u8>, before: RecvBuf, after: RecvBuf, read: Seq<u8>) -> bool {
    ||| exists|offset: int, end: int|
        0 <= offset <= end <= written.len() && #[trigger] with_data(before, offset, written.subrange(offset, end), after)
            && read.len() == 0
    ||| exists|limit: int| #[trigger] read_from(before, limit, read, after)
}

/// What is read, one read after the other.
pub open spec fn read_so_far(reads: Seq<Seq<u8>>) -> Seq<u8>
    decreases reads.len(),
{
    if reads.len() == 0 {
        Seq::empty()
    } else {
        read_so_far(reads.drop_last()) + reads.last()
    }
}

proof fn lemma_step_carries(written: Seq<u8>, before: RecvBuf, after: RecvBuf, read: Seq<u8>)
    requires
        carries(before, written),
        stream_step(written, before, after, read),
    ensures
        carries(after, written),
        after.nread == before.nread + read.len(),
        read == written.subrange(before.nread as int, after.nread as int),
{
    if exists|limit: int| #[trigger] read_from(before, limit, read, after) {
        assert forall|i: int| 0 <= i < read.len() implies before.nread + i < written.len() && read[i]
            == written[before.nread + i] by {
            assert(before.held(before.nread + i) == Some(read[i]));
        }
        if read.len() > 0 {
            assert(read[read.len() - 1] == written[before.nread + read.len() - 1]);
        }
        assert(read =~= written.subrange(before.nread as int, after.nread as int));
        assert forall|at: int| #![trigger after.held(at)] after.held(at) is Some implies at < written.len()
            && after.held(at) == Some(written[at]) by {
            assert(after.held(at) == before.held(at));
        }
    } else {
        let (offset, end) = choose|offset: int, end: int|
            0 <= offset <= end <= written.len() && #[trigger] with_data(
                before,
                offset,
                written.subrange(offset, end),
                after,
            ) && read.len() == 0;
        assert forall|at: int| #![trigger after.held(at)] after.held(at) is Some implies at < written.len()
            && after.held(at) == Some(written[at]) by {
            if after.held(at) != before.held(at) {
                assert(offset <= at < end);
            }
        }
        assert(read =~= written.subrange(before.nread as int, after.nread as int));
    }
}

/// What is read is what was written, from the start and without gaps, in whatever order, how often and
/// in whatever pieces it comes.
pub proof fn reads_give_back_what_was_written(trace: Seq<RecvBuf>, reads: Seq<Seq<u8>>, written: Seq<u8>)
    requires
        trace.len() == reads.len() + 1,
        trace[0].nread == 0,
        trace[0].window@.len() == 0,
        forall|i: int|
            #![trigger reads[i]]
            0 <= i < reads.len() ==> stream_step(written, trace[i], trace[i + 1], reads[i]),
    ensures
        trace.last().nread <= written.len(),
        read_so_far(reads) == written.take(trace.last().nread as int),
        carries(trace.last(), written),
    decreases reads.len(),
{
    if reads.len() == 0 {
        assert(written.take(0) =~= Seq::empty());
    } else {
        let before = trace.drop_last();
        let earlier = reads.drop_last();
        assert forall|i: int|
            #![trigger earlier[i]]
            0 <= i < earlier.len() implies stream_step(written, before[i], before[i + 1], earlier[i]) by {
            assert(earlier[i] == reads[i]);
        }
        reads_give_back_what_was_written(before, earlier, written);
        let last = reads.len() - 1;
        assert(stream_step(written, trace[last], trace[last + 1], reads[last]));
        lemma_step_carries(written, trace[last], trace[last + 1], reads[last]);
        let middle = trace[last].nread as int;
        let end = trace.last().nread as int;
        assert(written.take(middle) + written.subrange(middle, end) =~= written.take(end));
    }
}

/// Whatever the peer sends, no more than the budget waits to be read.
pub proof fn reassembly_is_bounded(before: RecvBuf, end: int)
    requires
        !over_budget(before, end),
    ensures
        end - before.nread <= MAX_REASSEMBLY,
        runs(before.window@) < MAX_SEGMENTS,
{
}

/// Data is refused exactly if it reaches more than 262144 bytes beyond what was read, or if 1024 pieces wait.
pub proof fn budget_is_on_reach_and_pieces(buffer: RecvBuf, end: int)
    ensures
        over_budget(buffer, end) <==> end - buffer.nread > 262144 || runs(buffer.window@) >= 1024,
{
}

/// As many pieces wait as there are places where a byte is held and the one before it is not.
pub proof fn pieces_are_counted_where_they_begin(window: Seq<Option<u8>>, byte: Option<u8>)
    ensures
        runs(Seq::empty()) == 0,
        byte is None ==> runs(window.push(byte)) == runs(window),
        byte is Some && (window.len() == 0 || window.last() is None) ==> runs(window.push(byte)) == runs(window) + 1,
        byte is Some && window.len() > 0 && window.last() is Some ==> runs(window.push(byte)) == runs(window),
{
    let longer = window.push(byte);
    assert(longer.drop_last() =~= window);
    if window.len() > 0 {
        assert(longer[longer.len() - 2] == window.last());
    }
}

/// A frame takes a byte for its type, the encodings of its offset and its length, and its data: it fits exactly
/// where there is room for that.
pub proof fn frame_takes_what_it_fits_in(room: int, offset: int, len: int)
    ensures
        frame_fits(room, offset, len) <==> frame_len(offset, len) <= room,
        0 <= offset < 64 && 0 <= len < 64 ==> frame_len(offset, len) == 3 + len,
{
}

/// Sending again marks what is under way as lost, and nothing else.
pub proof fn sending_again_loses_what_is_under_way(before: SendBuf, after: SendBuf, index: int)
    requires
        resent(before, after),
        0 <= index < before.states@.len(),
    ensures
        after.states@.len() == before.states@.len(),
        after.states@[index] == if before.states@[index] is Flighting {
            Transit::Lost
        } else {
            before.states@[index]
        },
        after.data == before.data && after.capacity == before.capacity,
{
}

/// Every piece that is loaded holds the bytes that were written at its offset, which then are under way; where
/// none of them was sent before, it is told as fresh.
pub proof fn loaded_piece_is_what_was_written(before: SendBuf, room: int, piece: Piece, after: SendBuf, index: int)
    requires
        before.wf(),
        picked(before, room, piece, after),
        0 <= index < piece.data@.len(),
    ensures
        piece.offset + index < before.data@.len(),
        piece.data@[index] == before.data@[piece.offset + index],
        after.states@[piece.offset + index] == Transit::Flighting,
        piece.fresh <==> before.states@[piece.offset + index] == Transit::Pending,
        !piece.fresh <==> before.states@[piece.offset + index] == Transit::Lost,
        frame_len(piece.offset as int, piece.data@.len() as int) <= room,
{
    let start = piece.offset as int;
    let end = start + piece.data@.len();
    let capacity = choose|capacity: int| #[trigger]
        next_run(before.states@, start, end, capacity) && frame_fits(room, start, capacity) && !frame_fits(
            room,
            start,
            capacity + 1,
        );
    assert(before.states@[start + index] == before.states@[start]);
    lemma_smaller_fits(room, start, piece.data@.len() as int, capacity);
}

/// Loading ends exactly where nothing is left to send, or where not even one byte of what is next fits in the
/// room that is left; all that was loaded fits in the room.
pub proof fn loading_ends_where_nothing_fits(
    before: SendBuf,
    room: int,
    pieces: Seq<Piece>,
    after: SendBuf,
    signals: Signals,
)
    requires
        before.wf(),
        loaded(before, room, pieces, after, signals),
    ensures
        signals == Signals::only_transport() || signals == Signals::only_congestion(),
        signals == Signals::only_transport() <==> forall|i: int|
            #![trigger after.states@[i]]
            0 <= i < after.states@.len() ==> after.states@[i] == Transit::Flighting || after.states@[i] == Transit::Rcvd,
        pieces.len() == 0 ==> after == before,
        pieces.len() == 0 && signals == Signals::only_congestion() ==> exists|start: int|
            first_sendable(before.states@, start) && #[trigger] frame_len(start, 1) > room,
{
    let trace = choose|trace: LoadTrace| #[trigger]
        trace.explains(pieces, before, room, after) && trace.ends_for(signals);
    assert(trace.buffers.last() == after);
    if pieces.len() == 0 {
        assert(trace.rooms.last() == room);
        if signals == Signals::only_congestion() {
            let start = choose|start: int| #[trigger]
                first_sendable(after.states@, start) && !frame_fits(trace.rooms.last(), start, 1);
            assert(frame_len(start, 1) > room);
        }
    }
}

} // verus!
