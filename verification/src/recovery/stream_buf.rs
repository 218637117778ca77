//! The two buffers of a byte stream: what was written until it is acknowledged, and what was received
//! until it is read.
use vstd::prelude::*;

use crate::base::signals::Signals;
use crate::base::varint::{varint_size, VARINT_MAX};

verus! {

/// Whether a frame with `len` bytes of data at an offset fits in `room` bytes: one byte for its type,
/// then offset and length, then the data.
pub open spec fn frame_fits(room: int, offset: int, len: int) -> bool {
    1 + varint_size(offset) + varint_size(len) + len <= room
}

/// The most data that a frame at an offset can carry in `room` bytes, if it can carry any.
pub fn data_capacity(room: usize, offset: u64) -> (capacity: Option<usize>)
    ensures
        match capacity {
            Some(capacity) => {
                &&& capacity > 0
                &&& frame_fits(room as int, offset as int, capacity as int)
                &&& !frame_fits(room as int, offset as int, capacity + 1)
            },
            None => !frame_fits(room as int, offset as int, 1),
        },
{
    let fixed: usize = if offset < 0x40 {
        2
    } else if offset < 0x4000 {
        3
    } else if offset < 0x4000_0000 {
        5
    } else {
        9
    };
    if room < fixed + 2 {
        return None;
    }
    let rest: usize = room - fixed;
    let capacity: usize = if rest <= 64 {
        rest - 1
    } else if rest <= 65 {
        63
    } else if rest <= 16385 {
        rest - 2
    } else if rest <= 16387 {
        16383
    } else if rest <= 0x4000_0003 {
        rest - 4
    } else if rest <= 0x4000_0007 {
        0x3fff_ffff
    } else {
        rest - 8
    };
    Some(capacity)
}

/// What became of a written byte.
#[derive(Clone, Copy, Debug, PartialEq, Eq, Structural)]
pub enum Transit {
    /// It was never sent.
    Pending,
    /// It is under way.
    Flighting,
    /// It has to be sent again.
    Lost,
    /// The peer has it.
    Rcvd,
}

pub open spec fn sendable(state: Transit) -> bool {
    state == Transit::Pending || state == Transit::Lost
}

/// Whether `start` is the first byte that is to be sent.
pub open spec fn first_sendable(states: Seq<Transit>, start: int) -> bool {
    &&& 0 <= start < states.len()
    &&& sendable(states[start])
    &&& forall|i: int| #![trigger states[i]] 0 <= i < start ==> !sendable(states[i])
}

/// Whether `start..end` is the run that is sent next: from the first byte that is to be sent, as far
/// as bytes are in the same state and `capacity` goes.
pub open spec fn next_run(states: Seq<Transit>, start: int, end: int, capacity: int) -> bool {
    &&& first_sendable(states, start)
    &&& start < end <= states.len()
    &&& end - start <= capacity
    &&& forall|i: int| #![trigger states[i]] start <= i < end ==> states[i] == states[start]
    &&& end - start == capacity || end == states.len() || states[end] != states[start]
}

/// The states with those of a range replaced.
pub open spec fn marked(states: Seq<Transit>, start: int, end: int, state: Transit) -> Seq<Transit> {
    Seq::new(states.len(), |i: int| if start <= i < end { state } else { states[i] })
}

/// How many bytes at the front the peer has: they need not be kept.
pub open spec fn freed(states: Seq<Transit>) -> nat
    decreases states.len(),
{
    if states.len() > 0 && states[0] == Transit::Rcvd {
        1 + freed(states.drop_first())
    } else {
        0
    }
}

/// What is freed is the longest front of which the peer has every byte.
proof fn lemma_freed(states: Seq<Transit>, count: int)
    requires
        0 <= count <= states.len(),
        forall|i: int| #![trigger states[i]] 0 <= i < count ==> states[i] == Transit::Rcvd,
        count == states.len() || states[count] != Transit::Rcvd,
    ensures
        freed(states) == count,
    decreases states.len(),
{
    if count > 0 {
        assert(states[0] == Transit::Rcvd);
        let rest = states.drop_first();
        assert forall|i: int| #![trigger rest[i]] 0 <= i < count - 1 implies rest[i] == Transit::Rcvd by {
            assert(rest[i] == states[i + 1]);
        }
        if count < states.len() {
            assert(rest[count - 1] == states[count]);
        }
        lemma_freed(rest, count - 1);
    }
}

/// A piece of the stream to be sent.
#[derive(Debug)]
pub struct Piece {
    pub offset: u64,
    pub data: Vec<u8>,
    /// Whether it was never sent before.
    pub fresh: bool,
}

/// What was written.
#[derive(Debug)]
pub struct SendBuf {
    pub data: Vec<u8>,
    pub states: Vec<Transit>,
    /// How many bytes that the peer lacks, or has beyond a gap, fill the buffer.
    pub capacity: u64,
}

impl SendBuf {
    pub open spec fn wf(&self) -> bool {
        self.data@.len() == self.states@.len() && self.data@.len() <= VARINT_MAX
    }

    /// Whether the peer has all that was written.
    pub open spec fn all_rcvd(&self) -> bool {
        forall|i: int| #![trigger self.states@[i]] 0 <= i < self.states@.len() ==> self.states@[i] == Transit::Rcvd
    }

    /// How many bytes are kept: all that was written but for the front that the peer has.
    pub open spec fn kept(&self) -> int {
        self.data@.len() - freed(self.states@)
    }

    /// Whether the buffer takes nothing more until the peer acknowledges what is kept.
    pub open spec fn full(&self) -> bool {
        self.kept() >= self.capacity
    }

    pub fn with_capacity(capacity: u64) -> (buf: SendBuf)
        ensures
            buf.wf(),
            buf.data@.len() == 0,
            buf.capacity == capacity,
    {
        SendBuf { data: Vec::new(), states: Vec::new(), capacity }
    }

    pub fn is_full(&self) -> (full: bool)
        requires
            self.wf(),
        ensures
            full == self.full(),
    {
        let mut front: usize = 0;
        while front < self.states.len() && self.states[front] == Transit::Rcvd
            invariant
                front <= self.states@.len(),
                forall|i: int| #![trigger self.states@[i]] 0 <= i < front ==> self.states@[i] == Transit::Rcvd,
            decreases self.states@.len() - front,
        {
            front = front + 1;
        }
        proof {
            lemma_freed(self.states@, front as int);
        }
        (self.data.len() - front) as u64 >= self.capacity
    }

    pub fn written(&self) -> (written: u64)
        requires
            self.wf(),
        ensures
            written == self.data@.len(),
    {
        self.data.len() as u64
    }

    pub fn write_bytes(&mut self, bytes: &[u8])
        requires
            old(self).wf(),
            old(self).data@.len() + bytes@.len() <= VARINT_MAX,
            old(self).data@.len() + bytes@.len() <= usize::MAX,
        ensures
            final(self).wf(),
            final(self).capacity == old(self).capacity,
            final(self).data@ == old(self).data@ + bytes@,
            final(self).states@ == old(self).states@ + Seq::new(bytes@.len(), |i: int| Transit::Pending),
    {
        let ghost before = self.states@;
        self.data.extend_from_slice(bytes);
        assert(self.data@ =~= old(self).data@ + bytes@);
        let mut at: usize = 0;
        assert(self.states@ =~= before + Seq::new(0, |i: int| Transit::Pending));
        while at < bytes.len()
            invariant
                at <= bytes@.len(),
                self.states@ == before + Seq::new(at as nat, |i: int| Transit::Pending),
                self.data@ == old(self).data@ + bytes@,
                self.capacity == old(self).capacity,
            decreases bytes@.len() - at,
        {
            self.states.push(Transit::Pending);
            at = at + 1;
            assert(self.states@ =~= before + Seq::new(at as nat, |i: int| Transit::Pending));
        }
    }

    pub fn is_all_rcvd(&self) -> (all: bool)
        requires
            self.wf(),
        ensures
            all == self.all_rcvd(),
    {
        let mut at: usize = 0;
        while at < self.states.len()
            invariant
                at <= self.states@.len(),
                forall|i: int| #![trigger self.states@[i]] 0 <= i < at ==> self.states@[i] == Transit::Rcvd,
            decreases self.states@.len() - at,
        {
            if self.states[at] != Transit::Rcvd {
                assert(self.states@[at as int] != Transit::Rcvd);
                return false;
            }
            at = at + 1;
        }
        true
    }

    /// Takes everything under way as lost.
    pub fn resend_flighting(&mut self)
        requires
            old(self).wf(),
        ensures
            final(self).wf(),
            final(self).capacity == old(self).capacity,
            final(self).data == old(self).data,
            final(self).states@ == old(self).states@.map_values(
                |state: Transit| if state == Transit::Flighting { Transit::Lost } else { state },
            ),
    {
        let ghost before = self.states@;
        let ghost after = before.map_values(
            |state: Transit| if state == Transit::Flighting { Transit::Lost } else { state },
        );
        let mut at: usize = 0;
        while at < self.states.len()
            invariant
                at <= self.states@.len(),
                self.states@.len() == before.len(),
                self.data == old(self).data,
                self.capacity == old(self).capacity,
                before == old(self).states@,
                after == before.map_values(
                    |state: Transit| if state == Transit::Flighting { Transit::Lost } else { state },
                ),
                forall|i: int|
                    #![trigger self.states@[i]]
                    0 <= i < before.len() ==> self.states@[i] == if i < at {
                        after[i]
                    } else {
                        before[i]
                    },
            decreases before.len() - at,
        {
            if self.states[at] == Transit::Flighting {
                self.states.set(at, Transit::Lost);
            }
            at = at + 1;
        }
        assert(self.states@ =~= after);
    }

    /// Takes a range as received by the peer. What lies beyond what was written is ignored.
    pub fn on_data_acked(&mut self, start: u64, end: u64)
        requires
            old(self).wf(),
        ensures
            final(self).wf(),
            final(self).capacity == old(self).capacity,
            final(self).data == old(self).data,
            final(self).states@ == marked(old(self).states@, start as int, end as int, Transit::Rcvd),
    {
        let ghost before = self.states@;
        let mut at: usize = 0;
        while at < self.states.len()
            invariant
                at <= self.states@.len(),
                self.states@.len() == before.len(),
                self.data == old(self).data,
                self.capacity == old(self).capacity,
                before == old(self).states@,
                forall|i: int|
                    #![trigger self.states@[i]]
                    0 <= i < before.len() ==> self.states@[i] == if i < at && start <= i < end {
                        Transit::Rcvd
                    } else {
                        before[i]
                    },
            decreases before.len() - at,
        {
            if start <= at as u64 && (at as u64) < end {
                self.states.set(at, Transit::Rcvd);
            }
            at = at + 1;
        }
        assert(self.states@ =~= marked(before, start as int, end as int, Transit::Rcvd));
    }

    /// Takes what is under way of a range as lost.
    pub fn may_loss_data(&mut self, start: u64, end: u64)
        requires
            old(self).wf(),
        ensures
            final(self).wf(),
            final(self).capacity == old(self).capacity,
            final(self).data == old(self).data,
            final(self).states@.len() == old(self).states@.len(),
            forall|i: int|
                #![trigger final(self).states@[i]]
                0 <= i < old(self).states@.len() ==> final(self).states@[i] == if start <= i < end && old(
                    self,
                ).states@[i] == Transit::Flighting {
                    Transit::Lost
                } else {
                    old(self).states@[i]
                },
    {
        let ghost before = self.states@;
        let mut at: usize = 0;
        while at < self.states.len()
            invariant
                at <= self.states@.len(),
                self.states@.len() == before.len(),
                self.data == old(self).data,
                self.capacity == old(self).capacity,
                before == old(self).states@,
                forall|i: int|
                    #![trigger self.states@[i]]
                    0 <= i < before.len() ==> self.states@[i] == if i < at && start <= i < end && before[i]
                        == Transit::Flighting {
                        Transit::Lost
                    } else {
                        before[i]
                    },
            decreases before.len() - at,
        {
            if start <= at as u64 && (at as u64) < end && self.states[at] == Transit::Flighting {
                self.states.set(at, Transit::Lost);
            }
            at = at + 1;
        }
    }

    /// Whether nothing is to be sent.
    pub open spec fn idle(&self) -> bool {
        forall|i: int| #![trigger self.states@[i]] 0 <= i < self.states@.len() ==> !sendable(self.states@[i])
    }

    /// Takes the next piece to be sent in a frame of at most `room` bytes. Where there is none, says
    /// what to wait for: data, or room.
    pub fn pick_up(&mut self, room: usize) -> (result: Result<Piece, Signals>)
        requires
            old(self).wf(),
        ensures
            final(self).wf(),
            final(self).capacity == old(self).capacity,
            final(self).data == old(self).data,
            match result {
                Ok(piece) => {
                    let start = piece.offset as int;
                    let end = start + piece.data@.len();
                    &&& exists|capacity: int| #[trigger]
                        next_run(old(self).states@, start, end, capacity) && frame_fits(room as int, start, capacity)
                            && !frame_fits(room as int, start, capacity + 1)
                    &&& piece.data@ == old(self).data@.subrange(start, end)
                    &&& piece.fresh == (old(self).states@[start] == Transit::Pending)
                    &&& final(self).states@ == marked(old(self).states@, start, end, Transit::Flighting)
                },
                Err(signals) => {
                    &&& *final(self) == *old(self)
                    &&& if old(self).idle() {
                        signals == Signals::only_transport()
                    } else {
                        signals == Signals::only_congestion() && exists|start: int|
                            #[trigger] first_sendable(old(self).states@, start) && !frame_fits(room as int, start, 1)
                    }
                },
            },
    {
        let ghost before = self.states@;
        let mut start: usize = 0;
        while start < self.states.len() && self.states[start] != Transit::Pending && self.states[start]
            != Transit::Lost
            invariant
                *self == *old(self),
                start <= self.states@.len(),
                forall|i: int| #![trigger self.states@[i]] 0 <= i < start ==> !sendable(self.states@[i]),
            decreases self.states@.len() - start,
        {
            start = start + 1;
        }
        if start == self.states.len() {
            return Err(Signals::transport());
        }
        assert(sendable(self.states@[start as int]));
        assert(first_sendable(self.states@, start as int));
        let capacity = match data_capacity(room, start as u64) {
            Some(capacity) => capacity,
            None => return Err(Signals::congestion()),
        };
        let state = self.states[start];
        let mut data: Vec<u8> = Vec::new();
        let mut end: usize = start;
        let total = self.states.len();
        while end < total && end - start < capacity && self.states[end] == state
            invariant
                start <= end <= total,
                total == before.len(),
                before == old(self).states@,
                self.states@.len() == before.len(),
                self.data == old(self).data,
                self.capacity == old(self).capacity,
                old(self).wf(),
                end - start <= capacity,
                data@ == self.data@.subrange(start as int, end as int),
                forall|i: int| #![trigger before[i]] start <= i < end ==> before[i] == state,
                forall|i: int|
                    #![trigger self.states@[i]]
                    0 <= i < before.len() ==> self.states@[i] == if start <= i < end {
                        Transit::Flighting
                    } else {
                        before[i]
                    },
            decreases total - end,
        {
            assert(before[end as int] == state);
            data.push(self.data[end]);
            self.states.set(end, Transit::Flighting);
            end = end + 1;
            assert(data@ =~= self.data@.subrange(start as int, end as int));
        }
        proof {
            assert(before[start as int] == state);
            assert(end > start) by {
                if end == start {
                    assert(self.states@[start as int] == before[start as int]);
                }
            }
            if end < total && end - start < capacity {
                assert(self.states@[end as int] == before[end as int]);
            }
            assert(next_run(before, start as int, end as int, capacity as int));
            assert(self.states@ =~= marked(before, start as int, end as int, Transit::Flighting));
        }
        Ok(Piece { offset: start as u64, data, fresh: state == Transit::Pending })
    }
}

/// How many runs of held bytes there are.
pub open spec fn runs(window: Seq<Option<u8>>) -> nat
    decreases window.len(),
{
    if window.len() == 0 {
        0
    } else {
        runs(window.drop_last()) + if window.last() is Some && (window.len() == 1 || window[window.len() - 2] is None) {
            1nat
        } else {
            0
        }
    }
}

/// What was received and not read yet: `window[k]` is the byte at `nread + k`, if it has come.
#[derive(Debug)]
pub struct RecvBuf {
    pub nread: u64,
    pub window: Vec<Option<u8>>,
}

impl RecvBuf {
    pub open spec fn wf(&self) -> bool {
        self.nread + self.window@.len() <= VARINT_MAX
    }

    /// The byte at an offset, if it has come and was not read.
    pub open spec fn held(&self, offset: int) -> Option<u8> {
        if self.nread <= offset < self.nread + self.window@.len() {
            self.window@[offset - self.nread]
        } else {
            None
        }
    }

    pub fn new() -> (buf: RecvBuf)
        ensures
            buf.wf(),
            buf.nread == 0,
            buf.window@.len() == 0,
    {
        RecvBuf { nread: 0, window: Vec::new() }
    }

    pub fn nread(&self) -> (nread: u64)
        ensures
            nread == self.nread,
    {
        self.nread
    }

    /// Takes data at an offset. Of a byte that was read or has come already, the first stays.
    pub fn recv(&mut self, offset: u64, data: &[u8])
        requires
            old(self).wf(),
            offset + data@.len() <= VARINT_MAX,
            offset + data@.len() - old(self).nread <= usize::MAX,
        ensures
            final(self).wf(),
            final(self).nread == old(self).nread,
            forall|at: int|
                #![trigger final(self).held(at)]
                final(self).held(at) == if at >= old(self).nread && old(self).held(at) is None && offset <= at < offset
                    + data@.len() {
                    Some(data@[at - offset])
                } else {
                    old(self).held(at)
                },
    {
        let ghost before = *self;
        let mut at: usize = 0;
        while at < data.len()
            invariant
                at <= data@.len(),
                before == *old(self),
                before.wf(),
                self.wf(),
                self.nread == before.nread,
                offset + data@.len() <= VARINT_MAX,
                offset + data@.len() - before.nread <= usize::MAX,
                forall|p: int|
                    #![trigger self.held(p)]
                    self.held(p) == if p >= before.nread && before.held(p) is None && offset <= p < offset + at {
                        Some(data@[p - offset])
                    } else {
                        before.held(p)
                    },
            decreases data@.len() - at,
        {
            let place: u64 = offset + at as u64;
            let ghost current = *self;
            if place >= self.nread {
                let index: usize = (place - self.nread) as usize;
                while self.window.len() <= index
                    invariant
                        current.wf(),
                        self.wf(),
                        self.nread == current.nread,
                        index == place - self.nread,
                        place < VARINT_MAX,
                        forall|p: int| #![trigger self.held(p)] self.held(p) == current.held(p),
                    decreases index + 1 - self.window@.len(),
                {
                    let ghost shorter = *self;
                    self.window.push(None);
                    assert forall|p: int| #![trigger self.held(p)] self.held(p) == current.held(p) by {
                        assert(shorter.held(p) == current.held(p));
                    }
                }
                let ghost longer = *self;
                if self.window[index].is_none() {
                    self.window.set(index, Some(data[at]));
                }
                assert forall|p: int|
                    #![trigger self.held(p)]
                    self.held(p) == if p >= before.nread && before.held(p) is None && offset <= p < offset + at + 1 {
                        Some(data@[p - offset])
                    } else {
                        before.held(p)
                    } by {
                    assert(longer.held(p) == current.held(p));
                    assert(current.held(place as int) == longer.held(place as int));
                }
            } else {
                assert forall|p: int|
                    #![trigger self.held(p)]
                    self.held(p) == if p >= before.nread && before.held(p) is None && offset <= p < offset + at + 1 {
                        Some(data@[p - offset])
                    } else {
                        before.held(p)
                    } by {
                    assert(current.held(p) == self.held(p));
                }
            }
            at = at + 1;
        }
    }

    /// How many pieces wait to be read.
    pub fn segment_count(&self) -> (count: usize)
        ensures
            count == runs(self.window@),
    {
        let mut count: usize = 0;
        let mut at: usize = 0;
        assert(self.window@.take(0) =~= Seq::empty());
        while at < self.window.len()
            invariant
                at <= self.window@.len(),
                count <= at,
                count == runs(self.window@.take(at as int)),
            decreases self.window@.len() - at,
        {
            proof {
                let longer = self.window@.take(at as int + 1);
                assert(longer.drop_last() =~= self.window@.take(at as int));
                assert(longer.last() == self.window@[at as int]);
                if at > 0 {
                    assert(longer[longer.len() - 2] == self.window@[at - 1]);
                }
            }
            if self.window[at].is_some() && (at == 0 || self.window[at - 1].is_none()) {
                count = count + 1;
            }
            at = at + 1;
        }
        assert(self.window@.take(self.window@.len() as int) =~= self.window@);
        count
    }

    pub fn is_readable(&self) -> (readable: bool)
        ensures
            readable == self.held(self.nread as int) is Some,
    {
        self.window.len() > 0 && self.window[0].is_some()
    }

    /// Reads at most `limit` bytes that have come without a gap.
    pub fn try_read(&mut self, limit: usize) -> (data: Vec<u8>)
        requires
            old(self).wf(),
        ensures
            final(self).wf(),
            data@.len() <= limit,
            final(self).nread == old(self).nread + data@.len(),
            forall|i: int|
                #![trigger data@[i]]
                0 <= i < data@.len() ==> old(self).held(old(self).nread + i) == Some(data@[i]),
            data@.len() == limit || old(self).held(old(self).nread + data@.len()) is None,
            forall|at: int|
                #![trigger final(self).held(at)]
                final(self).held(at) == if at >= final(self).nread {
                    old(self).held(at)
                } else {
                    None
                },
    {
        let ghost before = *self;
        let mut data: Vec<u8> = Vec::new();
        let mut at: usize = 0;
        let mut open: bool = true;
        while open && at < limit && at < self.window.len()
            invariant
                *self == before,
                before == *old(self),
                at <= self.window@.len(),
                at <= limit,
                data@.len() == at,
                forall|i: int|
                    #![trigger data@[i]]
                    0 <= i < at ==> before.held(before.nread + i) == Some(data@[i]),
                !open ==> at < self.window@.len() && self.window@[at as int] is None,
            decreases self.window@.len() - at, open as int,
        {
            match self.window[at] {
                Some(byte) => {
                    data.push(byte);
                    assert(before.held(before.nread + at) == Some(byte));
                    at = at + 1;
                },
                None => {
                    open = false;
                },
            }
        }
        let rest = self.window.split_off(at);
        self.window = rest;
        self.nread = self.nread + at as u64;
        assert forall|p: int| #![trigger self.held(p)] self.held(p) == if p >= self.nread {
            before.held(p)
        } else {
            None
        } by {
            if self.nread <= p < self.nread + self.window@.len() {
                assert(self.window@[p - self.nread] == before.window@[p - before.nread]);
            }
        }
        data
    }
}

/// Whether one of the operations on what was written turns the states into others: a piece is taken
/// up, a range is acknowledged, a range is lost, or all that is under way is sent again.
pub open spec fn moves(before: Seq<Transit>, after: Seq<Transit>) -> bool {
    ||| exists|start: int, end: int, capacity: int|
        #[trigger] next_run(before, start, end, capacity) && after == marked(before, start, end, Transit::Flighting)
    ||| exists|start: int, end: int| after == #[trigger] marked(before, start, end, Transit::Rcvd)
    ||| after.len() == before.len() && forall|i: int|
        #![trigger after[i]]
        0 <= i < before.len() ==> after[i] == before[i] || (before[i] == Transit::Flighting && after[i]
            == Transit::Lost)
}

/// What the peer has acknowledged stays acknowledged, and no byte is forgotten: one that was never sent
/// is not taken as lost, and one that was lost is not taken as never sent.
pub proof fn written_bytes_are_accounted_for(before: Seq<Transit>, after: Seq<Transit>, index: int)
    requires
        moves(before, after),
        0 <= index < before.len(),
    ensures
        after.len() == before.len(),
        before[index] == Transit::Rcvd ==> after[index] == Transit::Rcvd,
        before[index] == Transit::Pending ==> after[index] != Transit::Lost,
        before[index] != Transit::Pending ==> after[index] != Transit::Pending,
{
    if exists|start: int, end: int, capacity: int|
        #[trigger] next_run(before, start, end, capacity) && after == marked(before, start, end, Transit::Flighting) {
        let (start, end, capacity) = choose|start: int, end: int, capacity: int|
            #[trigger] next_run(before, start, end, capacity) && after == marked(
                before,
                start,
                end,
                Transit::Flighting,
            );
        if start <= index < end {
            assert(before[index] == before[start]);
        }
    } else if exists|start: int, end: int| after == #[trigger] marked(before, start, end, Transit::Rcvd) {
    } else {
        assert(after[index] == before[index] || after[index] == Transit::Lost);
    }
}

proof fn lemma_acked_front_grows(states: Seq<Transit>, start: int, end: int)
    ensures
        freed(marked(states, start, end, Transit::Rcvd)) >= freed(states),
        start <= 0 && states.len() <= end ==> freed(marked(states, start, end, Transit::Rcvd)) == states.len(),
    decreases states.len(),
{
    let after = marked(states, start, end, Transit::Rcvd);
    if states.len() > 0 {
        lemma_acked_front_grows(states.drop_first(), start - 1, end - 1);
        assert(after.drop_first() =~= marked(states.drop_first(), start - 1, end - 1, Transit::Rcvd));
    }
}

/// An acknowledgement never fills the buffer, and one of all that was written empties it.
pub proof fn acknowledgement_makes_room(before: SendBuf, after: SendBuf, start: int, end: int)
    requires
        before.wf(),
        after.wf(),
        after.capacity == before.capacity,
        after.data == before.data,
        after.states@ == marked(before.states@, start, end, Transit::Rcvd),
    ensures
        after.kept() <= before.kept(),
        !before.full() ==> !after.full(),
        start <= 0 && before.data@.len() <= end ==> after.kept() == 0,
        start <= 0 && before.data@.len() <= end && after.capacity > 0 ==> !after.full(),
{
    lemma_acked_front_grows(before.states@, start, end);
}

/// A byte that the peer has is not sent again.
pub proof fn received_byte_is_not_resent(states: Seq<Transit>, start: int, end: int, capacity: int, index: int)
    requires
        next_run(states, start, end, capacity),
        0 <= index < states.len(),
        states[index] == Transit::Rcvd,
    ensures
        !(start <= index < end),
{
    if start <= index < end {
        assert(states[index] == states[start]);
    }
}

/// What was never sent and what was lost is sent next, from its first byte on: whatever stands before that is
/// under way or has arrived. Nothing is left to send exactly if all is under way or has arrived.
pub proof fn lost_and_unsent_bytes_are_sent(buf: SendBuf, start: int, end: int, capacity: int, index: int)
    requires
        buf.wf(),
        next_run(buf.states@, start, end, capacity),
        0 <= index < buf.states@.len(),
    ensures
        start <= index < end ==> buf.states@[index] == Transit::Pending || buf.states@[index] == Transit::Lost,
        start <= index < end ==> marked(buf.states@, start, end, Transit::Flighting)[index] == Transit::Flighting,
        index < start ==> buf.states@[index] == Transit::Flighting || buf.states@[index] == Transit::Rcvd,
        !(start <= index < end) ==> marked(buf.states@, start, end, Transit::Flighting)[index] == buf.states@[index],
        start < end,
        !buf.idle(),
{
    assert(buf.states@[start] == Transit::Pending || buf.states@[start] == Transit::Lost);
    if start <= index < end {
        assert(buf.states@[index] == buf.states@[start]);
    }
}

/// Nothing is left to send exactly if all that was written is under way or has arrived.
pub proof fn idle_buffer_has_nothing_to_send(buf: SendBuf)
    ensures
        buf.idle() <==> forall|i: int|
            #![trigger buf.states@[i]]
            0 <= i < buf.states@.len() ==> buf.states@[i] == Transit::Flighting || buf.states@[i] == Transit::Rcvd,
{
}

/// The buffer keeps all that was written but the front that has arrived, up to the first byte that has not; it
/// is full exactly if that is as much as it may keep.
pub proof fn arrived_front_is_freed(buf: SendBuf, count: int)
    requires
        buf.wf(),
        0 <= count <= buf.states@.len(),
        forall|i: int| #![trigger buf.states@[i]] 0 <= i < count ==> buf.states@[i] == Transit::Rcvd,
        count == buf.states@.len() || buf.states@[count] != Transit::Rcvd,
    ensures
        buf.kept() == buf.data@.len() - count,
        buf.full() <==> buf.data@.len() - count >= buf.capacity,
{
    lemma_freed(buf.states@, count);
}

/// A frame has a byte for its type, the shortest encodings of offset and length, and the data.
pub proof fn frame_fits_with_its_header(room: int, offset: u64, len: u64)
    requires
        offset <= VARINT_MAX,
        len <= VARINT_MAX,
    ensures
        offset < 64 && len < 64 ==> (frame_fits(room, offset as int, len as int) <==> len + 3 <= room),
        offset >= 64 * 256 * 256 * 256 && len >= 64 * 256 * 256 * 256 ==> (frame_fits(room, offset as int, len as int)
            <==> len + 17 <= room),
        frame_fits(room, offset as int, len as int) ==> frame_fits(room + 1, offset as int, len as int),
        len > 0 && frame_fits(room, offset as int, len as int) ==> frame_fits(room, offset as int, len - 1),
        frame_fits(room, offset as int, len as int) ==> len + 3 <= room,
{
}

/// As much is sent at once as there is room for, of what is in the same state.
pub proof fn run_goes_as_far_as_it_can(states: Seq<Transit>, start: int, end: int, capacity: int)
    requires
        next_run(states, start, end, capacity),
    ensures
        0 <= start < end <= states.len(),
        end - start <= capacity,
        end < states.len() && end - start < capacity ==> states[end] != states[start],
        forall|i: int| #![trigger states[i]] start <= i < end ==> states[i] == states[start],
{
}

/// A byte is held exactly if it has come and was not read.
pub proof fn bytes_are_held_where_they_came(buf: RecvBuf, offset: int)
    ensures
        offset < buf.nread ==> buf.held(offset) is None,
        offset >= buf.nread + buf.window@.len() ==> buf.held(offset) is None,
        buf.nread <= offset < buf.nread + buf.window@.len() ==> buf.held(offset) == buf.window@[offset - buf.nread],
{
}

} // verus!
