//! The queues between the shared receive loop and one connection.
use std::collections::VecDeque;

use vstd::prelude::*;

use crate::base::addr::{Link, Pathway};
use crate::base::cid::ConnectionId;
use crate::transport::assembly::PacketType;
use crate::transport::packet::CipherPacket;

verus! {

/// What a queue for packets of one early level holds at most.
pub const EARLY_CAPACITY: usize = 8;

/// What a queue for 1-RTT packets holds at most.
pub const ONE_RTT_CAPACITY: usize = 128;

/// The header of a packet with a payload, as far as routing depends on it.
#[derive(Clone, Copy, Debug, PartialEq, Eq, Structural)]
pub struct DataHeader {
    pub packet_type: PacketType,
    pub dcid: ConnectionId,
}

/// A packet read from a datagram.
#[derive(Debug)]
pub enum WirePacket {
    VersionNegotiation { dcid: ConnectionId },
    Retry { dcid: ConnectionId },
    Data(CipherPacket<DataHeader>),
}

/// A queue that refuses items rather than wait.
#[derive(Debug)]
pub struct BoundQueue<T> {
    pub items: VecDeque<T>,
    pub capacity: usize,
    pub closed: bool,
}

impl<T> BoundQueue<T> {
    pub open spec fn wf(&self) -> bool {
        self.items@.len() <= self.capacity
    }

    /// Whether an item would be taken.
    pub open spec fn has_room(&self) -> bool {
        !self.closed && self.items@.len() < self.capacity
    }

    /// Whether the queue is `before` with an item offered to it.
    pub open spec fn offered(&self, before: BoundQueue<T>, item: T) -> bool {
        &&& self.capacity == before.capacity
        &&& self.closed == before.closed
        &&& self.items@ == if before.has_room() {
            before.items@.push(item)
        } else {
            before.items@
        }
    }

    pub fn new(capacity: usize) -> (queue: BoundQueue<T>)
        ensures
            queue.wf(),
            queue.items@ == Seq::<T>::empty(),
            queue.capacity == capacity,
            !queue.closed,
    {
        BoundQueue { items: VecDeque::new(), capacity, closed: false }
    }

    /// Puts an item last, unless the queue is full or closed.
    pub fn try_send(&mut self, item: T) -> (taken: bool)
        requires
            old(self).wf(),
        ensures
            final(self).wf(),
            final(self).offered(*old(self), item),
            taken == old(self).has_room(),
    {
        if self.closed || self.items.len() >= self.capacity {
            return false;
        }
        self.items.push_back(item);
        true
    }

    /// Takes the first item out.
    pub fn recv(&mut self) -> (item: Option<T>)
        requires
            old(self).wf(),
        ensures
            final(self).wf(),
            final(self).capacity == old(self).capacity,
            final(self).closed == old(self).closed,
            match item {
                Some(item) => old(self).items@.len() > 0 && item == old(self).items@[0] && final(self).items@ == old(
                    self,
                ).items@.skip(1),
                None => old(self).items@.len() == 0 && final(self).items@ == old(self).items@,
            },
    {
        let ghost before = self.items@;
        let item = self.items.pop_front();
        proof {
            if before.len() > 0 {
                assert(self.items@ =~= before.skip(1));
            } else {
                assert(self.items@ =~= before);
            }
        }
        item
    }

    /// Refuses everything from now on.
    pub fn close(&mut self)
        requires
            old(self).wf(),
        ensures
            final(self).wf(),
            final(self).items == old(self).items,
            final(self).capacity == old(self).capacity,
            final(self).closed,
    {
        self.closed = true;
    }
}

/// One queue for each type of packet.
#[derive(Debug)]
pub struct LevelQueues<T> {
    pub initial: BoundQueue<T>,
    pub handshake: BoundQueue<T>,
    pub zero_rtt: BoundQueue<T>,
    pub one_rtt: BoundQueue<T>,
}

impl<T> LevelQueues<T> {
    pub open spec fn wf(&self) -> bool {
        &&& self.initial.wf() && self.handshake.wf() && self.zero_rtt.wf() && self.one_rtt.wf()
        &&& self.initial.capacity == EARLY_CAPACITY
        &&& self.handshake.capacity == EARLY_CAPACITY
        &&& self.zero_rtt.capacity == EARLY_CAPACITY
        &&& self.one_rtt.capacity == ONE_RTT_CAPACITY
    }

    /// The queue for packets of a type.
    pub open spec fn queue(&self, packet_type: PacketType) -> BoundQueue<T> {
        match packet_type {
            PacketType::Initial => self.initial,
            PacketType::Handshake => self.handshake,
            PacketType::ZeroRtt => self.zero_rtt,
            PacketType::OneRtt => self.one_rtt,
        }
    }

    pub fn new() -> (queues: LevelQueues<T>)
        ensures
            queues.wf(),
            forall|packet_type: PacketType|
                (#[trigger] queues.queue(packet_type)).items@ == Seq::<T>::empty() && !queues.queue(packet_type).closed,
    {
        LevelQueues {
            initial: BoundQueue::new(EARLY_CAPACITY),
            handshake: BoundQueue::new(EARLY_CAPACITY),
            zero_rtt: BoundQueue::new(EARLY_CAPACITY),
            one_rtt: BoundQueue::new(ONE_RTT_CAPACITY),
        }
    }

    /// Puts an item in the queue of its type, if that has room.
    pub fn try_send(&mut self, packet_type: PacketType, item: T) -> (taken: bool)
        requires
            old(self).wf(),
        ensures
            final(self).wf(),
            taken == old(self).queue(packet_type).has_room(),
            final(self).queue(packet_type).offered(old(self).queue(packet_type), item),
            forall|other: PacketType| other != packet_type ==> #[trigger] final(self).queue(other) == old(self).queue(other),
    {
        match packet_type {
            PacketType::Initial => self.initial.try_send(item),
            PacketType::Handshake => self.handshake.try_send(item),
            PacketType::ZeroRtt => self.zero_rtt.try_send(item),
            PacketType::OneRtt => self.one_rtt.try_send(item),
        }
    }

    /// Closes every queue.
    pub fn close_all(&mut self)
        requires
            old(self).wf(),
        ensures
            final(self).wf(),
            forall|packet_type: PacketType|
                (#[trigger] final(self).queue(packet_type)).closed && final(self).queue(packet_type).items == old(
                    self,
                ).queue(packet_type).items,
    {
        self.initial.close();
        self.handshake.close();
        self.zero_rtt.close();
        self.one_rtt.close();
    }
}

/// What waits for one connection. `id` tells it from every other.
#[derive(Debug)]
pub struct Inbox {
    pub id: u64,
    pub queues: LevelQueues<(CipherPacket<DataHeader>, Pathway, Link)>,
}

impl Inbox {
    pub open spec fn wf(&self) -> bool {
        self.queues.wf()
    }

    pub fn new(id: u64) -> (inbox: Inbox)
        ensures
            inbox.wf(),
            inbox.id == id,
            forall|packet_type: PacketType|
                (#[trigger] inbox.queues.queue(packet_type)).items@.len() == 0 && !inbox.queues.queue(packet_type).closed,
    {
        Inbox { id, queues: LevelQueues::new() }
    }

    /// Whether this is the same connection's.
    pub fn same_channel(&self, other: &Inbox) -> (same: bool)
        ensures
            same == (self.id == other.id),
    {
        self.id == other.id
    }

    /// Takes a packet, or refuses it at once: a packet without payload, or one whose queue is full. A
    /// connection never holds up the shared receive loop.
    pub fn try_send(&mut self, packet: WirePacket, pathway: Pathway, link: Link) -> (taken: bool)
        requires
            old(self).wf(),
        ensures
            final(self).wf(),
            final(self).id == old(self).id,
            match packet {
                WirePacket::Data(packet) => {
                    let packet_type = packet.header.packet_type;
                    &&& taken == old(self).queues.queue(packet_type).has_room()
                    &&& final(self).queues.queue(packet_type).offered(
                        old(self).queues.queue(packet_type),
                        (packet, pathway, link),
                    )
                    &&& forall|other: PacketType|
                        other != packet_type ==> #[trigger] final(self).queues.queue(other) == old(self).queues.queue(
                            other,
                        )
                },
                _ => !taken && *final(self) == *old(self),
            },
    {
        match packet {
            WirePacket::Data(packet) => {
                let packet_type = packet.header.packet_type;
                self.queues.try_send(packet_type, (packet, pathway, link))
            },
            _ => false,
        }
    }

    /// Takes an Initial packet, or refuses it at once.
    pub fn try_send_initial(&mut self, packet: CipherPacket<DataHeader>, pathway: Pathway, link: Link) -> (taken: bool)
        requires
            old(self).wf(),
        ensures
            final(self).wf(),
            final(self).id == old(self).id,
            taken == old(self).queues.initial.has_room(),
            final(self).queues.initial.offered(old(self).queues.initial, (packet, pathway, link)),
            final(self).queues.handshake == old(self).queues.handshake,
            final(self).queues.zero_rtt == old(self).queues.zero_rtt,
            final(self).queues.one_rtt == old(self).queues.one_rtt,
    {
        self.queues.initial.try_send((packet, pathway, link))
    }
}

/// What a full or closed queue refuses leaves no trace, and what is taken comes out after all that
/// was taken before.
pub proof fn queues_are_fair<T>(before: BoundQueue<T>, after: BoundQueue<T>, item: T)
    requires
        before.wf(),
        after.offered(before, item),
    ensures
        after.wf(),
        !before.has_room() ==> after.items@ == before.items@,
        before.has_room() ==> after.items@.last() == item && after.items@.drop_last() == before.items@,
{
    if before.has_room() {
        assert(after.items@.drop_last() =~= before.items@);
    }
}

/// A queue takes an item exactly if it is open and not full. Early packets wait in queues of eight, 1-RTT
/// packets in one of 128, each type in its own.
pub proof fn queues_take_what_they_have_room_for<T>(queues: LevelQueues<T>, queue: BoundQueue<T>)
    requires
        queues.wf(),
    ensures
        queue.has_room() <==> !queue.closed && queue.items@.len() < queue.capacity,
        queues.queue(PacketType::Initial) == queues.initial && queues.initial.capacity == 8,
        queues.queue(PacketType::Handshake) == queues.handshake && queues.handshake.capacity == 8,
        queues.queue(PacketType::ZeroRtt) == queues.zero_rtt && queues.zero_rtt.capacity == 8,
        queues.queue(PacketType::OneRtt) == queues.one_rtt && queues.one_rtt.capacity == 128,
{
}

} // verus!
