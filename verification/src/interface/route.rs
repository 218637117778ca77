//! The queues of one connection, as an interface fills them.
use vstd::prelude::*;

use crate::interface::admissibility::Way;
use crate::transport::assembly::PacketType;
use crate::transport::channel::{BoundQueue, DataHeader, LevelQueues, WirePacket};
use crate::transport::packet::CipherPacket;

verus! {

/// A packet, the size of its datagram where it is the first in it, and the way it came.
pub type QueuedPacket = ((CipherPacket<DataHeader>, Option<usize>), Way);

/// What waits for one connection.
#[derive(Debug)]
pub struct RcvdPacketQueue {
    pub queues: LevelQueues<QueuedPacket>,
}

impl RcvdPacketQueue {
    pub open spec fn wf(&self) -> bool {
        self.queues.wf()
    }

    pub fn new() -> (queue: RcvdPacketQueue)
        ensures
            queue.wf(),
            forall|packet_type: PacketType|
                (#[trigger] queue.queues.queue(packet_type)).items@.len() == 0 && !queue.queues.queue(packet_type).closed,
    {
        RcvdPacketQueue { queues: LevelQueues::new() }
    }

    pub fn initial(&self) -> (queue: &BoundQueue<QueuedPacket>)
        ensures
            *queue == self.queues.initial,
    {
        &self.queues.initial
    }

    pub fn handshake(&self) -> (queue: &BoundQueue<QueuedPacket>)
        ensures
            *queue == self.queues.handshake,
    {
        &self.queues.handshake
    }

    pub fn zero_rtt(&self) -> (queue: &BoundQueue<QueuedPacket>)
        ensures
            *queue == self.queues.zero_rtt,
    {
        &self.queues.zero_rtt
    }

    pub fn one_rtt(&self) -> (queue: &BoundQueue<QueuedPacket>)
        ensures
            *queue == self.queues.one_rtt,
    {
        &self.queues.one_rtt
    }

    pub fn close_all(&mut self)
        requires
            old(self).wf(),
        ensures
            final(self).wf(),
            forall|packet_type: PacketType|
                (#[trigger] final(self).queues.queue(packet_type)).closed && final(self).queues.queue(packet_type).items
                    == old(self).queues.queue(packet_type).items,
    {
        self.queues.close_all();
    }

    /// Takes a packet, or drops it: one without payload, or one whose queue is full. The shared
    /// receive loop never waits here.
    pub fn deliver(&mut self, packet: WirePacket, datagram_size: Option<usize>, way: Way)
        requires
            old(self).wf(),
        ensures
            final(self).wf(),
            match packet {
                WirePacket::Data(packet) => {
                    let packet_type = packet.header.packet_type;
                    &&& final(self).queues.queue(packet_type).offered(
                        old(self).queues.queue(packet_type),
                        ((packet, datagram_size), way),
                    )
                    &&& forall|other: PacketType|
                        other != packet_type ==> #[trigger] final(self).queues.queue(other) == old(self).queues.queue(
                            other,
                        )
                },
                _ => *final(self) == *old(self),
            },
    {
        match packet {
            WirePacket::Data(packet) => {
                let packet_type = packet.header.packet_type;
                let _ = self.queues.try_send(packet_type, ((packet, datagram_size), way));
            },
            _ => {},
        }
    }
}

} // verus!
