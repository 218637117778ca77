//! Sockets with an endpoint of their own.
use vstd::prelude::*;

use crate::base::addr::{EndpointAddr, Pathway};
use crate::protocol::datagram::{is_direct, overhead_of, segment, segment_of, QuicProtocol};

verus! {

/// Why a socket cannot be promoted.
#[derive(Clone, Copy, Debug, PartialEq, Eq, Structural)]
pub enum PromoteError {
    ExpectedDirect,
}

/// A UDP socket, by the caller's number, as one endpoint uses it.
#[derive(Clone, Copy, Debug, PartialEq, Eq, Structural)]
pub struct QuicSocket {
    pub udp: u64,
    pub endpoint: EndpointAddr,
}

/// How packets go out: how many bytes precede each, and the length of a segment.
#[derive(Clone, Copy, Debug, PartialEq, Eq, Structural)]
pub struct SocketPlan {
    pub overhead: usize,
    pub segment_size: u16,
}

impl QuicSocket {
    pub fn new(udp: u64, endpoint: EndpointAddr) -> (socket: QuicSocket)
        ensures
            socket == (QuicSocket { udp, endpoint }),
    {
        QuicSocket { udp, endpoint }
    }

    pub fn endpoint_addr(&self) -> (endpoint: EndpointAddr)
        ensures
            endpoint == self.endpoint,
    {
        self.endpoint
    }

    pub fn udp_socket(&self) -> (udp: u64)
        ensures
            udp == self.udp,
    {
        self.udp
    }

    /// Plans sending packets to an endpoint: the first packet's datagram decides the length of a
    /// segment. There is nothing to do for no packets.
    pub fn send(&self, packets: &Vec<Vec<u8>>, remote: EndpointAddr, local_size: u16, remote_size: u16) -> (plan: Option<
        SocketPlan,
    >)
        ensures
            match plan {
                None => packets@.len() == 0,
                Some(plan) => {
                    let overhead = overhead_of(Pathway { local: self.endpoint, remote }, local_size, remote_size);
                    &&& packets@.len() > 0
                    &&& plan.overhead == overhead
                    &&& plan.segment_size == segment_of(packets@[0]@.len() + overhead)
                },
            },
    {
        if packets.len() == 0 {
            return None;
        }
        let pathway = Pathway { local: self.endpoint, remote };
        let overhead = QuicProtocol::packet_overhead(pathway, local_size, remote_size);
        let first = packets[0].len();
        let segment_size = if first > 65535 {
            65535
        } else {
            segment(first + overhead)
        };
        Some(SocketPlan { overhead, segment_size })
    }
}

/// A socket that goes with its owner, unless it is promoted.
#[derive(Debug)]
pub struct EphemeralSocket {
    pub udp: u64,
    pub remove_on_drop: bool,
}

impl EphemeralSocket {
    pub fn bind(udp: u64) -> (socket: EphemeralSocket)
        ensures
            socket.udp == udp,
            socket.remove_on_drop,
    {
        EphemeralSocket { udp, remove_on_drop: true }
    }

    pub fn udp_socket(&self) -> (udp: u64)
        ensures
            udp == self.udp,
    {
        self.udp
    }

    /// The length of a segment for packets: that of the first.
    pub fn send(&self, packets: &Vec<Vec<u8>>) -> (segment_size: u16)
        ensures
            segment_size == if packets@.len() == 0 {
                0
            } else {
                segment_of(packets@[0]@.len() as int)
            },
    {
        if packets.len() == 0 {
            0
        } else {
            segment(packets[0].len())
        }
    }

    /// Makes the socket that of a direct endpoint; it then outlives its first owner. For any other
    /// endpoint that is refused, and the socket goes.
    pub fn into_quic_socket(&mut self, endpoint: EndpointAddr) -> (result: Result<QuicSocket, PromoteError>)
        ensures
            final(self).udp == old(self).udp,
            if is_direct(endpoint) {
                result == Ok::<QuicSocket, PromoteError>(QuicSocket { udp: old(self).udp, endpoint })
                    && !final(self).remove_on_drop
            } else {
                result == Err::<QuicSocket, PromoteError>(PromoteError::ExpectedDirect) && *final(self) == *old(self)
            },
    {
        match endpoint {
            EndpointAddr::Direct { .. } => {
                self.remove_on_drop = false;
                Ok(QuicSocket { udp: self.udp, endpoint })
            },
            EndpointAddr::Mediate { .. } => Err(PromoteError::ExpectedDirect),
        }
    }
}

} // verus!
