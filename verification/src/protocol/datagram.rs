//! Sending and receiving QUIC datagrams through the sockets of local endpoints.
use vstd::prelude::*;

use crate::base::addr::{EndpointAddr, Pathway, SocketAddr};
use crate::base::cid::ConnectionId;
use crate::base::table::{endpoint_key, key_of_endpoint, keys_are_distinct, no_entries, Table};

verus! {

/// A live socket is registered for the endpoint already.
#[derive(Clone, Copy, Debug, PartialEq, Eq, Structural)]
pub struct EndpointInUse {
    pub endpoint: EndpointAddr,
}

/// Why a submission fails before anything is sent.
#[derive(Clone, Copy, Debug, PartialEq, Eq, Structural)]
pub enum SendFault {
    /// No socket of the local endpoint is alive.
    NotConnected,
    /// The socket took nothing.
    WriteZero,
}

/// The length of a segment, as far as it can be told to the system.
pub open spec fn segment_of(size: int) -> int {
    if size > u16::MAX {
        u16::MAX as int
    } else {
        size
    }
}

pub fn segment(size: usize) -> (length: u16)
    ensures
        length == segment_of(size as int),
{
    if size > 65535 {
        65535
    } else {
        size as u16
    }
}

pub open spec fn is_direct(endpoint: EndpointAddr) -> bool {
    endpoint is Direct
}

/// The bytes that precede a QUIC packet in its datagram: none between direct endpoints, else a type,
/// a length and both endpoints.
pub open spec fn overhead_of(pathway: Pathway, local_size: u16, remote_size: u16) -> int {
    if is_direct(pathway.local) && is_direct(pathway.remote) {
        0
    } else {
        2 + local_size + remote_size
    }
}

/// Where datagrams for an endpoint go.
pub open spec fn destination_of(remote: EndpointAddr) -> SocketAddr {
    match remote {
        EndpointAddr::Direct { addr } => addr,
        EndpointAddr::Mediate { agent, .. } => agent,
    }
}

/// The length of the longest of the first `n` packets.
pub open spec fn longest(packets: Seq<Vec<u8>>, n: int) -> int
    decreases n,
{
    if n <= 0 {
        0
    } else {
        let rest = longest(packets, n - 1);
        if packets[n - 1]@.len() > rest {
            packets[n - 1]@.len() as int
        } else {
            rest
        }
    }
}

/// How a batch is submitted.
#[derive(Clone, Copy, Debug, PartialEq, Eq, Structural)]
pub struct SendPlan {
    pub socket: u64,
    pub destination: SocketAddr,
    /// How many packets, from the first, are submitted.
    pub count: usize,
    /// How many bytes precede each of them.
    pub overhead: usize,
    pub segment_size: u16,
}

/// The sockets of local endpoints, by the caller's numbers. Whether a socket is alive is for the
/// caller to say.
pub struct QuicProtocol {
    pub sockets: Table,
}

impl QuicProtocol {
    pub open spec fn registered(&self, endpoint: EndpointAddr) -> Option<u64> {
        self.sockets.at(endpoint_key(endpoint))
    }

    pub fn new() -> (protocol: QuicProtocol)
        ensures
            protocol.sockets.view() == no_entries(),
    {
        QuicProtocol { sockets: Table::new() }
    }

    /// Registers the socket of an endpoint. One that is registered already gives way unless it is
    /// `alive`.
    pub fn register(&mut self, endpoint: EndpointAddr, socket: u64, alive: bool) -> (result: Result<(), EndpointInUse>)
        ensures
            if old(self).registered(endpoint) is Some && alive {
                result == Err::<(), EndpointInUse>(EndpointInUse { endpoint }) && final(self).sockets.view() == old(
                    self,
                ).sockets.view()
            } else {
                result is Ok && final(self).sockets.view() == old(self).sockets.view().insert(
                    endpoint_key(endpoint),
                    socket,
                )
            },
    {
        let key = key_of_endpoint(endpoint);
        if self.sockets.get(key).is_some() && alive {
            return Err(EndpointInUse { endpoint });
        }
        let _ = self.sockets.insert(key, socket);
        Ok(())
    }

    /// Withdraws a socket, unless another was registered in its place.
    pub fn unregister(&mut self, endpoint: EndpointAddr, socket: u64)
        ensures
            final(self).sockets.view() == if old(self).registered(endpoint) == Some(socket) {
                old(self).sockets.view().remove(endpoint_key(endpoint))
            } else {
                old(self).sockets.view()
            },
    {
        let _ = self.sockets.remove_if(key_of_endpoint(endpoint), socket);
    }

    /// The socket of an endpoint, if one is registered and `alive`. One that is not is withdrawn.
    pub fn find_socket(&mut self, endpoint: EndpointAddr, alive: bool) -> (socket: Option<u64>)
        ensures
            socket == if alive {
                old(self).registered(endpoint)
            } else {
                None
            },
            final(self).sockets.view() == if alive || old(self).registered(endpoint) is None {
                old(self).sockets.view()
            } else {
                old(self).sockets.view().remove(endpoint_key(endpoint))
            },
    {
        let key = key_of_endpoint(endpoint);
        let socket = match self.sockets.get(key) {
            Some(socket) => socket,
            None => return None,
        };
        if alive {
            Some(socket)
        } else {
            let _ = self.sockets.remove_if(key, socket);
            None
        }
    }

    /// Bytes added outside the QUIC packet. The sizes are those of the encoded endpoints.
    pub fn packet_overhead(pathway: Pathway, local_size: u16, remote_size: u16) -> (overhead: usize)
        ensures
            overhead == overhead_of(pathway, local_size, remote_size),
    {
        match (pathway.local, pathway.remote) {
            (EndpointAddr::Direct { .. }, EndpointAddr::Direct { .. }) => 0,
            _ => 2 + local_size as usize + remote_size as usize,
        }
    }

    /// Plans the submission of a batch: at most `max_datagrams` packets go, through the socket of the
    /// local endpoint. Every packet is a datagram of its own, so that the longest decides the length
    /// of a segment. There is nothing to do for no packets.
    pub fn plan_send(
        &mut self,
        pathway: Pathway,
        local_size: u16,
        remote_size: u16,
        packets: &Vec<Vec<u8>>,
        max_datagrams: usize,
        alive: bool,
    ) -> (result: Result<Option<SendPlan>, SendFault>)
        requires
            max_datagrams > 0,
        ensures
            if packets@.len() == 0 {
                result == Ok::<Option<SendPlan>, SendFault>(None) && final(self).sockets.view() == old(
                    self,
                ).sockets.view()
            } else {
                &&& final(self).sockets.view() == if alive || old(self).registered(pathway.local) is None {
                    old(self).sockets.view()
                } else {
                    old(self).sockets.view().remove(endpoint_key(pathway.local))
                }
                &&& match old(self).registered(pathway.local) {
                    Some(socket) if alive => {
                        let overhead = overhead_of(pathway, local_size, remote_size);
                        let count = if packets@.len() < max_datagrams {
                            packets@.len() as int
                        } else {
                            max_datagrams as int
                        };
                        result matches Ok(Some(plan)) && {
                            &&& plan.socket == socket
                            &&& plan.destination == destination_of(pathway.remote)
                            &&& plan.count == count
                            &&& plan.overhead == overhead
                            &&& plan.segment_size == segment_of(longest(packets@, count) + overhead)
                        }
                    },
                    _ => result == Err::<Option<SendPlan>, SendFault>(SendFault::NotConnected),
                }
            },
    {
        if packets.len() == 0 {
            return Ok(None);
        }
        let count: usize = if packets.len() < max_datagrams {
            packets.len()
        } else {
            max_datagrams
        };
        let socket = match self.find_socket(pathway.local, alive) {
            Some(socket) => socket,
            None => return Err(SendFault::NotConnected),
        };
        let destination = match pathway.remote {
            EndpointAddr::Direct { addr } => addr,
            EndpointAddr::Mediate { agent, .. } => agent,
        };
        let overhead = QuicProtocol::packet_overhead(pathway, local_size, remote_size);
        let mut longest_yet: usize = 0;
        let mut at: usize = 0;
        while at < count
            invariant
                at <= count,
                count <= packets@.len(),
                longest_yet == longest(packets@, at as int),
            decreases count - at,
        {
            if packets[at].len() > longest_yet {
                longest_yet = packets[at].len();
            }
            at = at + 1;
        }
        let segment_size = if longest_yet > 65535 {
            65535
        } else {
            segment(longest_yet + overhead)
        };
        Ok(Some(SendPlan { socket, destination, count, overhead, segment_size }))
    }

    /// Whether a datagram is passed on: its local endpoint must have a socket that is `alive`.
    pub fn on_packet(&mut self, pathway: Pathway, alive: bool) -> (passed: bool)
        ensures
            passed == (alive && old(self).registered(pathway.local) is Some),
            final(self).sockets.view() == if alive || old(self).registered(pathway.local) is None {
                old(self).sockets.view()
            } else {
                old(self).sockets.view().remove(endpoint_key(pathway.local))
            },
    {
        self.find_socket(pathway.local, alive).is_some()
    }
}

/// A packet with room before it.
pub fn with_room(packet: &[u8], overhead: usize) -> (datagram: Vec<u8>)
    requires
        packet@.len() + overhead <= usize::MAX,
    ensures
        datagram@ == Seq::new(overhead as nat, |i: int| 0u8) + packet@,
{
    let mut datagram: Vec<u8> = Vec::new();
    while datagram.len() < overhead
        invariant
            datagram@.len() <= overhead,
            datagram@ == Seq::new(datagram@.len(), |i: int| 0u8),
        decreases overhead - datagram@.len(),
    {
        datagram.push(0);
        assert(datagram@ =~= Seq::new(datagram@.len(), |i: int| 0u8));
    }
    datagram.extend_from_slice(packet);
    assert(datagram@ =~= Seq::new(overhead as nat, |i: int| 0u8) + packet@);
    datagram
}

/// What to do after a socket took some of what was left of a batch.
#[derive(Clone, Copy, Debug, PartialEq, Eq, Structural)]
pub enum SendStep {
    /// Send what is left, from here.
    From(usize),
    Done,
    Failed(SendFault),
}

/// Goes on with a batch of which `sent` of `total` datagrams were out before the socket took `count`
/// more.
pub fn send_all(sent: usize, total: usize, count: usize) -> (step: SendStep)
    requires
        sent < total,
        sent + count <= total,
    ensures
        step == if count == 0 {
            SendStep::Failed(SendFault::WriteZero)
        } else if sent + count == total {
            SendStep::Done
        } else {
            SendStep::From((sent + count) as usize)
        },
{
    if count == 0 {
        SendStep::Failed(SendFault::WriteZero)
    } else if sent + count == total {
        SendStep::Done
    } else {
        SendStep::From(sent + count)
    }
}

/// Whether a single datagram went out.
pub fn sent_one(count: usize) -> (result: Result<(), SendFault>)
    ensures
        result == if count == 1 {
            Ok::<(), SendFault>(())
        } else {
            Err(SendFault::WriteZero)
        },
{
    if count == 1 {
        Ok(())
    } else {
        Err(SendFault::WriteZero)
    }
}

/// No datagram of a planned batch is split: each fits a segment, unless segments of its length cannot
/// be told to the system.
pub proof fn planned_batch_is_not_split(packets: Seq<Vec<u8>>, count: int, overhead: int, index: int)
    requires
        0 <= index < count <= packets.len(),
        overhead >= 0,
    ensures
        packets[index]@.len() + overhead <= longest(packets, count) + overhead,
        longest(packets, count) + overhead <= u16::MAX ==> packets[index]@.len() + overhead <= segment_of(
            longest(packets, count) + overhead,
        ),
    decreases count,
{
    if index < count - 1 {
        planned_batch_is_not_split(packets, count - 1, overhead, index);
    }
}

/// A socket that was replaced cannot withdraw its replacement.
pub proof fn replaced_socket_cannot_unregister(
    before: QuicProtocol,
    after: QuicProtocol,
    endpoint: EndpointAddr,
    socket: u64,
    replacement: u64,
)
    requires
        before.registered(endpoint) == Some(replacement),
        replacement != socket,
        after.sockets.view() == if before.registered(endpoint) == Some(socket) {
            before.sockets.view().remove(endpoint_key(endpoint))
        } else {
            before.sockets.view()
        },
    ensures
        after.registered(endpoint) == Some(replacement),
{
}

/// Between direct endpoints a packet is a datagram as it is; on any other path something precedes it.
pub proof fn only_mediated_paths_have_overhead(pathway: Pathway, local_size: u16, remote_size: u16)
    ensures
        overhead_of(pathway, local_size, remote_size) == 0 <==> is_direct(pathway.local) && is_direct(pathway.remote),
{
}

/// Datagrams for a direct endpoint go to its address, those for one behind an agent go to the agent.
pub proof fn datagrams_go_to_the_agent_if_there_is_one(addr: SocketAddr, outer: SocketAddr)
    ensures
        destination_of(EndpointAddr::Direct { addr }) == addr,
        destination_of(EndpointAddr::Mediate { agent: addr, outer }) == addr,
{
}

/// What precedes a packet on a path that is not between direct endpoints: two bytes and both endpoints.
pub proof fn overhead_is_the_header_of_a_forwarded_packet(pathway: Pathway, local_size: u16, remote_size: u16)
    ensures
        pathway.local is Direct && pathway.remote is Direct ==> overhead_of(pathway, local_size, remote_size) == 0,
        pathway.local is Mediate || pathway.remote is Mediate ==> overhead_of(pathway, local_size, remote_size) == 2
            + local_size + remote_size,
{
}

/// A segment is as long as the longest of the batch, and no longer.
pub proof fn segment_is_that_of_the_longest(packets: Seq<Vec<u8>>, count: int)
    requires
        0 < count <= packets.len(),
    ensures
        exists|i: int| #![trigger packets[i]] 0 <= i < count && packets[i]@.len() == longest(packets, count),
        forall|i: int| #![trigger packets[i]] 0 <= i < count ==> packets[i]@.len() <= longest(packets, count),
        forall|size: int| 0 <= size <= 65535 ==> #[trigger] segment_of(size) == size,
        forall|size: int| size > 65535 ==> #[trigger] segment_of(size) == 65535,
    decreases count,
{
    if count > 1 {
        segment_is_that_of_the_longest(packets, count - 1);
        assert(packets[count - 1] == packets[count - 1]);
    } else {
        assert(longest(packets, 0) == 0);
        assert(packets[0]@.len() == longest(packets, count));
    }
}

/// A socket is found under the endpoint that it was registered for, and under no other.
pub proof fn sockets_are_found_by_their_endpoint(
    before: QuicProtocol,
    after: QuicProtocol,
    endpoint: EndpointAddr,
    socket: u64,
    other: EndpointAddr,
)
    requires
        after.sockets.view() == before.sockets.view().insert(endpoint_key(endpoint), socket),
    ensures
        after.registered(endpoint) == Some(socket),
        other != endpoint ==> after.registered(other) == before.registered(other),
{
    keys_are_distinct(
        ConnectionId { len: 0, head: 0, tail: 0 },
        ConnectionId { len: 0, head: 0, tail: 0 },
        arbitrary(),
        arbitrary(),
        endpoint,
        other,
    );
}

} // verus!
