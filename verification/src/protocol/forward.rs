//! Relaying datagrams for endpoints behind an agent.
use vstd::prelude::*;

use crate::base::addr::{EndpointAddr, Link, Pathway, SocketAddr};
use crate::base::cid::ConnectionId;
use crate::base::table::{key_of_peer, keys_are_distinct, no_entries, peer_key, Table};
use crate::protocol::datagram::{segment, segment_of};

verus! {

/// What is done with a datagram that came to be forwarded.
#[derive(Clone, Copy, Debug, PartialEq, Eq, Structural)]
pub enum ForwardAction {
    /// It is for an endpoint here: its payload comes over this pathway.
    Deliver(Pathway),
    /// It goes on to the outer address.
    Relay { link: Link, segment_size: u16 },
    /// It is dropped.
    Ignore,
}

/// The agents served here, and the sockets they are served on.
pub struct ForwardProtocol {
    pub enabled: bool,
    pub agents: Table,
}

impl ForwardProtocol {
    /// Whether an agent is served on a socket.
    pub open spec fn served(&self, agent: SocketAddr, socket: u64) -> bool {
        self.agents.at(peer_key(agent)) == Some(socket)
    }

    pub fn new() -> (protocol: ForwardProtocol)
        ensures
            !protocol.enabled,
            protocol.agents.view() == no_entries(),
    {
        ForwardProtocol { enabled: false, agents: Table::new() }
    }

    pub fn enable(&mut self, enabled: bool)
        ensures
            final(self).enabled == enabled,
            final(self).agents == old(self).agents,
    {
        self.enabled = enabled;
    }

    pub fn enabled(&self) -> (enabled: bool)
        ensures
            enabled == self.enabled,
    {
        self.enabled
    }

    pub fn serve(&mut self, agent: SocketAddr, socket: u64)
        ensures
            final(self).enabled == old(self).enabled,
            final(self).agents.view() == old(self).agents.view().insert(peer_key(agent), socket),
    {
        let _ = self.agents.insert(key_of_peer(agent), socket);
    }

    pub fn stop_serving(&mut self, agent: SocketAddr)
        ensures
            final(self).enabled == old(self).enabled,
            final(self).agents.view() == old(self).agents.view().remove(peer_key(agent)),
    {
        let _ = self.agents.remove(key_of_peer(agent));
    }

    fn serves(&self, agent: SocketAddr, socket: u64) -> (served: bool)
        ensures
            served == self.served(agent, socket),
    {
        match self.agents.get(key_of_peer(agent)) {
            Some(registered) => registered == socket,
            None => false,
        }
    }

    /// Decides on a datagram of `len` bytes that was sent over `sent_pathway` and came to a socket.
    /// `here` says whether its destination is an endpoint here. An agent relays only on the socket
    /// that it is served on.
    pub fn on_datagram(&self, socket: u64, sent_pathway: Pathway, here: bool, link: Link, len: usize) -> (action:
        ForwardAction)
        ensures
            action == if here {
                ForwardAction::Deliver(sent_pathway.flipped())
            } else {
                match sent_pathway.remote {
                    EndpointAddr::Mediate { agent, outer } if self.enabled && self.served(agent, socket) =>
                        ForwardAction::Relay {
                            link: Link { src: link.src, dst: outer },
                            segment_size: segment_of(len as int) as u16,
                        },
                    _ => ForwardAction::Ignore,
                }
            },
    {
        if here {
            return ForwardAction::Deliver(Pathway { local: sent_pathway.remote, remote: sent_pathway.local });
        }
        match sent_pathway.remote {
            EndpointAddr::Mediate { agent, outer } => if self.enabled && self.serves(agent, socket) {
                ForwardAction::Relay {
                    link: Link { src: link.src, dst: outer },
                    segment_size: segment(len),
                }
            } else {
                ForwardAction::Ignore
            },
            EndpointAddr::Direct { .. } => ForwardAction::Ignore,
        }
    }
}

/// An agent is served on the socket that it was put on, until it is put on another; no other agent is
/// concerned.
pub proof fn agent_is_served_where_it_was_put(
    before: ForwardProtocol,
    after: ForwardProtocol,
    agent: SocketAddr,
    socket: u64,
    other: SocketAddr,
    on: u64,
)
    requires
        after.agents.view() == before.agents.view().insert(peer_key(agent), socket),
    ensures
        after.served(agent, on) <==> on == socket,
        other != agent ==> after.served(other, on) == before.served(other, on),
{
    keys_are_distinct(
        ConnectionId { len: 0, head: 0, tail: 0 },
        ConnectionId { len: 0, head: 0, tail: 0 },
        agent,
        other,
        arbitrary(),
        arbitrary(),
    );
}

} // verus!
