//! The UDP sockets that are managed here, and the agents that keep them reachable.
use vstd::prelude::*;

use crate::base::addr::{BindUri, SocketAddr};
use crate::base::table::{
    addr_key, addr_part, bind_key, bind_part, no_entries, parts_are_distinct, without_value, Table, TableKey,
};

verus! {

/// A handle on a managed socket, by a number that the caller draws.
#[derive(Clone, Copy, Debug, PartialEq, Eq, Structural)]
pub struct Fd {
    pub id: u64,
}

/// Why an operation on a socket fails.
#[derive(Clone, Copy, Debug, PartialEq, Eq, Structural)]
pub enum DockError {
    /// The number already stands for a socket.
    FdInUse,
    UnknownFd,
    UnknownAgent,
    AgentAlreadyRegistered,
}

/// Where the numbers of handles come from, for all docks of a process.
#[derive(Debug)]
pub struct FdCounter {
    pub next: u64,
}

impl FdCounter {
    pub fn new() -> (counter: FdCounter)
        ensures
            counter.next == 0,
    {
        FdCounter { next: 0 }
    }

    /// Whether drawing leads from one count to another, with this handle.
    pub open spec fn draws(&self, after: FdCounter, fd: Option<Fd>) -> bool {
        if self.next == u64::MAX {
            fd is None && after == *self
        } else {
            fd == Some(Fd { id: self.next }) && after.next == self.next + 1
        }
    }

    /// Draws a handle that was never drawn before, as long as numbers last.
    pub fn next(&mut self) -> (fd: Option<Fd>)
        ensures
            old(self).draws(*final(self), fd),
    {
        if self.next == u64::MAX {
            return None;
        }
        let fd = Fd { id: self.next };
        self.next = self.next + 1;
        Some(fd)
    }
}

proof fn lemma_count_grows(trace: Seq<FdCounter>, fds: Seq<Option<Fd>>, from: int, to: int)
    requires
        trace.len() == fds.len() + 1,
        forall|i: int| #![trigger fds[i]] 0 <= i < fds.len() ==> trace[i].draws(trace[i + 1], fds[i]),
        0 <= from <= to <= fds.len(),
    ensures
        trace[from].next <= trace[to].next,
    decreases to - from,
{
    if from < to {
        lemma_count_grows(trace, fds, from, to - 1);
        assert(trace[to - 1].draws(trace[to - 1 + 1], fds[to - 1]));
    }
}

/// However many handles are drawn, no two are the same.
pub proof fn handles_are_drawn_once(trace: Seq<FdCounter>, fds: Seq<Option<Fd>>, left: int, right: int)
    requires
        trace.len() == fds.len() + 1,
        forall|i: int| #![trigger fds[i]] 0 <= i < fds.len() ==> trace[i].draws(trace[i + 1], fds[i]),
        0 <= left < right < fds.len(),
    ensures
        fds[left] is Some && fds[right] is Some ==> fds[left] != fds[right],
        fds[left] is None ==> fds[right] is None,
{
    assert(trace[left].draws(trace[left + 1], fds[left]));
    assert(trace[right].draws(trace[right + 1], fds[right]));
    lemma_count_grows(trace, fds, left + 1, right);
}

/// The key of a socket.
pub open spec fn fd_key(fd: Fd) -> TableKey {
    (fd.id, 0, 0, 0, 0, 0)
}

/// The key of a bind.
pub open spec fn resident_key(uri: BindUri) -> TableKey {
    let bind = bind_key(uri);
    (bind.0, bind.1, bind.2, 0, 0, 0)
}

/// The key of an agent of a socket.
pub open spec fn agent_key(fd: Fd, agent: SocketAddr) -> TableKey {
    let part = addr_key(agent);
    (fd.id, 0, 0, part.0, part.1, part.2)
}

fn agent_key_for(fd: Fd, agent: SocketAddr) -> (key: TableKey)
    ensures
        key == agent_key(fd, agent),
{
    let part = addr_part(agent);
    (fd.id, 0, 0, part.0, part.1, part.2)
}

/// The managed sockets by the caller's numbers, what they are bound to, and their agents. Binds and
/// agents are held with the handle that they belong to.
pub struct Dock {
    pub sockets: Table,
    pub resident: Table,
    pub agents: Table,
}

/// What binding under a number does to a dock.
pub open spec fn bound(
    dock: Dock,
    after: Dock,
    uri: BindUri,
    socket: u64,
    number: u64,
    result: Result<Fd, DockError>,
) -> bool {
    if dock.socket_of(Fd { id: number }) is Some {
        result == Err::<Fd, DockError>(DockError::FdInUse) && after == dock
    } else {
        let fd = Fd { id: number };
        &&& result == Ok::<Fd, DockError>(fd)
        &&& after.sockets.view() == dock.sockets.view().insert(fd_key(fd), socket)
        &&& after.resident.view() == dock.resident.view().insert(resident_key(uri), fd.id)
        &&& after.agents == dock.agents
    }
}

impl Dock {
    /// Every agent is held with the handle that its key begins with, and every bind and agent belongs
    /// to a socket that is managed.
    pub open spec fn wf(&self) -> bool {
        &&& forall|key: TableKey|
            #![trigger self.agents.view()[key]]
            self.agents.view().dom().contains(key) ==> self.agents.view()[key] == key.0 && self.socket_of(
                Fd { id: key.0 },
            ) is Some
        &&& forall|key: TableKey|
            #![trigger self.resident.view()[key]]
            self.resident.view().dom().contains(key) ==> self.socket_of(Fd { id: self.resident.view()[key] }) is Some
    }

    pub open spec fn socket_of(&self, fd: Fd) -> Option<u64> {
        self.sockets.at(fd_key(fd))
    }

    /// The handle of the socket that is bound to an address or a device.
    pub open spec fn bound_to(&self, uri: BindUri) -> Option<Fd> {
        match self.resident.at(resident_key(uri)) {
            Some(id) => Some(Fd { id }),
            None => None,
        }
    }

    /// Whether an agent is registered for a socket.
    pub open spec fn has_agent(&self, fd: Fd, agent: SocketAddr) -> bool {
        self.agents.at(agent_key(fd, agent)) is Some
    }

    pub fn new() -> (dock: Dock)
        ensures
            dock.wf(),
            dock.sockets.view() == no_entries(),
            dock.resident.view() == no_entries(),
            dock.agents.view() == no_entries(),
    {
        Dock { sockets: Table::new(), resident: Table::new(), agents: Table::new() }
    }

    /// Takes in a socket that was bound, under a number. A number that stands for a socket already is
    /// refused, and nothing changes.
    pub fn bind(&mut self, uri: BindUri, socket: u64, number: u64) -> (result: Result<Fd, DockError>)
        requires
            old(self).wf(),
        ensures
            final(self).wf(),
            bound(*old(self), *final(self), uri, socket, number, result),
    {
        let key: TableKey = (number, 0, 0, 0, 0, 0);
        if self.sockets.get(key).is_some() {
            return Err(DockError::FdInUse);
        }
        let _ = self.sockets.insert(key, socket);
        let bind = bind_part(uri);
        let _ = self.resident.insert((bind.0, bind.1, bind.2, 0, 0, 0), number);
        Ok(Fd { id: number })
    }

    /// Takes a socket out, with its agents and what it is bound to. Returns the socket, to be closed.
    pub fn close(&mut self, fd: Fd) -> (socket: Option<u64>)
        requires
            old(self).wf(),
        ensures
            final(self).wf(),
            socket == old(self).socket_of(fd),
            final(self).sockets.view() == old(self).sockets.view().remove(fd_key(fd)),
            final(self).resident.view() == without_value(old(self).resident.view(), fd.id),
            final(self).agents.view() == without_value(old(self).agents.view(), fd.id),
    {
        let socket = self.sockets.remove((fd.id, 0, 0, 0, 0, 0));
        self.agents.remove_value(fd.id);
        self.resident.remove_value(fd.id);
        proof {
            assert forall|key: TableKey|
                #![trigger self.agents.view()[key]]
                self.agents.view().dom().contains(key) implies self.agents.view()[key] == key.0 && self.socket_of(
                Fd { id: key.0 },
            ) is Some by {
                assert(old(self).agents.view()[key] == key.0);
            }
            assert forall|key: TableKey|
                #![trigger self.resident.view()[key]]
                self.resident.view().dom().contains(key) implies self.socket_of(
                Fd { id: self.resident.view()[key] },
            ) is Some by {
                assert(old(self).socket_of(Fd { id: old(self).resident.view()[key] }) is Some);
            }
        }
        socket
    }

    /// The socket to send through.
    pub fn socket(&self, fd: Fd) -> (result: Result<u64, DockError>)
        ensures
            result == match self.socket_of(fd) {
                Some(socket) => Ok::<u64, DockError>(socket),
                None => Err(DockError::UnknownFd),
            },
    {
        match self.sockets.get((fd.id, 0, 0, 0, 0, 0)) {
            Some(socket) => Ok(socket),
            None => Err(DockError::UnknownFd),
        }
    }

    /// Whether what the NAT does to a socket can be waited for: it can from when the socket is taken in
    /// until it is closed.
    pub fn nat_feature(&self, fd: Fd) -> (result: Result<(), DockError>)
        ensures
            result == match self.socket_of(fd) {
                Some(_) => Ok::<(), DockError>(()),
                None => Err(DockError::UnknownFd),
            },
    {
        match self.sockets.get((fd.id, 0, 0, 0, 0, 0)) {
            Some(_) => Ok(()),
            None => Err(DockError::UnknownFd),
        }
    }

    /// Why the outer address that an agent sees of a socket cannot be waited for: nothing enters any.
    pub fn endpoint_addr(&self, fd: Fd, _agent: SocketAddr) -> (error: DockError)
        ensures
            error == match self.socket_of(fd) {
                Some(_) => DockError::UnknownAgent,
                None => DockError::UnknownFd,
            },
    {
        match self.sockets.get((fd.id, 0, 0, 0, 0, 0)) {
            Some(_) => DockError::UnknownAgent,
            None => DockError::UnknownFd,
        }
    }

    /// Registers an agent for a socket, once.
    pub fn add_agent(&mut self, fd: Fd, agent: SocketAddr) -> (result: Result<(), DockError>)
        requires
            old(self).wf(),
        ensures
            final(self).wf(),
            result is Err ==> *final(self) == *old(self),
            final(self).sockets == old(self).sockets,
            final(self).resident == old(self).resident,
            if old(self).socket_of(fd) is None {
                result == Err::<(), DockError>(DockError::UnknownFd)
            } else if old(self).has_agent(fd, agent) {
                result == Err::<(), DockError>(DockError::AgentAlreadyRegistered)
            } else {
                result is Ok && final(self).agents.view() == old(self).agents.view().insert(
                    agent_key(fd, agent),
                    fd.id,
                )
            },
    {
        if self.sockets.get((fd.id, 0, 0, 0, 0, 0)).is_none() {
            return Err(DockError::UnknownFd);
        }
        let key = agent_key_for(fd, agent);
        if self.agents.get(key).is_some() {
            return Err(DockError::AgentAlreadyRegistered);
        }
        let _ = self.agents.insert(key, fd.id);
        Ok(())
    }

    /// Withdraws an agent.
    pub fn del_agent(&mut self, fd: Fd, agent: SocketAddr)
        requires
            old(self).wf(),
        ensures
            final(self).wf(),
            final(self).sockets == old(self).sockets,
            final(self).resident == old(self).resident,
            final(self).agents.view() == old(self).agents.view().remove(agent_key(fd, agent)),
    {
        let _ = self.agents.remove(agent_key_for(fd, agent));
    }
}

/// A handle that is in use is not given out again: it stands for the socket that it stood for until it
/// is closed, whatever is bound meanwhile. A handle that is given out was of no socket, and had no
/// agents.
pub proof fn handle_in_use_is_not_given_out_again(
    dock: Dock,
    after: Dock,
    uri: BindUri,
    socket: u64,
    number: u64,
    result: Result<Fd, DockError>,
    other: Fd,
    agent: SocketAddr,
)
    requires
        dock.wf(),
        bound(dock, after, uri, socket, number, result),
    ensures
        dock.socket_of(other) is Some ==> result != Ok::<Fd, DockError>(other) && after.socket_of(other)
            == dock.socket_of(other),
        match result {
            Ok(fd) => dock.socket_of(fd) is None && after.socket_of(fd) == Some(socket) && after.bound_to(uri) == Some(
                fd,
            ) && !after.has_agent(fd, agent),
            Err(_) => after == dock,
        },
        after.has_agent(other, agent) == dock.has_agent(other, agent),
{
    if let Ok(fd) = result {
        let key = agent_key(fd, agent);
        if dock.agents.view().dom().contains(key) {
            assert(dock.agents.view()[key] == key.0);
        }
    }
}

/// Closing a socket leaves nothing of it, and other sockets keep what they are bound to and their
/// agents.
pub proof fn closed_socket_leaves_nothing(
    dock: Dock,
    closed: Dock,
    fd: Fd,
    other: Fd,
    uri: BindUri,
    agent: SocketAddr,
)
    requires
        dock.wf(),
        closed.sockets.view() == dock.sockets.view().remove(fd_key(fd)),
        closed.resident.view() == without_value(dock.resident.view(), fd.id),
        closed.agents.view() == without_value(dock.agents.view(), fd.id),
    ensures
        closed.socket_of(fd) is None,
        closed.bound_to(uri) == if dock.bound_to(uri) == Some(fd) {
            None
        } else {
            dock.bound_to(uri)
        },
        !closed.has_agent(fd, agent),
        other != fd ==> closed.socket_of(other) == dock.socket_of(other) && closed.has_agent(other, agent)
            == dock.has_agent(other, agent),
{
    let key = agent_key(fd, agent);
    if dock.agents.view().dom().contains(key) {
        assert(dock.agents.view()[key] == key.0);
    }
    let kept = agent_key(other, agent);
    if dock.agents.view().dom().contains(kept) {
        assert(dock.agents.view()[kept] == kept.0);
    }
}

/// An agent is registered for the socket that it was added to, and is withdrawn from that one only.
pub proof fn agents_belong_to_their_sockets(
    dock: Dock,
    added: Dock,
    removed: Dock,
    fd: Fd,
    agent: SocketAddr,
    other: Fd,
    another: SocketAddr,
)
    requires
        added.agents.view() == dock.agents.view().insert(agent_key(fd, agent), fd.id),
        removed.agents.view() == dock.agents.view().remove(agent_key(fd, agent)),
    ensures
        added.has_agent(other, another) <==> (other == fd && another == agent) || dock.has_agent(other, another),
        removed.has_agent(other, another) <==> !(other == fd && another == agent) && dock.has_agent(other, another),
{
    parts_are_distinct(agent, another, BindUri::Inet(agent), BindUri::Inet(agent));
}

/// A socket that is taken in is found by its handle and by what it is bound to; other sockets are found as
/// before.
pub proof fn bound_socket_is_found(
    dock: Dock,
    after: Dock,
    uri: BindUri,
    socket: u64,
    number: u64,
    fd: Fd,
    other: BindUri,
)
    requires
        bound(dock, after, uri, socket, number, Ok(fd)),
    ensures
        fd.id == number,
        after.socket_of(fd) == Some(socket),
        after.bound_to(uri) == Some(fd),
        other != uri ==> after.bound_to(other) == dock.bound_to(other),
{
    parts_are_distinct(arbitrary(), arbitrary(), uri, other);
}

} // verus!
