//! Sockets that interfaces come with.
use vstd::prelude::*;

use crate::base::addr::{BindUri, Link, Pathway, SocketAddr};
use crate::protocol::topology::{direct_pathway, flip, flipped, pathway_of};

verus! {

/// The longest segment that is sent.
pub const MAX_SEGMENT_SIZE: usize = 1500;

/// The socket was closed.
#[derive(Clone, Copy, Debug, PartialEq, Eq, Structural)]
pub struct Closed;

impl Closed {
    pub fn message(&self) -> (text: String)
        ensures
            text@ == "UdpSocketController closed"@,
    {
        "UdpSocketController closed".to_owned()
    }
}

/// The socket could not be bound: why not.
#[derive(Debug)]
pub struct BindFailed {
    pub source: String,
}

impl BindFailed {
    pub fn message(&self) -> (text: String)
        ensures
            text@ == "failed to bind UdpSocketController"@,
    {
        "failed to bind UdpSocketController".to_owned()
    }
}

/// How a socket is bound.
#[derive(Clone, Copy, Debug, PartialEq, Eq, Structural)]
pub enum BindPlan {
    ToDevice { addr: SocketAddr, device: u64 },
    ToAddr { addr: SocketAddr },
}

/// What a bind URI stands for: an address, and the device to bind to where it names one.
#[derive(Clone, Copy, Debug, PartialEq, Eq, Structural)]
pub struct Binding {
    pub addr: SocketAddr,
    pub device: Option<u64>,
}

impl Binding {
    pub fn plan(&self) -> (plan: BindPlan)
        ensures
            plan == match self.device {
                Some(device) => BindPlan::ToDevice { addr: self.addr, device },
                None => BindPlan::ToAddr { addr: self.addr },
            },
    {
        match self.device {
            Some(device) => BindPlan::ToDevice { addr: self.addr, device },
            None => BindPlan::ToAddr { addr: self.addr },
        }
    }
}

/// The state of a socket: bound, by the caller's number, closed, or never bound.
#[derive(Debug)]
pub enum SocketState {
    Bound(u64),
    Closed,
    Failed(BindFailed),
}

/// Why there is no socket to use.
#[derive(Debug)]
pub enum SocketFault {
    Closed(Closed),
    BindFailed,
}

/// A UDP socket, and what it is bound to.
#[derive(Debug)]
pub struct UdpSocketController {
    pub bind_uri: BindUri,
    pub io: SocketState,
}

impl UdpSocketController {
    /// Takes the outcome of binding.
    pub fn bind(bind_uri: BindUri, outcome: Result<u64, String>) -> (controller: UdpSocketController)
        ensures
            controller.bind_uri == bind_uri,
            match outcome {
                Ok(socket) => controller.io == SocketState::Bound(socket),
                Err(source) => controller.io matches SocketState::Failed(failed) && failed.source@ == source@,
            },
    {
        let io = match outcome {
            Ok(socket) => SocketState::Bound(socket),
            Err(source) => SocketState::Failed(BindFailed { source }),
        };
        UdpSocketController { bind_uri, io }
    }

    pub fn bind_uri(&self) -> (bind_uri: BindUri)
        ensures
            bind_uri == self.bind_uri,
    {
        self.bind_uri
    }

    /// The socket to use.
    pub fn socket(&self) -> (result: Result<u64, SocketFault>)
        ensures
            match self.io {
                SocketState::Bound(socket) => result matches Ok(found) && found == socket,
                SocketState::Closed => result matches Err(fault) && fault is Closed,
                SocketState::Failed(_) => result matches Err(fault) && fault is BindFailed,
            },
    {
        match &self.io {
            SocketState::Bound(socket) => Ok(*socket),
            SocketState::Closed => Err(SocketFault::Closed(Closed)),
            SocketState::Failed(_) => Err(SocketFault::BindFailed),
        }
    }

    pub fn max_segment_size(&self) -> (size: usize)
        ensures
            size == MAX_SEGMENT_SIZE,
    {
        MAX_SEGMENT_SIZE
    }

    /// The routes of received datagrams, as seen from here: each came over a direct pathway.
    pub fn received_routes(links: &Vec<Link>) -> (routes: Vec<(Pathway, Link)>)
        ensures
            routes@.len() == links@.len(),
            forall|i: int|
                #![trigger routes@[i]]
                0 <= i < routes@.len() ==> routes@[i] == (direct_pathway(flipped(links@[i])), flipped(links@[i])),
    {
        let mut routes: Vec<(Pathway, Link)> = Vec::new();
        let mut at: usize = 0;
        while at < links.len()
            invariant
                at <= links@.len(),
                routes@.len() == at,
                forall|i: int|
                    #![trigger routes@[i]]
                    0 <= i < routes@.len() ==> routes@[i] == (direct_pathway(flipped(links@[i])), flipped(links@[i])),
            decreases links@.len() - at,
        {
            let link = flip(links[at]);
            routes.push((pathway_of(link), link));
            at = at + 1;
        }
        routes
    }

    /// Closes the socket. One that is closed, or was never bound, stays as it is.
    pub fn close(&mut self) -> (result: Result<u64, SocketFault>)
        ensures
            final(self).bind_uri == old(self).bind_uri,
            match old(self).io {
                SocketState::Bound(socket) => final(self).io is Closed && (result matches Ok(found) && found == socket),
                SocketState::Closed => *final(self) == *old(self) && (result matches Err(fault) && fault is Closed),
                SocketState::Failed(_) => *final(self) == *old(self) && (result matches Err(fault)
                    && fault is BindFailed),
            },
    {
        match self.socket() {
            Ok(socket) => {
                self.io = SocketState::Closed;
                Ok(socket)
            },
            Err(fault) => Err(fault),
        }
    }
}

/// There is no socket on this platform.
#[derive(Clone, Copy, Debug, PartialEq, Eq, Structural)]
pub struct UnsupportedError;

impl UnsupportedError {
    pub fn message(&self) -> (text: String)
        ensures
            text@ == "qudp feature is not enabled or target platform is not supported, you should use your own ProductQuicIO implementation, not the default"@,
    {
        "qudp feature is not enabled or target platform is not supported, you should use your own ProductQuicIO implementation, not the default".to_owned()
    }
}

/// An interface on a platform without sockets: nothing works but closing.
#[derive(Clone, Copy, Debug, PartialEq, Eq, Structural)]
pub struct Unsupported {
    pub bind_uri: BindUri,
}

impl Unsupported {
    pub fn bind(bind_uri: BindUri) -> (interface: Unsupported)
        ensures
            interface.bind_uri == bind_uri,
    {
        Unsupported { bind_uri }
    }

    pub fn bind_uri(&self) -> (bind_uri: BindUri)
        ensures
            bind_uri == self.bind_uri,
    {
        self.bind_uri
    }

    pub fn bound_addr(&self) -> (result: Result<SocketAddr, UnsupportedError>)
        ensures
            result == Err::<SocketAddr, UnsupportedError>(UnsupportedError),
    {
        Err(UnsupportedError)
    }

    pub fn max_segment_size(&self) -> (result: Result<usize, UnsupportedError>)
        ensures
            result == Err::<usize, UnsupportedError>(UnsupportedError),
    {
        Err(UnsupportedError)
    }

    pub fn max_segments(&self) -> (result: Result<usize, UnsupportedError>)
        ensures
            result == Err::<usize, UnsupportedError>(UnsupportedError),
    {
        Err(UnsupportedError)
    }

    pub fn send(&self) -> (result: Result<usize, UnsupportedError>)
        ensures
            result == Err::<usize, UnsupportedError>(UnsupportedError),
    {
        Err(UnsupportedError)
    }

    pub fn recv(&self) -> (result: Result<usize, UnsupportedError>)
        ensures
            result == Err::<usize, UnsupportedError>(UnsupportedError),
    {
        Err(UnsupportedError)
    }
}

} // verus!
