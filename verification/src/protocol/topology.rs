//! Which protocol a datagram belongs to.
use vstd::prelude::*;

use crate::base::addr::{EndpointAddr, Link, Pathway};

verus! {

/// The longest datagram there is.
pub const MAX_DATAGRAM_SIZE: usize = 65_535;

/// What the first bytes of a datagram look like, and how long its header is where it can be read.
#[derive(Clone, Copy, Debug, PartialEq, Eq, Structural)]
pub struct Outlook {
    pub stun: bool,
    pub stun_header: Option<usize>,
    pub forward: bool,
    pub forward_header: Option<usize>,
}

/// Who takes a datagram. The link is seen from here: from the local address to the remote one.
#[derive(Clone, Copy, Debug, PartialEq, Eq, Structural)]
pub enum Dispatch {
    /// What follows the header goes to the STUN protocol.
    Stun { payload_at: usize, link: Link },
    Forward { header_len: usize, link: Link },
    Quic { pathway: Pathway, link: Link },
    /// It looked like one of the first two, but its header cannot be read.
    Dropped,
}

pub open spec fn flipped(link: Link) -> Link {
    Link { src: link.dst, dst: link.src }
}

/// The pathway of a link between direct endpoints.
pub open spec fn direct_pathway(link: Link) -> Pathway {
    Pathway { local: EndpointAddr::Direct { addr: link.src }, remote: EndpointAddr::Direct { addr: link.dst } }
}

/// Turns a link around.
pub fn flip(link: Link) -> (other: Link)
    ensures
        other == flipped(link),
{
    Link { src: link.dst, dst: link.src }
}

/// The pathway of a link between direct endpoints.
pub fn pathway_of(link: Link) -> (pathway: Pathway)
    ensures
        pathway == direct_pathway(link),
{
    Pathway { local: EndpointAddr::Direct { addr: link.src }, remote: EndpointAddr::Direct { addr: link.dst } }
}

/// Finds who takes a datagram that came over a link: STUN before forwarding before QUIC.
pub fn receive(outlook: Outlook, came_over: Link) -> (dispatch: Dispatch)
    ensures
        dispatch == if outlook.stun {
            match outlook.stun_header {
                Some(payload_at) => Dispatch::Stun { payload_at, link: flipped(came_over) },
                None => Dispatch::Dropped,
            }
        } else if outlook.forward {
            match outlook.forward_header {
                Some(header_len) => Dispatch::Forward { header_len, link: flipped(came_over) },
                None => Dispatch::Dropped,
            }
        } else {
            Dispatch::Quic { pathway: direct_pathway(flipped(came_over)), link: flipped(came_over) }
        },
{
    let link = flip(came_over);
    if outlook.stun {
        return match outlook.stun_header {
            Some(payload_at) => Dispatch::Stun { payload_at, link },
            None => Dispatch::Dropped,
        };
    }
    if outlook.forward {
        return match outlook.forward_header {
            Some(header_len) => Dispatch::Forward { header_len, link },
            None => Dispatch::Dropped,
        };
    }
    Dispatch::Quic { pathway: pathway_of(link), link }
}

/// A link that is turned around leads back, and a packet that came over it is answered over a pathway whose
/// ends are those of the link.
pub proof fn answers_go_back_where_packets_came_from(came_over: Link)
    ensures
        flipped(came_over).src == came_over.dst,
        flipped(came_over).dst == came_over.src,
        flipped(flipped(came_over)) == came_over,
        direct_pathway(came_over).local == (EndpointAddr::Direct { addr: came_over.src }),
        direct_pathway(came_over).remote == (EndpointAddr::Direct { addr: came_over.dst }),
{
}

} // verus!
