//! Which combinations of bind address, pathway and link can form a path.
use vstd::prelude::*;

use crate::base::addr::{BindUri, EndpointAddr, IpAddr, Ipv4Addr, Ipv6Addr, Link, Pathway, SocketAddr};

verus! {

/// A bound interface, the logical pathway and the concrete link of one packet.
pub type Way = (BindUri, Pathway, Link);

#[derive(Clone, Copy, Debug, PartialEq, Eq, Structural)]
pub enum EndpointSide {
    Local,
    Remote,
}

#[derive(Clone, Copy, Debug, PartialEq, Eq, Structural)]
pub enum InvalidWay {
    /// Local and remote addresses use different IP families.
    AddressFamilyMismatch,
    /// The bind family does not match the concrete local address.
    BindFamilyMismatch,
    /// Loopback and non-loopback addresses cannot form one path.
    LoopbackScopeMismatch,
    /// A concrete address is unspecified.
    Unspecified { side: EndpointSide },
    /// A concrete endpoint uses port zero.
    ZeroPort { side: EndpointSide },
    /// A concrete address is multicast.
    Multicast { side: EndpointSide },
    /// A concrete address is broadcast.
    Broadcast { side: EndpointSide },
    /// Local and remote concrete endpoints are identical.
    IdenticalEndpoints,
    /// A direct endpoint does not match the concrete path address.
    DirectEndpointMismatch { side: EndpointSide },
    /// A link-local peer is missing a compatible interface scope.
    LinkLocalScopeMismatch,
    /// The concrete local address does not match the bind address.
    BindAddressMismatch { bound: SocketAddr, local: SocketAddr },
}

/// What is known of a way: that it could be tried, or that a packet came by it.
#[derive(Clone, Copy, Debug, PartialEq, Eq, Structural)]
pub enum Evidence {
    OutboundCandidate,
    Received,
}

pub open spec fn unspecified(ip: IpAddr) -> bool {
    match ip {
        IpAddr::V4(ip) => ip.unspecified(),
        IpAddr::V6(ip) => ip.unspecified() || (ip.mapped() matches Some(v4) && v4.unspecified()),
    }
}

pub open spec fn plainly_unspecified(ip: IpAddr) -> bool {
    match ip {
        IpAddr::V4(ip) => ip.unspecified(),
        IpAddr::V6(ip) => ip.unspecified(),
    }
}

pub open spec fn multicast(ip: IpAddr) -> bool {
    match ip {
        IpAddr::V4(ip) => ip.multicast(),
        IpAddr::V6(ip) => ip.multicast() || (ip.mapped() matches Some(v4) && v4.multicast()),
    }
}

pub open spec fn broadcast(ip: IpAddr) -> bool {
    match ip {
        IpAddr::V4(ip) => ip.broadcast(),
        IpAddr::V6(ip) => ip.mapped() matches Some(v4) && v4.broadcast(),
    }
}

pub open spec fn link_local(ip: IpAddr) -> bool {
    match ip {
        IpAddr::V4(ip) => ip.link_local(),
        IpAddr::V6(ip) => ip.unicast_link_local() || (ip.mapped() matches Some(v4) && v4.link_local()),
    }
}

pub open spec fn loopback(ip: IpAddr) -> bool {
    match ip {
        IpAddr::V4(ip) => ip.loopback(),
        IpAddr::V6(ip) => ip.loopback() || (ip.mapped() matches Some(v4) && v4.loopback()),
    }
}

/// What keeps `addr` from being one end of a path, if anything.
pub open spec fn endpoint_fault(side: EndpointSide, addr: SocketAddr) -> Option<InvalidWay> {
    if unspecified(addr.the_ip()) {
        Some(InvalidWay::Unspecified { side })
    } else if addr.the_port() == 0 {
        Some(InvalidWay::ZeroPort { side })
    } else if multicast(addr.the_ip()) {
        Some(InvalidWay::Multicast { side })
    } else if broadcast(addr.the_ip()) {
        Some(InvalidWay::Broadcast { side })
    } else {
        None
    }
}

/// What keeps two concrete endpoints from forming a path, if anything.
pub open spec fn pair_fault(local: SocketAddr, remote: SocketAddr) -> Option<InvalidWay> {
    if local == remote {
        Some(InvalidWay::IdenticalEndpoints)
    } else if loopback(local.the_ip()) != loopback(remote.the_ip()) {
        Some(InvalidWay::LoopbackScopeMismatch)
    } else {
        None
    }
}

/// What is wrong with the families and the ends of the link.
pub open spec fn link_fault(bind: BindUri, link: Link, evidence: Evidence) -> Option<InvalidWay> {
    if link.src.the_family() != link.dst.the_family() {
        Some(InvalidWay::AddressFamilyMismatch)
    } else if bind.the_family() != link.src.the_family() {
        Some(InvalidWay::BindFamilyMismatch)
    } else if let Some(fault) = endpoint_fault(EndpointSide::Remote, link.dst) {
        Some(fault)
    } else if evidence == Evidence::OutboundCandidate && unspecified(link.src.the_ip()) {
        if link.src.the_port() == 0 {
            Some(InvalidWay::ZeroPort { side: EndpointSide::Local })
        } else {
            None
        }
    } else {
        endpoint_fault(EndpointSide::Local, link.src)
    }
}

/// Whether a concrete local address contradicts the address that was bound.
pub open spec fn bind_contradicts(bind: BindUri, local: SocketAddr) -> bool {
    bind matches BindUri::Inet(bound) && !plainly_unspecified(bound.the_ip()) && !unspecified(local.the_ip())
        && (bound.the_ip() != local.the_ip() || (bound.the_port() != 0 && bound.the_port() != local.the_port()))
}

/// What is wrong between the bind address, the pathway and the link.
pub open spec fn match_fault(bind: BindUri, pathway: Pathway, link: Link) -> Option<InvalidWay> {
    if bind_contradicts(bind, link.src) {
        Some(InvalidWay::BindAddressMismatch { bound: bind->0, local: link.src })
    } else if pathway.local matches EndpointAddr::Direct { addr } && !unspecified(link.src.the_ip()) && addr
        != link.src {
        Some(InvalidWay::DirectEndpointMismatch { side: EndpointSide::Local })
    } else if pathway.remote matches EndpointAddr::Direct { addr } && addr != link.dst {
        Some(InvalidWay::DirectEndpointMismatch { side: EndpointSide::Remote })
    } else if unspecified(link.src.the_ip()) {
        None
    } else {
        pair_fault(link.src, link.dst)
    }
}

/// What is wrong with a pathway both of whose ends are direct.
pub open spec fn pathway_fault(pathway: Pathway) -> Option<InvalidWay> {
    match (pathway.local, pathway.remote) {
        (EndpointAddr::Direct { addr: local }, EndpointAddr::Direct { addr: remote }) => {
            if local.the_family() != remote.the_family() {
                Some(InvalidWay::AddressFamilyMismatch)
            } else if let Some(fault) = endpoint_fault(EndpointSide::Remote, remote) {
                Some(fault)
            } else if unspecified(local.the_ip()) {
                None
            } else if let Some(fault) = endpoint_fault(EndpointSide::Local, local) {
                Some(fault)
            } else {
                pair_fault(local, remote)
            }
        },
        _ => None,
    }
}

/// Whether a link-local peer lacks a compatible interface scope.
pub open spec fn scope_missing(link: Link) -> bool {
    let bound = !unspecified(link.src.the_ip());
    &&& link_local(link.dst.the_ip())
    &&& {
        ||| bound && !link_local(link.src.the_ip())
        ||| link.dst matches SocketAddr::V6 { scope_id: theirs, .. } && (theirs == 0 || (
            link.src matches SocketAddr::V6 { scope_id: ours, .. } && bound && (ours == 0 || ours != theirs)))
    }
}

/// The first rule that a way breaks.
pub open spec fn fault(way: Way, evidence: Evidence) -> Option<InvalidWay> {
    let (bind, pathway, link) = way;
    if let Some(fault) = link_fault(bind, link, evidence) {
        Some(fault)
    } else if let Some(fault) = match_fault(bind, pathway, link) {
        Some(fault)
    } else if let Some(fault) = pathway_fault(pathway) {
        Some(fault)
    } else if scope_missing(link) {
        Some(InvalidWay::LinkLocalScopeMismatch)
    } else {
        None
    }
}

/// The result that goes with a fault.
pub open spec fn verdict(fault: Option<InvalidWay>) -> Result<(), InvalidWay> {
    match fault {
        Some(fault) => Err(fault),
        None => Ok(()),
    }
}

fn is_unspecified(ip: IpAddr) -> (found: bool)
    ensures
        found == unspecified(ip),
{
    match ip {
        IpAddr::V4(ip) => ip.is_unspecified(),
        IpAddr::V6(ip) => ip.is_unspecified() || match ip.to_ipv4_mapped() {
            Some(ip) => ip.is_unspecified(),
            None => false,
        },
    }
}

fn is_plainly_unspecified(ip: IpAddr) -> (found: bool)
    ensures
        found == plainly_unspecified(ip),
{
    match ip {
        IpAddr::V4(ip) => ip.is_unspecified(),
        IpAddr::V6(ip) => ip.is_unspecified(),
    }
}

fn is_multicast(ip: IpAddr) -> (found: bool)
    ensures
        found == multicast(ip),
{
    match ip {
        IpAddr::V4(ip) => ip.is_multicast(),
        IpAddr::V6(ip) => ip.is_multicast() || match ip.to_ipv4_mapped() {
            Some(ip) => ip.is_multicast(),
            None => false,
        },
    }
}

fn is_broadcast(ip: IpAddr) -> (found: bool)
    ensures
        found == broadcast(ip),
{
    match ip {
        IpAddr::V4(ip) => ip.is_broadcast(),
        IpAddr::V6(ip) => match ip.to_ipv4_mapped() {
            Some(ip) => ip.is_broadcast(),
            None => false,
        },
    }
}

fn is_link_local(ip: IpAddr) -> (found: bool)
    ensures
        found == link_local(ip),
{
    match ip {
        IpAddr::V4(ip) => ip.is_link_local(),
        IpAddr::V6(ip) => ip.is_unicast_link_local() || match ip.to_ipv4_mapped() {
            Some(ip) => ip.is_link_local(),
            None => false,
        },
    }
}

fn is_loopback(ip: IpAddr) -> (found: bool)
    ensures
        found == loopback(ip),
{
    match ip {
        IpAddr::V4(ip) => ip.is_loopback(),
        IpAddr::V6(ip) => ip.is_loopback() || match ip.to_ipv4_mapped() {
            Some(ip) => ip.is_loopback(),
            None => false,
        },
    }
}

fn validate_endpoint(side: EndpointSide, addr: SocketAddr) -> (result: Result<(), InvalidWay>)
    ensures
        result == verdict(endpoint_fault(side, addr)),
{
    if is_unspecified(addr.ip()) {
        return Err(InvalidWay::Unspecified { side });
    }
    if addr.port() == 0 {
        return Err(InvalidWay::ZeroPort { side });
    }
    if is_multicast(addr.ip()) {
        return Err(InvalidWay::Multicast { side });
    }
    if is_broadcast(addr.ip()) {
        return Err(InvalidWay::Broadcast { side });
    }
    Ok(())
}

/// Whether a way may be tried. An unspecified local address is left for the socket to choose.
pub fn validate_outbound_candidate(way: &Way) -> (result: Result<(), InvalidWay>)
    ensures
        result == verdict(fault(*way, Evidence::OutboundCandidate)),
{
    validate(way, Evidence::OutboundCandidate)
}

/// Whether a way by which a packet came may be answered.
pub fn validate_received_way(way: &Way) -> (result: Result<(), InvalidWay>)
    ensures
        result == verdict(fault(*way, Evidence::Received)),
{
    validate(way, Evidence::Received)
}

fn validate(way: &Way, evidence: Evidence) -> (result: Result<(), InvalidWay>)
    ensures
        result == verdict(fault(*way, evidence)),
{
    let (bind, pathway, link) = *way;
    let local: SocketAddr = link.src;
    let remote: SocketAddr = link.dst;
    let local_is_unspecified: bool = is_unspecified(local.ip());

    if local.family() != remote.family() {
        return Err(InvalidWay::AddressFamilyMismatch);
    }
    if bind.family() != local.family() {
        return Err(InvalidWay::BindFamilyMismatch);
    }
    if let Err(error) = validate_endpoint(EndpointSide::Remote, remote) {
        return Err(error);
    }
    if evidence != Evidence::OutboundCandidate || !local_is_unspecified {
        if let Err(error) = validate_endpoint(EndpointSide::Local, local) {
            return Err(error);
        }
    } else if local.port() == 0 {
        return Err(InvalidWay::ZeroPort { side: EndpointSide::Local });
    }
    assert(link_fault(bind, link, evidence) is None);

    if let BindUri::Inet(bound) = bind {
        if !is_plainly_unspecified(bound.ip()) && !local_is_unspecified && (bound.ip() != local.ip() || (
        bound.port() != 0 && bound.port() != local.port())) {
            return Err(InvalidWay::BindAddressMismatch { bound, local });
        }
    }
    if let EndpointAddr::Direct { addr } = pathway.local {
        if !local_is_unspecified && addr != local {
            return Err(InvalidWay::DirectEndpointMismatch { side: EndpointSide::Local });
        }
    }
    if let EndpointAddr::Direct { addr } = pathway.remote {
        if addr != remote {
            return Err(InvalidWay::DirectEndpointMismatch { side: EndpointSide::Remote });
        }
    }
    if !local_is_unspecified {
        if local == remote {
            return Err(InvalidWay::IdenticalEndpoints);
        }
        if is_loopback(local.ip()) != is_loopback(remote.ip()) {
            return Err(InvalidWay::LoopbackScopeMismatch);
        }
    }
    assert(match_fault(bind, pathway, link) is None);

    if let (EndpointAddr::Direct { addr: local }, EndpointAddr::Direct { addr: remote }) = (
        pathway.local,
        pathway.remote,
    ) {
        if local.family() != remote.family() {
            return Err(InvalidWay::AddressFamilyMismatch);
        }
        if let Err(error) = validate_endpoint(EndpointSide::Remote, remote) {
            return Err(error);
        }
        if !is_unspecified(local.ip()) {
            if let Err(error) = validate_endpoint(EndpointSide::Local, local) {
                return Err(error);
            }
            if local == remote {
                return Err(InvalidWay::IdenticalEndpoints);
            }
            if is_loopback(local.ip()) != is_loopback(remote.ip()) {
                return Err(InvalidWay::LoopbackScopeMismatch);
            }
        }
    }
    assert(pathway_fault(pathway) is None);

    if is_link_local(remote.ip()) {
        if !local_is_unspecified && !is_link_local(local.ip()) {
            return Err(InvalidWay::LinkLocalScopeMismatch);
        }
        if let SocketAddr::V6 { scope_id: theirs, .. } = remote {
            if theirs == 0 {
                return Err(InvalidWay::LinkLocalScopeMismatch);
            }
            if let SocketAddr::V6 { scope_id: ours, .. } = local {
                if !local_is_unspecified && (ours == 0 || ours != theirs) {
                    return Err(InvalidWay::LinkLocalScopeMismatch);
                }
            }
        }
    }
    Ok(())
}

/// A way that a packet came by may also be tried.
pub proof fn received_way_is_a_candidate(way: Way)
    requires
        fault(way, Evidence::Received) is None,
    ensures
        fault(way, Evidence::OutboundCandidate) is None,
{
}

/// The remote end of an admissible way is a unicast address with a port, of the family of the
/// local end and of the bound interface.
pub proof fn admissible_remote_is_concrete(way: Way, evidence: Evidence)
    requires
        fault(way, evidence) is None,
    ensures
        ({
            let (bind, _, link) = way;
            &&& !unspecified(link.dst.the_ip())
            &&& !multicast(link.dst.the_ip())
            &&& !broadcast(link.dst.the_ip())
            &&& link.dst.the_port() != 0
            &&& link.src.the_port() != 0
            &&& link.src.the_family() == link.dst.the_family()
            &&& link.src.the_family() == bind.the_family()
            &&& link.src != link.dst
        }),
{
}

/// A way by which a packet came has a concrete local end that does not contradict the bound
/// address and shares the scope of its peer.
pub proof fn received_local_is_concrete(way: Way)
    requires
        fault(way, Evidence::Received) is None,
    ensures
        ({
            let (bind, pathway, link) = way;
            &&& !unspecified(link.src.the_ip())
            &&& !multicast(link.src.the_ip())
            &&& !broadcast(link.src.the_ip())
            &&& !bind_contradicts(bind, link.src)
            &&& loopback(link.src.the_ip()) == loopback(link.dst.the_ip())
            &&& link_local(link.dst.the_ip()) ==> link_local(link.src.the_ip())
            &&& (pathway.local matches EndpointAddr::Direct { addr } ==> addr == link.src)
            &&& (pathway.remote matches EndpointAddr::Direct { addr } ==> addr == link.dst)
        }),
{
}

/// A way is admissible exactly if its two ends and the bound interface are of one family, its far end is a
/// unicast address with a port, and its near end is one too or is left open and only to be tried; and if,
/// where the near end is not left open, it is the bound address, with any port where none was bound, and
/// differs from the far end but shares its scope. What a pathway says of a direct end agrees with the link.
pub proof fn admissible_ways(way: Way, evidence: Evidence)
    ensures
        verdict(fault(way, evidence)) is Ok <==> {
            let (bind, pathway, link) = way;
            let (near, far) = (link.src, link.dst);
            let chosen = !unspecified(near.the_ip());
            &&& near.the_family() == far.the_family()
            &&& near.the_family() == bind.the_family()
            &&& near.the_port() != 0
            &&& far.the_port() != 0
            &&& !unspecified(far.the_ip()) && !multicast(far.the_ip()) && !broadcast(far.the_ip())
            &&& !chosen ==> evidence == Evidence::OutboundCandidate
            &&& chosen ==> {
                &&& !multicast(near.the_ip()) && !broadcast(near.the_ip())
                &&& near != far
                &&& loopback(near.the_ip()) == loopback(far.the_ip())
                &&& link_local(far.the_ip()) ==> link_local(near.the_ip())
                &&& link_local(far.the_ip()) ==> match (near, far) {
                    (SocketAddr::V6 { scope_id: ours, .. }, SocketAddr::V6 { scope_id: theirs, .. }) => ours == theirs,
                    _ => true,
                }
                &&& (bind matches BindUri::Inet(bound) ==> {
                    ||| plainly_unspecified(bound.the_ip())
                    ||| bound.the_ip() == near.the_ip() && (bound.the_port() == near.the_port() || bound.the_port()
                        == 0)
                })
                &&& (pathway.local matches EndpointAddr::Direct { addr } ==> addr == near)
            }
            &&& (far matches SocketAddr::V6 { scope_id: 0, .. } ==> !link_local(far.the_ip()))
            &&& (pathway.remote matches EndpointAddr::Direct { addr } ==> addr == far)
            &&& match (pathway.local, pathway.remote) {
                (EndpointAddr::Direct { addr: ours }, EndpointAddr::Direct { addr: theirs }) => {
                    &&& ours.the_family() == theirs.the_family()
                    &&& !unspecified(ours.the_ip()) ==> {
                        &&& ours.the_port() != 0
                        &&& !multicast(ours.the_ip()) && !broadcast(ours.the_ip())
                        &&& ours != theirs
                        &&& loopback(ours.the_ip()) == loopback(theirs.the_ip())
                    }
                },
                _ => true,
            }
        },
{
}

/// A way whose link and pathway agree, between concrete unicast addresses of the bound family that differ
/// and share their scope, is admissible by an interface that is bound to the near address, whether to its
/// port or to any, to no address in particular, or to a device.
pub proof fn agreeing_way_is_admissible(bind: BindUri, link: Link, evidence: Evidence)
    requires
        link.src.the_family() == link.dst.the_family(),
        bind.the_family() == link.src.the_family(),
        link.src.the_port() != 0,
        link.dst.the_port() != 0,
        !unspecified(link.src.the_ip()) && !multicast(link.src.the_ip()) && !broadcast(link.src.the_ip()),
        !unspecified(link.dst.the_ip()) && !multicast(link.dst.the_ip()) && !broadcast(link.dst.the_ip()),
        link.src != link.dst,
        loopback(link.src.the_ip()) == loopback(link.dst.the_ip()),
        !link_local(link.dst.the_ip()) || link_local(link.src.the_ip()) && match (link.src, link.dst) {
            (SocketAddr::V6 { scope_id: ours, .. }, SocketAddr::V6 { scope_id: theirs, .. }) => ours == theirs
                && theirs != 0,
            _ => true,
        },
        match bind {
            BindUri::Inet(bound) => plainly_unspecified(bound.the_ip()) || (bound.the_ip() == link.src.the_ip() && (
            bound.the_port() == 0 || bound.the_port() == link.src.the_port())),
            BindUri::Iface { .. } => true,
        },
    ensures
        ({
            let pathway = Pathway {
                local: EndpointAddr::Direct { addr: link.src },
                remote: EndpointAddr::Direct { addr: link.dst },
            };
            verdict(fault((bind, pathway, link), evidence)) == Ok::<(), InvalidWay>(())
        }),
{
}

/// What is told of a way that is refused is true of it.
pub proof fn refusal_tells_what_is_wrong(way: Way, evidence: Evidence, told: InvalidWay)
    requires
        verdict(fault(way, evidence)) == Err::<(), InvalidWay>(told),
    ensures
        ({
            let (bind, pathway, link) = way;
            let at = |side: EndpointSide|
                match side {
                    EndpointSide::Local => link.src,
                    EndpointSide::Remote => link.dst,
                };
            let named = |side: EndpointSide|
                match side {
                    EndpointSide::Local => pathway.local,
                    EndpointSide::Remote => pathway.remote,
                };
            let one_of = |side: EndpointSide, holds: spec_fn(SocketAddr) -> bool|
                holds(at(side)) || (named(side) matches EndpointAddr::Direct { addr } && holds(addr));
            match told {
                InvalidWay::AddressFamilyMismatch => link.src.the_family() != link.dst.the_family() || (pathway.local
                    matches EndpointAddr::Direct { addr: ours } && pathway.remote matches EndpointAddr::Direct {
                    addr: theirs,
                } && ours.the_family() != theirs.the_family()),
                InvalidWay::BindFamilyMismatch => bind.the_family() != link.src.the_family(),
                InvalidWay::LoopbackScopeMismatch => loopback(link.src.the_ip()) != loopback(link.dst.the_ip()) || (
                pathway.local matches EndpointAddr::Direct { addr: ours } && pathway.remote
                    matches EndpointAddr::Direct { addr: theirs } && loopback(ours.the_ip()) != loopback(
                    theirs.the_ip(),
                )),
                InvalidWay::Unspecified { side } => one_of(side, |addr: SocketAddr| unspecified(addr.the_ip())),
                InvalidWay::ZeroPort { side } => one_of(side, |addr: SocketAddr| addr.the_port() == 0),
                InvalidWay::Multicast { side } => one_of(side, |addr: SocketAddr| multicast(addr.the_ip())),
                InvalidWay::Broadcast { side } => one_of(side, |addr: SocketAddr| broadcast(addr.the_ip())),
                InvalidWay::IdenticalEndpoints => link.src == link.dst || pathway.local == pathway.remote,
                InvalidWay::DirectEndpointMismatch { side } => named(side) matches EndpointAddr::Direct { addr }
                    && addr != at(side),
                InvalidWay::LinkLocalScopeMismatch => link_local(link.dst.the_ip()),
                InvalidWay::BindAddressMismatch { bound, local } => bind == BindUri::Inet(bound) && local == link.src && {
                    ||| bound.the_ip() != local.the_ip()
                    ||| bound.the_port() != local.the_port() && bound.the_port() != 0
                },
            }
        }),
{
}

/// An IPv4 address is of the same kind whether it is written by itself or mapped into IPv6.
pub proof fn mapped_address_is_of_its_kind(ip: Ipv4Addr, mapped: Ipv6Addr)
    requires
        mapped == (Ipv6Addr {
            s0: 0,
            s1: 0,
            s2: 0,
            s3: 0,
            s4: 0,
            s5: 0xffff,
            s6: (ip.a * 0x100 + ip.b) as u16,
            s7: (ip.c * 0x100 + ip.d) as u16,
        }),
    ensures
        mapped.mapped() == Some(ip),
        unspecified(IpAddr::V6(mapped)) == unspecified(IpAddr::V4(ip)),
        multicast(IpAddr::V6(mapped)) == multicast(IpAddr::V4(ip)),
        broadcast(IpAddr::V6(mapped)) == broadcast(IpAddr::V4(ip)),
        link_local(IpAddr::V6(mapped)) == link_local(IpAddr::V4(ip)),
        loopback(IpAddr::V6(mapped)) == loopback(IpAddr::V4(ip)),
{
    assert((mapped.s6 / 0x100) as u8 == ip.a && (mapped.s6 % 0x100) as u8 == ip.b);
    assert((mapped.s7 / 0x100) as u8 == ip.c && (mapped.s7 % 0x100) as u8 == ip.d);
}

/// The kinds of IPv4 addresses, by their first bytes: 0.0.0.0, 127.0.0.0/8, 169.254.0.0/16, 224.0.0.0/4 and
/// 255.255.255.255.
pub proof fn kinds_of_ipv4_addresses(ip: Ipv4Addr)
    ensures
        unspecified(IpAddr::V4(ip)) <==> ip.a as int + ip.b as int + ip.c as int + ip.d as int == 0,
        loopback(IpAddr::V4(ip)) <==> ip.a as int == 127,
        link_local(IpAddr::V4(ip)) <==> ip.a as int * 0x100 + ip.b as int == 0xa9fe,
        multicast(IpAddr::V4(ip)) <==> ip.a as int / 16 == 14,
        broadcast(IpAddr::V4(ip)) <==> ip.a as int + ip.b as int + ip.c as int + ip.d as int == 4 * 255,
        plainly_unspecified(IpAddr::V4(ip)) == unspecified(IpAddr::V4(ip)),
{
}

/// The kinds of IPv6 addresses that are no mapped ones, by their leading groups: `::`, `::1`, `fe80::/10` and
/// `ff00::/8`.
pub proof fn kinds_of_ipv6_addresses(ip: Ipv6Addr)
    requires
        ip.s5 != 0xffff || ip.s0 != 0 || ip.s1 != 0 || ip.s2 != 0 || ip.s3 != 0 || ip.s4 != 0,
    ensures
        ({
            let leading = ip.s0 as int + ip.s1 as int + ip.s2 as int + ip.s3 as int + ip.s4 as int + ip.s5 as int
                + ip.s6 as int;
            &&& unspecified(IpAddr::V6(ip)) <==> leading + ip.s7 as int == 0
            &&& loopback(IpAddr::V6(ip)) <==> leading == 0 && ip.s7 as int == 1
            &&& link_local(IpAddr::V6(ip)) <==> ip.s0 as int / 0x40 == 0x3fa
            &&& multicast(IpAddr::V6(ip)) <==> ip.s0 as int / 0x100 == 0xff
            &&& !broadcast(IpAddr::V6(ip))
            &&& plainly_unspecified(IpAddr::V6(ip)) == unspecified(IpAddr::V6(ip))
        }),
{
}

} // verus!
