//! Socket and endpoint addresses as plain values.
use vstd::prelude::*;

verus! {

#[derive(Clone, Copy, Debug, PartialEq, Eq, Structural)]
pub enum Family {
    V4,
    V6,
}

#[derive(Clone, Copy, Debug, PartialEq, Eq, Structural)]
pub struct Ipv4Addr {
    pub a: u8,
    pub b: u8,
    pub c: u8,
    pub d: u8,
}

impl Ipv4Addr {
    pub open spec fn unspecified(self) -> bool {
        self.a == 0 && self.b == 0 && self.c == 0 && self.d == 0
    }

    pub open spec fn loopback(self) -> bool {
        self.a == 127
    }

    pub open spec fn link_local(self) -> bool {
        self.a == 169 && self.b == 254
    }

    pub open spec fn multicast(self) -> bool {
        224 <= self.a <= 239
    }

    pub open spec fn broadcast(self) -> bool {
        self.a == 255 && self.b == 255 && self.c == 255 && self.d == 255
    }

    pub fn new(a: u8, b: u8, c: u8, d: u8) -> (ip: Ipv4Addr)
        ensures
            ip == (Ipv4Addr { a, b, c, d }),
    {
        Ipv4Addr { a, b, c, d }
    }

    pub fn is_unspecified(self) -> (found: bool)
        ensures
            found == self.unspecified(),
    {
        self.a == 0 && self.b == 0 && self.c == 0 && self.d == 0
    }

    pub fn is_loopback(self) -> (found: bool)
        ensures
            found == self.loopback(),
    {
        self.a == 127
    }

    pub fn is_link_local(self) -> (found: bool)
        ensures
            found == self.link_local(),
    {
        self.a == 169 && self.b == 254
    }

    pub fn is_multicast(self) -> (found: bool)
        ensures
            found == self.multicast(),
    {
        224 <= self.a && self.a <= 239
    }

    pub fn is_broadcast(self) -> (found: bool)
        ensures
            found == self.broadcast(),
    {
        self.a == 255 && self.b == 255 && self.c == 255 && self.d == 255
    }
}

/// The eight groups of sixteen bits, highest first.
#[derive(Clone, Copy, Debug, PartialEq, Eq, Structural)]
pub struct Ipv6Addr {
    pub s0: u16,
    pub s1: u16,
    pub s2: u16,
    pub s3: u16,
    pub s4: u16,
    pub s5: u16,
    pub s6: u16,
    pub s7: u16,
}

impl Ipv6Addr {
    pub open spec fn unspecified(self) -> bool {
        self == (Ipv6Addr { s0: 0, s1: 0, s2: 0, s3: 0, s4: 0, s5: 0, s6: 0, s7: 0 })
    }

    pub open spec fn loopback(self) -> bool {
        self == (Ipv6Addr { s0: 0, s1: 0, s2: 0, s3: 0, s4: 0, s5: 0, s6: 0, s7: 1 })
    }

    pub open spec fn multicast(self) -> bool {
        self.s0 >= 0xff00
    }

    pub open spec fn unicast_link_local(self) -> bool {
        0xfe80 <= self.s0 <= 0xfebf
    }

    /// The IPv4 address that an IPv4-mapped address stands for.
    pub open spec fn mapped(self) -> Option<Ipv4Addr> {
        if self.s0 == 0 && self.s1 == 0 && self.s2 == 0 && self.s3 == 0 && self.s4 == 0 && self.s5 == 0xffff {
            Some(
                Ipv4Addr {
                    a: (self.s6 / 0x100) as u8,
                    b: (self.s6 % 0x100) as u8,
                    c: (self.s7 / 0x100) as u8,
                    d: (self.s7 % 0x100) as u8,
                },
            )
        } else {
            None
        }
    }

    pub fn new(s0: u16, s1: u16, s2: u16, s3: u16, s4: u16, s5: u16, s6: u16, s7: u16) -> (ip: Ipv6Addr)
        ensures
            ip == (Ipv6Addr { s0, s1, s2, s3, s4, s5, s6, s7 }),
    {
        Ipv6Addr { s0, s1, s2, s3, s4, s5, s6, s7 }
    }

    pub fn is_unspecified(self) -> (found: bool)
        ensures
            found == self.unspecified(),
    {
        self == Ipv6Addr { s0: 0, s1: 0, s2: 0, s3: 0, s4: 0, s5: 0, s6: 0, s7: 0 }
    }

    pub fn is_loopback(self) -> (found: bool)
        ensures
            found == self.loopback(),
    {
        self == Ipv6Addr { s0: 0, s1: 0, s2: 0, s3: 0, s4: 0, s5: 0, s6: 0, s7: 1 }
    }

    pub fn is_multicast(self) -> (found: bool)
        ensures
            found == self.multicast(),
    {
        self.s0 >= 0xff00
    }

    pub fn is_unicast_link_local(self) -> (found: bool)
        ensures
            found == self.unicast_link_local(),
    {
        0xfe80 <= self.s0 && self.s0 <= 0xfebf
    }

    pub fn to_ipv4_mapped(self) -> (ip: Option<Ipv4Addr>)
        ensures
            ip == self.mapped(),
    {
        if self.s0 == 0 && self.s1 == 0 && self.s2 == 0 && self.s3 == 0 && self.s4 == 0 && self.s5 == 0xffff {
            Some(
                Ipv4Addr {
                    a: (self.s6 / 0x100) as u8,
                    b: (self.s6 % 0x100) as u8,
                    c: (self.s7 / 0x100) as u8,
                    d: (self.s7 % 0x100) as u8,
                },
            )
        } else {
            None
        }
    }
}

#[derive(Clone, Copy, Debug, PartialEq, Eq, Structural)]
pub enum IpAddr {
    V4(Ipv4Addr),
    V6(Ipv6Addr),
}

#[allow(inconsistent_fields)]
#[derive(Clone, Copy, Debug, PartialEq, Eq, Structural)]
pub enum SocketAddr {
    V4 { ip: Ipv4Addr, port: u16 },
    V6 { ip: Ipv6Addr, port: u16, flowinfo: u32, scope_id: u32 },
}

impl SocketAddr {
    pub open spec fn the_ip(self) -> IpAddr {
        match self {
            SocketAddr::V4 { ip, .. } => IpAddr::V4(ip),
            SocketAddr::V6 { ip, .. } => IpAddr::V6(ip),
        }
    }

    pub open spec fn the_port(self) -> u16 {
        match self {
            SocketAddr::V4 { port, .. } => port,
            SocketAddr::V6 { port, .. } => port,
        }
    }

    pub open spec fn the_family(self) -> Family {
        match self {
            SocketAddr::V4 { .. } => Family::V4,
            SocketAddr::V6 { .. } => Family::V6,
        }
    }

    pub fn ip(self) -> (ip: IpAddr)
        ensures
            ip == self.the_ip(),
    {
        match self {
            SocketAddr::V4 { ip, .. } => IpAddr::V4(ip),
            SocketAddr::V6 { ip, .. } => IpAddr::V6(ip),
        }
    }

    pub fn port(self) -> (port: u16)
        ensures
            port == self.the_port(),
    {
        match self {
            SocketAddr::V4 { port, .. } => port,
            SocketAddr::V6 { port, .. } => port,
        }
    }

    pub fn family(self) -> (family: Family)
        ensures
            family == self.the_family(),
    {
        match self {
            SocketAddr::V4 { .. } => Family::V4,
            SocketAddr::V6 { .. } => Family::V6,
        }
    }
}

/// Where a peer can be reached: at an address of its own, or through an agent that knows it by
/// its outer address.
#[derive(Clone, Copy, Debug, PartialEq, Eq, Structural)]
pub enum EndpointAddr {
    Direct { addr: SocketAddr },
    Mediate { agent: SocketAddr, outer: SocketAddr },
}

#[derive(Clone, Copy, Debug, PartialEq, Eq, Structural)]
pub struct Pathway {
    pub local: EndpointAddr,
    pub remote: EndpointAddr,
}

impl Pathway {
    pub open spec fn flipped(self) -> Pathway {
        Pathway { local: self.remote, remote: self.local }
    }
}

#[derive(Clone, Copy, Debug, PartialEq, Eq, Structural)]
pub struct Link {
    pub src: SocketAddr,
    pub dst: SocketAddr,
}

/// What a socket is bound to: an address, or a port on a device that the caller knows by number.
#[derive(Clone, Copy, Debug, PartialEq, Eq, Structural)]
pub enum BindUri {
    Inet(SocketAddr),
    Iface { family: Family, device: u64, port: u16 },
}

impl BindUri {
    pub open spec fn the_family(self) -> Family {
        match self {
            BindUri::Inet(addr) => addr.the_family(),
            BindUri::Iface { family, .. } => family,
        }
    }

    pub fn family(self) -> (family: Family)
        ensures
            family == self.the_family(),
    {
        match self {
            BindUri::Inet(addr) => addr.family(),
            BindUri::Iface { family, .. } => family,
        }
    }
}

/// A pathway that is turned around leads back.
pub proof fn flipped_pathway_leads_back(pathway: Pathway)
    ensures
        pathway.flipped().local == pathway.remote,
        pathway.flipped().remote == pathway.local,
        pathway.flipped().flipped() == pathway,
{
}

/// What an address and a bind are made of can be read from them.
pub proof fn addresses_are_read_by_their_parts(ip4: Ipv4Addr, ip6: Ipv6Addr, port: u16, flowinfo: u32, scope_id: u32, device: u64, family: Family)
    ensures
        ({
            let four = SocketAddr::V4 { ip: ip4, port };
            let six = SocketAddr::V6 { ip: ip6, port, flowinfo, scope_id };
            &&& four.the_ip() == IpAddr::V4(ip4) && six.the_ip() == IpAddr::V6(ip6)
            &&& four.the_port() == port && six.the_port() == port
            &&& four.the_family() == Family::V4 && six.the_family() == Family::V6
            &&& BindUri::Inet(four).the_family() == Family::V4 && BindUri::Inet(six).the_family() == Family::V6
            &&& (BindUri::Iface { family, device, port }).the_family() == family
        }),
{
}

} // verus!
