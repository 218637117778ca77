//! A lookup table kept in a map of the dashmap crate.
//!
//! Keys are tuples of integers, so that what counts as the same key is what std documents for
//! tuples and integers.
use vstd::prelude::*;

use crate::base::addr::{BindUri, EndpointAddr, Family, Ipv4Addr, Ipv6Addr, SocketAddr};
use crate::base::cid::{ConnectionId, MAX_CID_SIZE};

verus! {

#[verifier::external_type_specification]
#[verifier::external_body]
#[verifier::reject_recursive_types(K)]
#[verifier::reject_recursive_types(V)]
#[verifier::reject_recursive_types(S)]
pub struct ExDashMap<K, V, S>(dashmap::DashMap<K, V, S>);

pub type TableKey = (u64, u128, u128, u64, u128, u128);

/// What a map holds.
pub uninterp spec fn held(store: dashmap::DashMap<TableKey, u64>) -> Map<TableKey, u64>;

pub open spec fn no_entries() -> Map<TableKey, u64> {
    Map::empty()
}

/// `dashmap::DashMap::new`: a map that holds nothing.
#[verifier::external_body]
fn new_map() -> (store: dashmap::DashMap<TableKey, u64>)
    ensures
        held(store) == no_entries(),
{
    dashmap::DashMap::new()
}

/// `dashmap::DashMap::insert`: puts a value under a key and returns the one that was there. The
/// map is borrowed for the call, so that nobody else changes it meanwhile.
#[verifier::external_body]
fn map_insert(store: &mut dashmap::DashMap<TableKey, u64>, key: TableKey, value: u64) -> (before: Option<u64>)
    ensures
        held(*final(store)) == held(*old(store)).insert(key, value),
        before == if held(*old(store)).dom().contains(key) {
            Some(held(*old(store))[key])
        } else {
            None
        },
{
    store.insert(key, value)
}

/// `dashmap::DashMap::get`: the value under a key.
#[verifier::external_body]
fn map_get(store: &dashmap::DashMap<TableKey, u64>, key: TableKey) -> (value: Option<u64>)
    ensures
        value == if held(*store).dom().contains(key) {
            Some(held(*store)[key])
        } else {
            None
        },
{
    store.get(&key).map(|found| *found)
}

/// `dashmap::DashMap::remove`: takes a key and its value out and returns the value.
#[verifier::external_body]
fn map_remove(store: &mut dashmap::DashMap<TableKey, u64>, key: TableKey) -> (value: Option<u64>)
    ensures
        held(*final(store)) == held(*old(store)).remove(key),
        value == if held(*old(store)).dom().contains(key) {
            Some(held(*old(store))[key])
        } else {
            None
        },
{
    store.remove(&key).map(|found| found.1)
}

fn same_value(found: u64, value: u64) -> (same: bool)
    ensures
        same == (found == value),
{
    found == value
}

/// `dashmap::DashMap::remove_if`: takes a key out if the value under it is `value`, and says
/// whether it did.
#[verifier::external_body]
fn map_remove_if(store: &mut dashmap::DashMap<TableKey, u64>, key: TableKey, value: u64) -> (removed: bool)
    ensures
        removed == (held(*old(store)).dom().contains(key) && held(*old(store))[key] == value),
        held(*final(store)) == if removed {
            held(*old(store)).remove(key)
        } else {
            held(*old(store))
        },
{
    store.remove_if(&key, |_, found| same_value(*found, value)).is_some()
}

fn other_value(found: u64, value: u64) -> (other: bool)
    ensures
        other == (found != value),
{
    found != value
}

/// A map without the keys of a value.
pub open spec fn without_value(map: Map<TableKey, u64>, value: u64) -> Map<TableKey, u64> {
    Map::new(|key: TableKey| map.dom().contains(key) && map[key] != value, |key: TableKey| map[key])
}

/// `dashmap::DashMap::retain`: keeps the entries that the function it is handed asks to keep, here
/// those whose value is not `value`.
#[verifier::external_body]
fn map_retain(store: &mut dashmap::DashMap<TableKey, u64>, value: u64)
    ensures
        held(*final(store)) == without_value(held(*old(store)), value),
{
    store.retain(|_, found| other_value(*found, value))
}

/// A table from keys to numbers of the caller's.
pub struct Table {
    map: dashmap::DashMap<TableKey, u64>,
}

impl Table {
    pub closed spec fn view(&self) -> Map<TableKey, u64> {
        held(self.map)
    }

    pub open spec fn at(&self, key: TableKey) -> Option<u64> {
        if self.view().dom().contains(key) {
            Some(self.view()[key])
        } else {
            None
        }
    }

    pub fn new() -> (table: Table)
        ensures
            table.view() == no_entries(),
    {
        Table { map: new_map() }
    }

    pub fn insert(&mut self, key: TableKey, value: u64) -> (before: Option<u64>)
        ensures
            final(self).view() == old(self).view().insert(key, value),
            before == old(self).at(key),
    {
        map_insert(&mut self.map, key, value)
    }

    pub fn get(&self, key: TableKey) -> (value: Option<u64>)
        ensures
            value == self.at(key),
    {
        map_get(&self.map, key)
    }

    pub fn remove(&mut self, key: TableKey) -> (value: Option<u64>)
        ensures
            final(self).view() == old(self).view().remove(key),
            value == old(self).at(key),
    {
        map_remove(&mut self.map, key)
    }

    /// Takes a key out only if its value is `value`.
    pub fn remove_if(&mut self, key: TableKey, value: u64) -> (removed: bool)
        ensures
            removed == (old(self).at(key) == Some(value)),
            final(self).view() == if removed { old(self).view().remove(key) } else { old(self).view() },
    {
        map_remove_if(&mut self.map, key, value)
    }

    /// Takes out every key whose value is `value`.
    pub fn remove_value(&mut self, value: u64)
        ensures
            final(self).view() == without_value(old(self).view(), value),
    {
        map_retain(&mut self.map, value)
    }
}

#[verifier::opaque]
pub open spec fn pack4(a: u16, b: u16, c: u16, d: u16) -> int {
    a * 0x1_0000_0000_0000 + b * 0x1_0000_0000 + c * 0x1_0000 + d
}

proof fn lemma_pack4_injective(a: u16, b: u16, c: u16, d: u16, e: u16, f: u16, g: u16, h: u16)
    requires
        pack4(a, b, c, d) == pack4(e, f, g, h),
    ensures
        a == e && b == f && c == g && d == h,
{
    reveal(pack4);
}

/// The part of a key that stands for a socket address.
pub open spec fn addr_key(addr: SocketAddr) -> (u64, u128, u128) {
    match addr {
        SocketAddr::V4 { ip, port } => (
            100,
            (ip.a * 0x100_0000 + ip.b * 0x1_0000 + ip.c * 0x100 + ip.d) as u128,
            port as u128,
        ),
        SocketAddr::V6 { ip, port, flowinfo, scope_id } => (
            101,
            (pack4(ip.s0, ip.s1, ip.s2, ip.s3) * 0x1_0000_0000_0000_0000 + pack4(ip.s4, ip.s5, ip.s6, ip.s7)) as u128,
            (port * 0x1_0000_0000_0000_0000 + flowinfo * 0x1_0000_0000 + scope_id) as u128,
        ),
    }
}

pub fn addr_part(addr: SocketAddr) -> (part: (u64, u128, u128))
    ensures
        part == addr_key(addr),
{
    match addr {
        SocketAddr::V4 { ip, port } => (
            100,
            ip.a as u128 * 0x100_0000 + ip.b as u128 * 0x1_0000 + ip.c as u128 * 0x100 + ip.d as u128,
            port as u128,
        ),
        SocketAddr::V6 { ip, port, flowinfo, scope_id } => {
            proof {
                reveal(pack4);
            }
            let high: u128 = ip.s0 as u128 * 0x1_0000_0000_0000 + ip.s1 as u128 * 0x1_0000_0000 + ip.s2 as u128 * 0x1_0000
                + ip.s3 as u128;
            let low: u128 = ip.s4 as u128 * 0x1_0000_0000_0000 + ip.s5 as u128 * 0x1_0000_0000 + ip.s6 as u128 * 0x1_0000
                + ip.s7 as u128;
            (
                101,
                high * 0x1_0000_0000_0000_0000 + low,
                port as u128 * 0x1_0000_0000_0000_0000 + flowinfo as u128 * 0x1_0000_0000 + scope_id as u128,
            )
        },
    }
}

proof fn lemma_pack4_bounded(a: u16, b: u16, c: u16, d: u16)
    ensures
        0 <= pack4(a, b, c, d) < 0x1_0000_0000_0000_0000,
{
    reveal(pack4);
}

proof fn lemma_halves(high: int, low: int, other_high: int, other_low: int)
    requires
        0 <= low < 0x1_0000_0000_0000_0000,
        0 <= other_low < 0x1_0000_0000_0000_0000,
        high * 0x1_0000_0000_0000_0000 + low == other_high * 0x1_0000_0000_0000_0000 + other_low,
    ensures
        high == other_high,
        low == other_low,
{
}

proof fn lemma_tail_injective(port: u16, flow: u32, scope: u32, other_port: u16, other_flow: u32, other_scope: u32)
    requires
        port * 0x1_0000_0000_0000_0000 + flow * 0x1_0000_0000 + scope == other_port * 0x1_0000_0000_0000_0000 + other_flow
            * 0x1_0000_0000 + other_scope,
    ensures
        port == other_port,
        flow == other_flow,
        scope == other_scope,
{
}

proof fn lemma_v4_injective(left: Ipv4Addr, right: Ipv4Addr)
    requires
        left.a * 0x100_0000 + left.b * 0x1_0000 + left.c * 0x100 + left.d == right.a * 0x100_0000 + right.b * 0x1_0000
            + right.c * 0x100 + right.d,
    ensures
        left == right,
{
}

proof fn lemma_v6_injective(left: Ipv6Addr, right: Ipv6Addr)
    requires
        pack4(left.s0, left.s1, left.s2, left.s3) * 0x1_0000_0000_0000_0000 + pack4(left.s4, left.s5, left.s6, left.s7)
            == pack4(right.s0, right.s1, right.s2, right.s3) * 0x1_0000_0000_0000_0000 + pack4(
            right.s4,
            right.s5,
            right.s6,
            right.s7,
        ),
    ensures
        left == right,
{
    lemma_pack4_bounded(left.s4, left.s5, left.s6, left.s7);
    lemma_pack4_bounded(right.s4, right.s5, right.s6, right.s7);
    lemma_halves(
        pack4(left.s0, left.s1, left.s2, left.s3),
        pack4(left.s4, left.s5, left.s6, left.s7),
        pack4(right.s0, right.s1, right.s2, right.s3),
        pack4(right.s4, right.s5, right.s6, right.s7),
    );
    lemma_pack4_injective(left.s0, left.s1, left.s2, left.s3, right.s0, right.s1, right.s2, right.s3);
    lemma_pack4_injective(left.s4, left.s5, left.s6, left.s7, right.s4, right.s5, right.s6, right.s7);
}

proof fn lemma_addr_key_injective(left: SocketAddr, right: SocketAddr)
    requires
        addr_key(left) == addr_key(right),
    ensures
        left == right,
{
    match (left, right) {
        (SocketAddr::V4 { ip: a, .. }, SocketAddr::V4 { ip: b, .. }) => {
            lemma_v4_injective(a, b);
        },
        (
            SocketAddr::V6 { ip: a, port: p, flowinfo: f, scope_id: s },
            SocketAddr::V6 { ip: b, port: q, flowinfo: g, scope_id: t },
        ) => {
            lemma_pack4_bounded(a.s0, a.s1, a.s2, a.s3);
            lemma_pack4_bounded(a.s4, a.s5, a.s6, a.s7);
            lemma_pack4_bounded(b.s0, b.s1, b.s2, b.s3);
            lemma_pack4_bounded(b.s4, b.s5, b.s6, b.s7);
            let left_head = pack4(a.s0, a.s1, a.s2, a.s3) * 0x1_0000_0000_0000_0000 + pack4(a.s4, a.s5, a.s6, a.s7);
            let right_head = pack4(b.s0, b.s1, b.s2, b.s3) * 0x1_0000_0000_0000_0000 + pack4(b.s4, b.s5, b.s6, b.s7);
            assert(left_head as u128 == right_head as u128);
            lemma_v6_injective(a, b);
            lemma_tail_injective(p, f, s, q, g, t);
        },
        _ => {},
    }
}

/// The part of a key that stands for what a socket is bound to.
pub open spec fn bind_key(bind: BindUri) -> (u64, u128, u128) {
    match bind {
        BindUri::Inet(addr) => addr_key(addr),
        BindUri::Iface { family: Family::V4, device, port } => (200, device as u128, port as u128),
        BindUri::Iface { family: Family::V6, device, port } => (201, device as u128, port as u128),
    }
}

pub fn bind_part(bind: BindUri) -> (part: (u64, u128, u128))
    ensures
        part == bind_key(bind),
{
    match bind {
        BindUri::Inet(addr) => addr_part(addr),
        BindUri::Iface { family: Family::V4, device, port } => (200, device as u128, port as u128),
        BindUri::Iface { family: Family::V6, device, port } => (201, device as u128, port as u128),
    }
}

/// Different addresses and different binds have different parts of keys.
pub proof fn parts_are_distinct(addr: SocketAddr, other_addr: SocketAddr, bind: BindUri, other_bind: BindUri)
    ensures
        addr_key(addr) == addr_key(other_addr) ==> addr == other_addr,
        bind_key(bind) == bind_key(other_bind) ==> bind == other_bind,
        addr_key(addr).0 == 100 || addr_key(addr).0 == 101,
{
    if addr_key(addr) == addr_key(other_addr) {
        lemma_addr_key_injective(addr, other_addr);
    }
    if bind_key(bind) == bind_key(other_bind) {
        match (bind, other_bind) {
            (BindUri::Inet(left), BindUri::Inet(right)) => {
                lemma_addr_key_injective(left, right);
            },
            _ => {},
        }
    }
}

/// The key of a connection ID.
pub open spec fn cid_key(cid: ConnectionId) -> TableKey {
    (cid.len as u64, cid.head, cid.tail, 0, 0, 0)
}

/// The key of a peer's address.
pub open spec fn peer_key(peer: SocketAddr) -> TableKey {
    let (kind, head, tail) = addr_key(peer);
    (kind, head, tail, 0, 0, 0)
}

/// What sets the keys of mediated endpoints apart from those of direct ones, and after them.
pub const MEDIATED: u64 = 1000;

/// The key of an endpoint.
pub open spec fn endpoint_key(endpoint: EndpointAddr) -> TableKey {
    match endpoint {
        EndpointAddr::Direct { addr } => peer_key(addr),
        EndpointAddr::Mediate { agent, outer } => {
            let (kind, head, tail) = addr_key(agent);
            let (outer_kind, outer_head, outer_tail) = addr_key(outer);
            ((kind + MEDIATED) as u64, head, tail, outer_kind, outer_head, outer_tail)
        },
    }
}

pub fn key_of_cid(cid: ConnectionId) -> (key: TableKey)
    ensures
        key == cid_key(cid),
{
    (cid.len as u64, cid.head, cid.tail, 0, 0, 0)
}

pub fn key_of_peer(peer: SocketAddr) -> (key: TableKey)
    ensures
        key == peer_key(peer),
{
    let (kind, head, tail) = addr_part(peer);
    (kind, head, tail, 0, 0, 0)
}

pub fn key_of_endpoint(endpoint: EndpointAddr) -> (key: TableKey)
    ensures
        key == endpoint_key(endpoint),
{
    match endpoint {
        EndpointAddr::Direct { addr } => key_of_peer(addr),
        EndpointAddr::Mediate { agent, outer } => {
            let (kind, head, tail) = addr_part(agent);
            let (outer_kind, outer_head, outer_tail) = addr_part(outer);
            (kind + MEDIATED, head, tail, outer_kind, outer_head, outer_tail)
        },
    }
}

/// Different connection IDs, addresses and endpoints have different keys.
pub proof fn keys_are_distinct(
    cid: ConnectionId,
    other_cid: ConnectionId,
    peer: SocketAddr,
    other_peer: SocketAddr,
    endpoint: EndpointAddr,
    other_endpoint: EndpointAddr,
)
    requires
        cid.len <= MAX_CID_SIZE,
    ensures
        cid_key(cid) == cid_key(other_cid) ==> cid == other_cid,
        cid_key(cid) != peer_key(peer),
        peer_key(peer) == peer_key(other_peer) ==> peer == other_peer,
        endpoint_key(endpoint) == endpoint_key(other_endpoint) ==> endpoint == other_endpoint,
{
    if peer_key(peer) == peer_key(other_peer) {
        lemma_addr_key_injective(peer, other_peer);
    }
    if endpoint_key(endpoint) == endpoint_key(other_endpoint) {
        match (endpoint, other_endpoint) {
            (EndpointAddr::Direct { addr: left }, EndpointAddr::Direct { addr: right }) => {
                lemma_addr_key_injective(left, right);
            },
            (
                EndpointAddr::Mediate { agent: left, outer: left_outer },
                EndpointAddr::Mediate { agent: right, outer: right_outer },
            ) => {
                lemma_addr_key_injective(left, right);
                lemma_addr_key_injective(left_outer, right_outer);
            },
            _ => {},
        }
    }
}

/// A key leads to the value that it was entered with, and to nothing where it was not.
pub proof fn values_are_found_by_their_key(table: Table, key: TableKey, value: u64)
    ensures
        table.at(key) == Some(value) <==> table.view().dom().contains(key) && table.view()[key] == value,
        table.at(key) is None <==> !table.view().dom().contains(key),
        no_entries() == Map::<TableKey, u64>::empty(),
{
}

/// Exactly the keys of a value are gone without it.
pub proof fn only_keys_of_the_value_are_gone(map: Map<TableKey, u64>, value: u64, key: TableKey)
    ensures
        without_value(map, value).dom().contains(key) <==> map.dom().contains(key) && map[key] != value,
        without_value(map, value).dom().contains(key) ==> without_value(map, value)[key] == map[key],
{
}

} // verus!
