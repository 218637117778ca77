//! Which connection a packet belongs to.
use vstd::prelude::*;

use crate::base::addr::{Link, SocketAddr};
use crate::base::cid::{ConnectionId, MAX_CID_SIZE};
use crate::base::table::{
    cid_key, key_of_cid, key_of_peer, keys_are_distinct, no_entries, peer_key, Table, TableKey,
};
use crate::transport::assembly::PacketType;
use crate::transport::channel::WirePacket;

verus! {

/// What connections are found by: a connection ID, or the peer's address where the ID is empty.
#[derive(Clone, Copy, Debug, PartialEq, Eq, Structural)]
pub struct Signpost {
    pub cid: ConnectionId,
    pub peer: Option<SocketAddr>,
}

impl Signpost {
    pub open spec fn of_cid(cid: ConnectionId) -> Signpost {
        Signpost { cid, peer: None }
    }

    pub open spec fn of_peer(peer: SocketAddr) -> Signpost {
        Signpost { cid: ConnectionId { len: 0, head: 0, tail: 0 }, peer: Some(peer) }
    }

    /// The key of a signpost in the table.
    pub open spec fn key(self) -> TableKey {
        match self.peer {
            Some(peer) => peer_key(peer),
            None => cid_key(self.cid),
        }
    }

    /// Whether the signpost is one that connections are found by.
    pub open spec fn wf(self) -> bool {
        match self.peer {
            Some(_) => self.cid == (ConnectionId { len: 0, head: 0, tail: 0 }),
            None => self.cid.len <= MAX_CID_SIZE,
        }
    }

    pub fn from_cid(cid: ConnectionId) -> (signpost: Signpost)
        ensures
            signpost == Signpost::of_cid(cid),
    {
        Signpost { cid, peer: None }
    }

    pub fn from_peer(peer: SocketAddr) -> (signpost: Signpost)
        ensures
            signpost == Signpost::of_peer(peer),
    {
        Signpost { cid: ConnectionId { len: 0, head: 0, tail: 0 }, peer: Some(peer) }
    }

    fn table_key(self) -> (key: TableKey)
        ensures
            key == self.key(),
    {
        match self.peer {
            Some(peer) => key_of_peer(peer),
            None => key_of_cid(self.cid),
        }
    }
}

/// The destination connection ID of a packet.
pub open spec fn dcid_of(packet: WirePacket) -> ConnectionId {
    match packet {
        WirePacket::VersionNegotiation { dcid } => dcid,
        WirePacket::Retry { dcid } => dcid,
        WirePacket::Data(packet) => packet.header.dcid,
    }
}

/// What the connection of a packet is found by.
pub open spec fn signpost_of(packet: WirePacket, link: Link) -> Signpost {
    if dcid_of(packet).len == 0 {
        Signpost::of_peer(link.dst)
    } else {
        Signpost::of_cid(dcid_of(packet))
    }
}

/// Where a packet goes.
#[derive(Clone, Copy, Debug, PartialEq, Eq, Structural)]
pub enum Delivery {
    /// To the inbox of a connection.
    Inbox(u64),
    /// To whoever accepts connections.
    Incoming,
    /// Nowhere.
    Dropped,
}

/// The connections that packets can be delivered to, by the numbers of their inboxes.
pub struct QuicRouter {
    pub table: Table,
}

/// A route for as long as it is kept.
#[derive(Clone, Copy, Debug, PartialEq, Eq, Structural)]
pub struct QuicRouterEntry {
    pub signpost: Signpost,
    pub inbox: u64,
}

impl QuicRouter {
    /// The inbox that a signpost leads to.
    pub open spec fn route(&self, signpost: Signpost) -> Option<u64> {
        self.table.at(signpost.key())
    }

    /// Where a packet goes.
    pub open spec fn delivery(&self, packet: WirePacket, link: Link) -> Delivery {
        match self.route(signpost_of(packet, link)) {
            Some(inbox) => Delivery::Inbox(inbox),
            None => match packet {
                WirePacket::Data(packet) if packet.header.packet_type == PacketType::Initial => Delivery::Incoming,
                _ => Delivery::Dropped,
            },
        }
    }

    /// Whether a signpost was made to lead to an inbox.
    pub open spec fn gains(&self, after: &QuicRouter, signpost: Signpost, inbox: u64) -> bool {
        after.table.view() == self.table.view().insert(signpost.key(), inbox)
    }

    /// Whether a signpost was made to lead nowhere.
    pub open spec fn loses(&self, after: &QuicRouter, signpost: Signpost) -> bool {
        after.table.view() == self.table.view().remove(signpost.key())
    }

    pub fn new() -> (router: QuicRouter)
        ensures
            router.table.view() == no_entries(),
    {
        QuicRouter { table: Table::new() }
    }

    /// Makes a signpost lead to an inbox, wherever it led before.
    pub fn insert(&mut self, signpost: Signpost, inbox: u64) -> (entry: QuicRouterEntry)
        ensures
            old(self).gains(final(self), signpost, inbox),
            entry == (QuicRouterEntry { signpost, inbox }),
    {
        let _ = self.table.insert(signpost.table_key(), inbox);
        QuicRouterEntry { signpost, inbox }
    }

    /// Makes a signpost lead nowhere.
    pub fn remove(&mut self, signpost: Signpost)
        ensures
            old(self).loses(final(self), signpost),
    {
        let _ = self.table.remove(signpost.table_key());
    }

    /// What the connection of a packet is found by.
    pub fn signpost(packet: &WirePacket, link: &Link) -> (signpost: Signpost)
        ensures
            signpost == signpost_of(*packet, *link),
    {
        let dcid = match packet {
            WirePacket::VersionNegotiation { dcid } => *dcid,
            WirePacket::Retry { dcid } => *dcid,
            WirePacket::Data(packet) => packet.header.dcid,
        };
        if dcid.len == 0 {
            Signpost::from_peer(link.dst)
        } else {
            Signpost::from_cid(dcid)
        }
    }

    /// The inbox of the connection that a packet belongs to.
    pub fn find_entry(&self, packet: &WirePacket, link: &Link) -> (inbox: Option<u64>)
        ensures
            inbox == self.route(signpost_of(*packet, *link)),
    {
        self.table.get(QuicRouter::signpost(packet, link).table_key())
    }

    /// Decides where a packet goes. Of the packets of no connection, only an Initial can start one.
    pub fn deliver(&self, packet: &WirePacket, link: &Link) -> (delivery: Delivery)
        ensures
            delivery == self.delivery(*packet, *link),
    {
        if let Some(inbox) = self.find_entry(packet, link) {
            return Delivery::Inbox(inbox);
        }
        match packet {
            WirePacket::Data(packet) => match packet.header.packet_type {
                PacketType::Initial => Delivery::Incoming,
                _ => Delivery::Dropped,
            },
            _ => Delivery::Dropped,
        }
    }

    /// Issues connection IDs that lead to an inbox.
    pub fn registry_on_issuing_scid(&self, inbox: u64) -> (registry: QuicRouterRegistry)
        ensures
            registry == (QuicRouterRegistry { inbox }),
    {
        QuicRouterRegistry { inbox }
    }

    /// Issues a connection ID for an inbox, unless the ID is in use.
    pub fn claim_cid(&mut self, cid: ConnectionId, inbox: u64) -> (claimed: bool)
        ensures
            claimed == old(self).route(Signpost::of_cid(cid)) is None,
            if claimed {
                old(self).gains(final(self), Signpost::of_cid(cid), inbox)
            } else {
                final(self).table.view() == old(self).table.view()
            },
    {
        let key = Signpost::from_cid(cid).table_key();
        if self.table.get(key).is_some() {
            return false;
        }
        let _ = self.table.insert(key, inbox);
        true
    }

    /// Ends the use of a connection ID.
    pub fn retire_cid(&mut self, cid: ConnectionId)
        ensures
            old(self).loses(final(self), Signpost::of_cid(cid)),
    {
        self.remove(Signpost::from_cid(cid));
    }
}

/// Issues connection IDs for one connection.
#[derive(Clone, Copy, Debug, PartialEq, Eq, Structural)]
pub struct QuicRouterRegistry {
    pub inbox: u64,
}

/// Whether `index` is the first of the drawn IDs that is not in use.
pub open spec fn first_free(router: &QuicRouter, drawn: Seq<ConnectionId>, index: int) -> bool {
    &&& 0 <= index < drawn.len()
    &&& router.route(Signpost::of_cid(drawn[index])) is None
    &&& forall|earlier: int|
        #![trigger drawn[earlier]]
        0 <= earlier < index ==> router.route(Signpost::of_cid(drawn[earlier])) is Some
}

impl QuicRouterRegistry {
    /// Issues the first of the drawn IDs that is not in use. Where all are, more must be drawn.
    pub fn gen_unique_cid(&self, router: &mut QuicRouter, drawn: &Vec<ConnectionId>) -> (cid: Option<ConnectionId>)
        ensures
            match cid {
                Some(cid) => {
                    &&& exists|index: int| #[trigger] first_free(old(router), drawn@, index) && drawn@[index] == cid
                    &&& old(router).gains(final(router), Signpost::of_cid(cid), self.inbox)
                },
                None => {
                    &&& forall|index: int|
                        #![trigger drawn@[index]]
                        0 <= index < drawn@.len() ==> old(router).route(Signpost::of_cid(drawn@[index])) is Some
                    &&& final(router).table.view() == old(router).table.view()
                },
            },
    {
        let mut at: usize = 0;
        while at < drawn.len()
            invariant
                at <= drawn@.len(),
                router.table.view() == old(router).table.view(),
                forall|earlier: int|
                    #![trigger drawn@[earlier]]
                    0 <= earlier < at ==> old(router).route(Signpost::of_cid(drawn@[earlier])) is Some,
            decreases drawn@.len() - at,
        {
            if router.claim_cid(drawn[at], self.inbox) {
                assert(first_free(old(router), drawn@, at as int));
                return Some(drawn[at]);
            }
            at = at + 1;
        }
        None
    }

    /// Ends the use of a connection ID.
    pub fn retire_cid(&self, router: &mut QuicRouter, cid: ConnectionId)
        ensures
            old(router).loses(final(router), Signpost::of_cid(cid)),
    {
        router.retire_cid(cid);
    }
}

impl QuicRouterEntry {
    pub fn signpost(&self) -> (signpost: Signpost)
        ensures
            signpost == self.signpost,
    {
        self.signpost
    }

    pub fn inbox(&self) -> (inbox: u64)
        ensures
            inbox == self.inbox,
    {
        self.inbox
    }

    /// Ends the route, if it still leads to the same inbox.
    pub fn remove(&self, router: &mut QuicRouter)
        ensures
            if old(router).route(self.signpost) == Some(self.inbox) {
                old(router).loses(final(router), self.signpost)
            } else {
                final(router).table.view() == old(router).table.view()
            },
    {
        let _ = router.table.remove_if(self.signpost.table_key(), self.inbox);
    }
}

/// Different signposts lead to their inboxes independently.
pub proof fn signposts_are_independent(left: Signpost, right: Signpost)
    requires
        left.wf(),
        right.wf(),
        left != right,
    ensures
        left.key() != right.key(),
{
    let left_peer = match left.peer {
        Some(peer) => peer,
        None => arbitrary(),
    };
    let right_peer = match right.peer {
        Some(peer) => peer,
        None => arbitrary(),
    };
    keys_are_distinct(left.cid, right.cid, left_peer, right_peer, arbitrary(), arbitrary());
    keys_are_distinct(left.cid, right.cid, right_peer, left_peer, arbitrary(), arbitrary());
    keys_are_distinct(right.cid, left.cid, left_peer, right_peer, arbitrary(), arbitrary());
}

/// Ending a route that was replaced leaves the replacement in place.
pub proof fn old_entry_cannot_remove_a_replacement(
    before: QuicRouter,
    replaced: QuicRouter,
    after: QuicRouter,
    old_entry: QuicRouterEntry,
    replacement: u64,
)
    requires
        before.gains(&replaced, old_entry.signpost, replacement),
        replacement != old_entry.inbox,
        if replaced.route(old_entry.signpost) == Some(old_entry.inbox) {
            replaced.loses(&after, old_entry.signpost)
        } else {
            after.table.view() == replaced.table.view()
        },
    ensures
        after.route(old_entry.signpost) == Some(replacement),
{
}

/// A connection ID that was issued routes to its inbox, and is not issued again until it is retired.
pub proof fn issued_cids_are_unique(before: QuicRouter, after: QuicRouter, cid: ConnectionId, inbox: u64)
    requires
        before.route(Signpost::of_cid(cid)) is None,
        before.gains(&after, Signpost::of_cid(cid), inbox),
    ensures
        after.route(Signpost::of_cid(cid)) == Some(inbox),
{
}

/// Whether a packet is addressed to a connection ID.
pub open spec fn addressed_to(packet: WirePacket, cid: ConnectionId) -> bool {
    ||| packet == (WirePacket::VersionNegotiation { dcid: cid })
    ||| packet == (WirePacket::Retry { dcid: cid })
    ||| packet matches WirePacket::Data(data) && data.header.dcid == cid
}

/// Once a connection ID leads to an inbox, every packet that is addressed to it goes there, of whatever type
/// and by whatever link; and every packet that is addressed to another ID goes where it went before.
pub proof fn packets_follow_their_connection_id(
    before: QuicRouter,
    after: QuicRouter,
    cid: ConnectionId,
    inbox: u64,
    packet: WirePacket,
    to: ConnectionId,
    link: Link,
)
    requires
        before.gains(&after, Signpost::of_cid(cid), inbox),
        0 < cid.len <= MAX_CID_SIZE,
        0 < to.len <= MAX_CID_SIZE,
        addressed_to(packet, to),
    ensures
        after.delivery(packet, link) == if to == cid {
            Delivery::Inbox(inbox)
        } else {
            before.delivery(packet, link)
        },
{
    if to != cid {
        signposts_are_independent(Signpost::of_cid(cid), Signpost::of_cid(to));
    }
}

/// Once the address of a peer leads to an inbox, every packet without a connection ID that is exchanged with
/// that peer goes there, and every other such packet goes where it went before.
pub proof fn packets_without_id_follow_the_peer(
    before: QuicRouter,
    after: QuicRouter,
    peer: SocketAddr,
    inbox: u64,
    packet: WirePacket,
    to: ConnectionId,
    link: Link,
)
    requires
        before.gains(&after, Signpost::of_peer(peer), inbox),
        to.len == 0,
        addressed_to(packet, to),
    ensures
        after.delivery(packet, link) == if link.dst == peer {
            Delivery::Inbox(inbox)
        } else {
            before.delivery(packet, link)
        },
{
    if link.dst != peer {
        signposts_are_independent(Signpost::of_peer(peer), Signpost::of_peer(link.dst));
    }
}

/// Once a signpost leads nowhere, a packet that it pointed out starts a connection if it is an Initial, and is
/// dropped otherwise; packets that are addressed to another ID go where they went before.
pub proof fn packets_of_no_connection(
    before: QuicRouter,
    after: QuicRouter,
    cid: ConnectionId,
    packet: WirePacket,
    to: ConnectionId,
    link: Link,
)
    requires
        before.loses(&after, Signpost::of_cid(cid)),
        0 < cid.len <= MAX_CID_SIZE,
        0 < to.len <= MAX_CID_SIZE,
        addressed_to(packet, to),
    ensures
        to == cid ==> (after.delivery(packet, link) == Delivery::Incoming <==> (packet matches WirePacket::Data(data)
            && data.header.packet_type is Initial)),
        to == cid ==> (after.delivery(packet, link) == Delivery::Dropped <==> !(packet matches WirePacket::Data(data)
            && data.header.packet_type is Initial)),
        to != cid ==> after.delivery(packet, link) == before.delivery(packet, link),
{
    if to != cid {
        signposts_are_independent(Signpost::of_cid(cid), Signpost::of_cid(to));
    }
}

/// A router that nothing was told leads nowhere: only an Initial is taken.
pub proof fn empty_router_takes_initials(router: QuicRouter, packet: WirePacket, link: Link)
    requires
        router.table.view() == no_entries(),
    ensures
        router.delivery(packet, link) == if packet matches WirePacket::Data(data) && data.header.packet_type is Initial {
            Delivery::Incoming
        } else {
            Delivery::Dropped
        },
{
}

/// An ID is issued only if no connection is found by it; of those drawn, the first such one.
pub proof fn issued_id_was_free(router: &QuicRouter, drawn: Seq<ConnectionId>, index: int)
    ensures
        first_free(router, drawn, index) <==> {
            &&& 0 <= index < drawn.len()
            &&& router.table.at(cid_key(drawn[index])) is None
            &&& forall|earlier: int|
                #![trigger drawn[earlier]]
                0 <= earlier < index ==> router.table.at(cid_key(drawn[earlier])) is Some
        },
{
}

} // verus!
