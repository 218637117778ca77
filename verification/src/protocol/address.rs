//! The endpoints under which this host can be reached, and who publishes which.
use vstd::prelude::*;

use crate::base::addr::{EndpointAddr, SocketAddr};
use crate::base::cid::ConnectionId;
use crate::base::sorted::{ascending, key_before, SortedTable};
use crate::base::table::{endpoint_key, key_of_endpoint, keys_are_distinct, TableKey};

verus! {

/// How many endpoints behind agents one UDP socket can publish.
pub const MAX_AGENTS: usize = 3;

/// Why an endpoint is not entered.
#[derive(Clone, Copy, Debug, PartialEq, Eq, Structural)]
pub enum AddressBookError {
    /// The address that the socket is bound to is not known.
    Io,
    Duplicate(EndpointAddr),
    ExpectedDirect,
    ExpectedMediate,
    TooManyAgents,
}

/// A socket in the book: the UDP socket it is on, by the caller's number, and the address that one is
/// bound to, if it can be found out.
#[derive(Clone, Copy, Debug, PartialEq, Eq, Structural)]
pub struct BookedSocket {
    pub udp: u64,
    pub endpoint: EndpointAddr,
    pub bound: Option<SocketAddr>,
}

/// Inner endpoints, which neighbours learn of; outer ones and those behind agents, which everybody
/// can.
pub struct AddressBook {
    pub inner: SortedTable<BookedSocket>,
    pub outer: SortedTable<BookedSocket>,
    pub agents: SortedTable<BookedSocket>,
}

/// Whether every socket stands under its endpoint, and all of these are direct or all mediated.
pub open spec fn booked(table: SortedTable<BookedSocket>, direct: bool) -> bool {
    &&& table.wf()
    &&& forall|i: int|
        #![trigger table.values@[i]]
        0 <= i < table.values@.len() ==> table.keys@[i] == endpoint_key(table.values@[i].endpoint)
            && table.values@[i].endpoint is Direct == direct
}

/// The same of a map.
pub open spec fn keyed(map: Map<TableKey, BookedSocket>, direct: bool) -> bool {
    forall|k: TableKey|
        #![trigger map[k]]
        map.dom().contains(k) ==> k == endpoint_key(map[k].endpoint) && map[k].endpoint is Direct == direct
}

proof fn lemma_booked(table: SortedTable<BookedSocket>, direct: bool)
    requires
        table.wf(),
    ensures
        booked(table, direct) <==> keyed(table.view(), direct),
{
    if booked(table, direct) {
        assert forall|k: TableKey| #![trigger table.view()[k]] table.view().dom().contains(k) implies k
            == endpoint_key(table.view()[k].endpoint) && table.view()[k].endpoint is Direct == direct by {
            let i = table.keys@.index_of(k);
            assert(table.keys@[i] == k);
            table.lemma_index(i);
            assert(table.values@[i] == table.view()[k]);
        }
    }
    if keyed(table.view(), direct) {
        assert forall|i: int| #![trigger table.values@[i]] 0 <= i < table.values@.len() implies table.keys@[i]
            == endpoint_key(table.values@[i].endpoint) && table.values@[i].endpoint is Direct == direct by {
            table.lemma_index(i);
            assert(table.view()[table.keys@[i]] == table.values@[i]);
        }
    }
}

/// How many sockets are on a UDP socket.
pub open spec fn on_udp(sockets: Seq<BookedSocket>, udp: u64) -> nat
    decreases sockets.len(),
{
    if sockets.len() == 0 {
        0
    } else {
        on_udp(sockets.drop_last(), udp) + if sockets.last().udp == udp {
            1nat
        } else {
            0
        }
    }
}

/// The endpoints of sockets, in order.
pub open spec fn endpoints_of(sockets: Seq<BookedSocket>) -> Seq<EndpointAddr> {
    sockets.map_values(|socket: BookedSocket| socket.endpoint)
}

/// The sockets that are bound to an address, in order.
pub open spec fn bound_to(sockets: Seq<BookedSocket>, bound: SocketAddr) -> Seq<BookedSocket> {
    sockets.filter(|socket: BookedSocket| socket.bound == Some(bound))
}

/// A map without the sockets that are on a UDP socket.
pub open spec fn off_udp(map: Map<TableKey, BookedSocket>, udp: u64) -> Map<TableKey, BookedSocket> {
    Map::new(|key: TableKey| map.dom().contains(key) && map[key].udp != udp, |key: TableKey| map[key])
}

fn drop_udp(table: &mut SortedTable<BookedSocket>, udp: u64)
    requires
        old(table).wf(),
    ensures
        final(table).wf(),
        final(table).view() == off_udp(old(table).view(), udp),
{
    let ghost start = *table;
    let mut kept: SortedTable<BookedSocket> = SortedTable::new();
    let mut at: usize = 0;
    while at < table.keys.len()
        invariant
            *table == start,
            start.wf(),
            kept.wf(),
            at <= start.keys@.len(),
            forall|k: TableKey|
                #![trigger kept.view().dom().contains(k)]
                kept.view().dom().contains(k) <==> exists|i: int|
                    #![trigger start.keys@[i]]
                    0 <= i < at && start.keys@[i] == k && start.values@[i].udp != udp,
            forall|k: TableKey|
                #![trigger kept.view()[k]]
                kept.view().dom().contains(k) ==> kept.view()[k] == start.view()[k],
        decreases start.keys@.len() - at,
    {
        let key = table.keys[at];
        let value = table.values[at];
        let ghost before = kept.view();
        proof {
            start.lemma_index(at as int);
        }
        if value.udp != udp {
            let _ = kept.insert(key, value);
        }
        proof {
            assert forall|k: TableKey| kept.view().dom().contains(k) <==> exists|i: int|
                #![trigger start.keys@[i]]
                0 <= i < at + 1 && start.keys@[i] == k && start.values@[i].udp != udp by {
                if before.dom().contains(k) {
                    let i = choose|i: int|
                        #![trigger start.keys@[i]]
                        0 <= i < at && start.keys@[i] == k && start.values@[i].udp != udp;
                    assert(start.keys@[i] == k);
                }
                if k == key && value.udp != udp {
                    assert(start.keys@[at as int] == k);
                }
            }
        }
        at = at + 1;
    }
    proof {
        let expected = off_udp(start.view(), udp);
        assert forall|k: TableKey| kept.view().dom().contains(k) <==> expected.dom().contains(k) by {
            if start.view().dom().contains(k) {
                let i = start.keys@.index_of(k);
                assert(start.keys@[i] == k);
                start.lemma_index(i);
            }
            if kept.view().dom().contains(k) {
                let i = choose|i: int|
                    #![trigger start.keys@[i]]
                    0 <= i < at && start.keys@[i] == k && start.values@[i].udp != udp;
                assert(start.keys@[i] == k);
                start.lemma_index(i);
            }
        }
        assert(kept.view() =~= expected);
    }
    *table = kept;
}

impl AddressBook {
    pub open spec fn wf(&self) -> bool {
        booked(self.inner, true) && booked(self.outer, true) && booked(self.agents, false)
    }

    /// Whether an endpoint is in the book.
    pub open spec fn has(&self, endpoint: EndpointAddr) -> bool {
        ||| self.inner.view().dom().contains(endpoint_key(endpoint))
        ||| self.outer.view().dom().contains(endpoint_key(endpoint))
        ||| self.agents.view().dom().contains(endpoint_key(endpoint))
    }

    pub fn new() -> (book: AddressBook)
        ensures
            book.wf(),
            book.inner.view() == Map::<TableKey, BookedSocket>::empty(),
            book.outer.view() == Map::<TableKey, BookedSocket>::empty(),
            book.agents.view() == Map::<TableKey, BookedSocket>::empty(),
    {
        AddressBook { inner: SortedTable::new(), outer: SortedTable::new(), agents: SortedTable::new() }
    }

    fn ensure_absent(&self, endpoint: EndpointAddr) -> (result: Result<(), AddressBookError>)
        requires
            self.wf(),
        ensures
            result == if self.has(endpoint) {
                Err::<(), AddressBookError>(AddressBookError::Duplicate(endpoint))
            } else {
                Ok(())
            },
    {
        let key = key_of_endpoint(endpoint);
        if self.inner.get(key).is_some() || self.outer.get(key).is_some() || self.agents.get(key).is_some() {
            Err(AddressBookError::Duplicate(endpoint))
        } else {
            Ok(())
        }
    }

    /// Enters an inner endpoint, which must be direct and on a socket whose address is known. What
    /// neighbours on that address learn changes.
    pub fn insert_inner(&mut self, socket: BookedSocket) -> (result: Result<SocketAddr, AddressBookError>)
        requires
            old(self).wf(),
        ensures
            final(self).wf(),
            final(self).outer == old(self).outer,
            final(self).agents == old(self).agents,
            result is Err ==> *final(self) == *old(self),
            match (socket.endpoint, socket.bound) {
                (EndpointAddr::Mediate { .. }, _) => result == Err::<SocketAddr, AddressBookError>(
                    AddressBookError::ExpectedDirect,
                ),
                (EndpointAddr::Direct { .. }, None) => result == Err::<SocketAddr, AddressBookError>(
                    AddressBookError::Io,
                ),
                (EndpointAddr::Direct { .. }, Some(bound)) => if old(self).has(socket.endpoint) {
                    result == Err::<SocketAddr, AddressBookError>(AddressBookError::Duplicate(socket.endpoint))
                } else {
                    result == Ok::<SocketAddr, AddressBookError>(bound) && final(self).inner.view() == old(
                        self,
                    ).inner.view().insert(endpoint_key(socket.endpoint), socket)
                },
            },
    {
        match ensure_direct(socket.endpoint) {
            Ok(_) => {},
            Err(error) => return Err(error),
        }
        let bound = match socket.bound {
            Some(bound) => bound,
            None => return Err(AddressBookError::Io),
        };
        match self.ensure_absent(socket.endpoint) {
            Ok(_) => {},
            Err(error) => return Err(error),
        }
        proof {
            lemma_booked(self.inner, true);
        }
        let _ = self.inner.insert(key_of_endpoint(socket.endpoint), socket);
        proof {
            lemma_booked(self.inner, true);
        }
        Ok(bound)
    }

    /// Enters an outer endpoint, which must be direct. What everybody learns changes.
    pub fn insert_outer(&mut self, socket: BookedSocket) -> (result: Result<(), AddressBookError>)
        requires
            old(self).wf(),
        ensures
            final(self).wf(),
            final(self).inner == old(self).inner,
            final(self).agents == old(self).agents,
            result is Err ==> *final(self) == *old(self),
            if socket.endpoint is Mediate {
                result == Err::<(), AddressBookError>(AddressBookError::ExpectedDirect)
            } else if old(self).has(socket.endpoint) {
                result == Err::<(), AddressBookError>(AddressBookError::Duplicate(socket.endpoint))
            } else {
                result is Ok && final(self).outer.view() == old(self).outer.view().insert(
                    endpoint_key(socket.endpoint),
                    socket,
                )
            },
    {
        match ensure_direct(socket.endpoint) {
            Ok(_) => {},
            Err(error) => return Err(error),
        }
        match self.ensure_absent(socket.endpoint) {
            Ok(_) => {},
            Err(error) => return Err(error),
        }
        proof {
            lemma_booked(self.outer, true);
        }
        let _ = self.outer.insert(key_of_endpoint(socket.endpoint), socket);
        proof {
            lemma_booked(self.outer, true);
        }
        Ok(())
    }

    /// Enters an endpoint behind an agent, of which a UDP socket has only so many. What everybody
    /// learns changes.
    pub fn insert_agent(&mut self, socket: BookedSocket) -> (result: Result<(), AddressBookError>)
        requires
            old(self).wf(),
        ensures
            final(self).wf(),
            final(self).inner == old(self).inner,
            final(self).outer == old(self).outer,
            result is Err ==> *final(self) == *old(self),
            if socket.endpoint is Direct {
                result == Err::<(), AddressBookError>(AddressBookError::ExpectedMediate)
            } else if old(self).has(socket.endpoint) {
                result == Err::<(), AddressBookError>(AddressBookError::Duplicate(socket.endpoint))
            } else if on_udp(old(self).agents.values@, socket.udp) >= MAX_AGENTS {
                result == Err::<(), AddressBookError>(AddressBookError::TooManyAgents)
            } else {
                result is Ok && final(self).agents.view() == old(self).agents.view().insert(
                    endpoint_key(socket.endpoint),
                    socket,
                )
            },
    {
        match socket.endpoint {
            EndpointAddr::Mediate { .. } => {},
            EndpointAddr::Direct { .. } => return Err(AddressBookError::ExpectedMediate),
        }
        match self.ensure_absent(socket.endpoint) {
            Ok(_) => {},
            Err(error) => return Err(error),
        }
        let mut count: usize = 0;
        let mut at: usize = 0;
        assert(self.agents.values@.take(0) =~= Seq::empty());
        while at < self.agents.values.len()
            invariant
                at <= self.agents.values@.len(),
                count <= at,
                count == on_udp(self.agents.values@.take(at as int), socket.udp),
            decreases self.agents.values@.len() - at,
        {
            assert(self.agents.values@.take(at as int + 1).drop_last() =~= self.agents.values@.take(at as int));
            if self.agents.values[at].udp == socket.udp {
                count = count + 1;
            }
            at = at + 1;
        }
        assert(self.agents.values@.take(self.agents.values@.len() as int) =~= self.agents.values@);
        if count >= MAX_AGENTS {
            return Err(AddressBookError::TooManyAgents);
        }
        proof {
            lemma_booked(self.agents, false);
        }
        let _ = self.agents.insert(key_of_endpoint(socket.endpoint), socket);
        proof {
            lemma_booked(self.agents, false);
        }
        Ok(())
    }

    /// Takes out every endpoint on a UDP socket.
    pub fn remove_socket(&mut self, udp: u64)
        requires
            old(self).wf(),
        ensures
            final(self).wf(),
            final(self).inner.view() == off_udp(old(self).inner.view(), udp),
            final(self).outer.view() == off_udp(old(self).outer.view(), udp),
            final(self).agents.view() == off_udp(old(self).agents.view(), udp),
    {
        proof {
            lemma_booked(self.inner, true);
            lemma_booked(self.outer, true);
            lemma_booked(self.agents, false);
        }
        drop_udp(&mut self.inner, udp);
        drop_udp(&mut self.outer, udp);
        drop_udp(&mut self.agents, udp);
        proof {
            lemma_booked(self.inner, true);
            lemma_booked(self.outer, true);
            lemma_booked(self.agents, false);
        }
    }

    /// The endpoints that everybody learns of, in order: outer ones, then those behind agents.
    pub fn ddns_endpoints(&self) -> (endpoints: Vec<EndpointAddr>)
        requires
            self.wf(),
        ensures
            endpoints@ == endpoints_of(self.outer.values@) + endpoints_of(self.agents.values@),
    {
        let mut endpoints: Vec<EndpointAddr> = Vec::new();
        add_endpoints(&mut endpoints, &self.outer.values);
        add_endpoints(&mut endpoints, &self.agents.values);
        assert(endpoints@ =~= endpoints_of(self.outer.values@) + endpoints_of(self.agents.values@));
        endpoints
    }

    /// The endpoints that neighbours on an address learn of, in order.
    pub fn mdns_endpoints(&self, bound: SocketAddr) -> (endpoints: Vec<EndpointAddr>)
        requires
            self.wf(),
        ensures
            endpoints@ == endpoints_of(bound_to(self.inner.values@, bound)),
    {
        let mut endpoints: Vec<EndpointAddr> = Vec::new();
        let mut at: usize = 0;
        let ghost here = |socket: BookedSocket| socket.bound == Some(bound);
        let ghost sockets = self.inner.values@;
        assert(sockets.take(0) =~= Seq::empty());
        proof {
            reveal(Seq::filter);
        }
        assert(sockets.take(0).filter(here) =~= Seq::empty());
        assert(endpoints@ =~= endpoints_of(bound_to(sockets.take(0), bound)));
        while at < self.inner.values.len()
            invariant
                sockets == self.inner.values@,
                at <= sockets.len(),
                here == (|socket: BookedSocket| socket.bound == Some(bound)),
                endpoints@ == endpoints_of(bound_to(sockets.take(at as int), bound)),
            decreases sockets.len() - at,
        {
            let socket = self.inner.values[at];
            proof {
                reveal(Seq::filter);
                let longer = sockets.take(at as int + 1);
                assert(longer.drop_last() =~= sockets.take(at as int));
                assert(longer.last() == socket);
            }
            if socket.bound == Some(bound) {
                endpoints.push(socket.endpoint);
                assert(endpoints@ =~= endpoints_of(bound_to(sockets.take(at as int + 1), bound)));
            }
            at = at + 1;
        }
        assert(sockets.take(sockets.len() as int) =~= sockets);
        endpoints
    }
}

fn add_endpoints(endpoints: &mut Vec<EndpointAddr>, sockets: &Vec<BookedSocket>)
    ensures
        final(endpoints)@ == old(endpoints)@ + endpoints_of(sockets@),
{
    let ghost start = endpoints@;
    let mut at: usize = 0;
    while at < sockets.len()
        invariant
            at <= sockets@.len(),
            endpoints@ == start + endpoints_of(sockets@).take(at as int),
        decreases sockets@.len() - at,
    {
        endpoints.push(sockets[at].endpoint);
        at = at + 1;
        assert(endpoints@ =~= start + endpoints_of(sockets@).take(at as int));
    }
    assert(endpoints_of(sockets@).take(sockets@.len() as int) =~= endpoints_of(sockets@));
}

fn ensure_direct(endpoint: EndpointAddr) -> (result: Result<(), AddressBookError>)
    ensures
        result == if endpoint is Direct {
            Ok::<(), AddressBookError>(())
        } else {
            Err(AddressBookError::ExpectedDirect)
        },
{
    match endpoint {
        EndpointAddr::Direct { .. } => Ok(()),
        EndpointAddr::Mediate { .. } => Err(AddressBookError::ExpectedDirect),
    }
}

/// Once a UDP socket is taken out, nothing on it is published any more.
pub proof fn removed_socket_is_not_published(map: Map<TableKey, BookedSocket>, udp: u64, endpoint: EndpointAddr)
    ensures
        off_udp(map, udp).dom().contains(endpoint_key(endpoint)) ==> off_udp(map, udp)[endpoint_key(endpoint)].udp != udp,
{
}

/// What everybody learns of is in ascending order, direct endpoints first.
pub proof fn published_endpoints_are_sorted(book: AddressBook)
    requires
        book.wf(),
    ensures
        ascending(
            (endpoints_of(book.outer.values@) + endpoints_of(book.agents.values@)).map_values(
                |endpoint: EndpointAddr| endpoint_key(endpoint),
            ),
        ),
{
    let endpoints = endpoints_of(book.outer.values@) + endpoints_of(book.agents.values@);
    let keys = endpoints.map_values(|endpoint: EndpointAddr| endpoint_key(endpoint));
    let first = book.outer.values@.len() as int;
    assert forall|i: int, j: int| #![trigger keys[i], keys[j]] 0 <= i < j < keys.len() implies key_before(
        keys[i],
        keys[j],
    ) by {
        if j < first {
            assert(keys[i] == endpoint_key(book.outer.values@[i].endpoint));
            assert(keys[j] == endpoint_key(book.outer.values@[j].endpoint));
            assert(book.outer.keys@[i] == keys[i]);
            assert(book.outer.keys@[j] == keys[j]);
        } else if i >= first {
            assert(keys[i] == endpoint_key(book.agents.values@[i - first].endpoint));
            assert(keys[j] == endpoint_key(book.agents.values@[j - first].endpoint));
            assert(book.agents.keys@[i - first] == keys[i]);
            assert(book.agents.keys@[j - first] == keys[j]);
        } else {
            assert(keys[i] == endpoint_key(book.outer.values@[i].endpoint));
            assert(keys[j] == endpoint_key(book.agents.values@[j - first].endpoint));
            assert(book.outer.values@[i].endpoint is Direct && book.agents.values@[j - first].endpoint is Mediate);
            assert(keys[i].0 == 100 || keys[i].0 == 101);
            assert(keys[j].0 == 1100 || keys[j].0 == 1101);
            reveal(key_before);
        }
    }
}

/// Everybody learns of exactly the outer endpoints and those behind agents.
pub proof fn outer_and_mediated_endpoints_are_published(book: AddressBook, endpoint: EndpointAddr)
    requires
        book.wf(),
    ensures
        (endpoints_of(book.outer.values@) + endpoints_of(book.agents.values@)).contains(endpoint)
            <==> book.outer.view().dom().contains(endpoint_key(endpoint)) || book.agents.view().dom().contains(
            endpoint_key(endpoint),
        ),
{
    let outer = endpoints_of(book.outer.values@);
    let agents = endpoints_of(book.agents.values@);
    let all = outer + agents;
    lemma_entered(book.outer, true, endpoint);
    lemma_entered(book.agents, false, endpoint);
    if outer.contains(endpoint) {
        let i = choose|i: int| 0 <= i < outer.len() && outer[i] == endpoint;
        assert(all[i] == endpoint);
    }
    if agents.contains(endpoint) {
        let i = choose|i: int| 0 <= i < agents.len() && agents[i] == endpoint;
        assert(all[outer.len() + i] == endpoint);
    }
    if all.contains(endpoint) {
        let i = choose|i: int| 0 <= i < all.len() && all[i] == endpoint;
        if i < outer.len() {
            assert(outer[i] == endpoint);
        } else {
            assert(agents[i - outer.len()] == endpoint);
        }
    }
}

proof fn lemma_entered(table: SortedTable<BookedSocket>, direct: bool, endpoint: EndpointAddr)
    requires
        booked(table, direct),
    ensures
        endpoints_of(table.values@).contains(endpoint) <==> table.view().dom().contains(endpoint_key(endpoint)),
{
    let endpoints = endpoints_of(table.values@);
    if endpoints.contains(endpoint) {
        let i = choose|i: int| 0 <= i < endpoints.len() && endpoints[i] == endpoint;
        assert(table.values@[i].endpoint == endpoint);
        table.lemma_index(i);
    }
    if table.view().dom().contains(endpoint_key(endpoint)) {
        let i = table.keys@.index_of(endpoint_key(endpoint));
        assert(table.keys@[i] == endpoint_key(endpoint));
        assert(table.values@[i].endpoint == table.values@[i].endpoint);
        keys_are_distinct(
            ConnectionId { len: 0, head: 0, tail: 0 },
            ConnectionId { len: 0, head: 0, tail: 0 },
            arbitrary(),
            arbitrary(),
            endpoint,
            table.values@[i].endpoint,
        );
        assert(endpoints[i] == endpoint);
    }
}

/// Neighbours learn of exactly the inner endpoints on the address that they are asked for, in order.
pub proof fn neighbours_learn_of_what_is_bound_there(sockets: Seq<BookedSocket>, bound: SocketAddr, socket: BookedSocket)
    ensures
        bound_to(sockets, bound).contains(socket) <==> sockets.contains(socket) && socket.bound == Some(bound),
        endpoints_of(bound_to(sockets, bound)).len() == bound_to(sockets, bound).len(),
        forall|i: int|
            #![trigger bound_to(sockets, bound)[i]]
            0 <= i < bound_to(sockets, bound).len() ==> endpoints_of(bound_to(sockets, bound))[i] == bound_to(
                sockets,
                bound,
            )[i].endpoint,
{
    let here = |socket: BookedSocket| socket.bound == Some(bound);
    broadcast use vstd::seq_lib::group_filter_ensures;

    if sockets.contains(socket) && here(socket) {
        let i = choose|i: int| 0 <= i < sockets.len() && sockets[i] == socket;
        assert(sockets.filter(here).contains(sockets[i]));
    }
    if bound_to(sockets, bound).contains(socket) {
        let i = choose|i: int| 0 <= i < sockets.filter(here).len() && sockets.filter(here)[i] == socket;
        assert(here(sockets.filter(here)[i]));
        sockets.lemma_filter_contains_rev(here, socket);
    }
}

/// Taking a UDP socket out takes out exactly what is on it.
pub proof fn only_what_is_on_a_socket_goes_with_it(map: Map<TableKey, BookedSocket>, udp: u64, key: TableKey)
    ensures
        off_udp(map, udp).dom().contains(key) <==> map.dom().contains(key) && map[key].udp != udp,
        off_udp(map, udp).dom().contains(key) ==> off_udp(map, udp)[key] == map[key],
{
}

/// One UDP socket publishes at most three endpoints behind agents.
pub proof fn agents_of_a_socket_are_counted(sockets: Seq<BookedSocket>, udp: u64)
    ensures
        on_udp(sockets, udp) == sockets.filter(|socket: BookedSocket| socket.udp == udp).len(),
        MAX_AGENTS == 3,
    decreases sockets.len(),
{
    reveal(Seq::filter);
    if sockets.len() > 0 {
        agents_of_a_socket_are_counted(sockets.drop_last(), udp);
    }
}

} // verus!
