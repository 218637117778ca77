//! What is known of local interfaces, and the endpoints each of them publishes.
use vstd::prelude::*;

use crate::base::addr::{BindUri, EndpointAddr, SocketAddr};
use crate::base::sorted::{without_part, SortedTable};
use crate::base::table::{bind_key, bind_part, parts_are_distinct, TableKey};
use crate::interface::local_endpoint::{
    bound_endpoint, endpoint_keys_are_distinct, entry_key, part_for, InterfaceEndpointKey,
};
use crate::interface::subscribers::Subscribers;

verus! {

/// Something known of an interface: what type of thing it is, by a number, and the caller's handle
/// on it.
#[derive(Clone, Copy, Debug, PartialEq, Eq, Structural)]
pub struct Datum {
    pub type_id: u64,
    pub handle: u64,
}

/// A change of what is known of an interface.
#[derive(Clone, Copy, Debug, PartialEq, Eq, Structural)]
pub enum AddressEvent<D> {
    Upsert(D),
    /// What there was of a type is gone.
    Remove(u64),
    /// The interface is gone.
    Closed,
}

/// What an event is for somebody who asks for one type: nothing, where it is of another.
pub open spec fn typed(event: AddressEvent<Datum>, type_id: u64) -> Option<AddressEvent<u64>> {
    match event {
        AddressEvent::Upsert(datum) => if datum.type_id == type_id {
            Some(AddressEvent::Upsert(datum.handle))
        } else {
            None
        },
        AddressEvent::Remove(removed) => if removed == type_id {
            Some(AddressEvent::Remove(removed))
        } else {
            None
        },
        AddressEvent::Closed => Some(AddressEvent::Closed),
    }
}

impl AddressEvent<Datum> {
    /// The event for somebody who asks for one type, or the event itself where it is of another.
    pub fn downcast(self, type_id: u64) -> (result: Result<AddressEvent<u64>, AddressEvent<Datum>>)
        ensures
            result == match typed(self, type_id) {
                Some(event) => Ok::<AddressEvent<u64>, AddressEvent<Datum>>(event),
                None => Err(self),
            },
    {
        match self {
            AddressEvent::Upsert(datum) => if datum.type_id == type_id {
                Ok(AddressEvent::Upsert(datum.handle))
            } else {
                Err(AddressEvent::Upsert(datum))
            },
            AddressEvent::Remove(removed) => if removed == type_id {
                Ok(AddressEvent::Remove(removed))
            } else {
                Err(AddressEvent::Remove(removed))
            },
            AddressEvent::Closed => Ok(AddressEvent::Closed),
        }
    }
}

/// Something known of an interface, with the interface.
#[derive(Clone, Copy, Debug, PartialEq, Eq, Structural)]
pub struct KnownDatum {
    pub bind_uri: BindUri,
    pub datum: Datum,
}

/// The key of what is known of an interface by a type.
pub open spec fn datum_key(bind_uri: BindUri, type_id: u64) -> TableKey {
    let bind = bind_key(bind_uri);
    (bind.0, bind.1, bind.2, type_id, 0, 0)
}

fn datum_key_for(bind_uri: BindUri, type_id: u64) -> (key: TableKey)
    ensures
        key == datum_key(bind_uri, type_id),
{
    let bind = bind_part(bind_uri);
    (bind.0, bind.1, bind.2, type_id, 0, 0)
}

/// All that is known of the interfaces, and who is told of changes.
pub struct EventPublisher {
    pub datas: SortedTable<KnownDatum>,
    pub subscribers: Subscribers,
}

impl EventPublisher {
    pub open spec fn wf(&self) -> bool {
        self.datas.wf() && self.subscribers.wf()
    }

    /// What is known after an event.
    pub open spec fn after(
        datas: Map<TableKey, KnownDatum>,
        bind_uri: BindUri,
        event: AddressEvent<Datum>,
    ) -> Map<TableKey, KnownDatum> {
        match event {
            AddressEvent::Upsert(datum) => datas.insert(
                datum_key(bind_uri, datum.type_id),
                KnownDatum { bind_uri, datum },
            ),
            AddressEvent::Remove(type_id) => datas.remove(datum_key(bind_uri, type_id)),
            AddressEvent::Closed => without_part(datas, bind_key(bind_uri)),
        }
    }

    pub fn new() -> (publisher: EventPublisher)
        ensures
            publisher.wf(),
            publisher.datas.view() == Map::<TableKey, KnownDatum>::empty(),
            publisher.subscribers.view() == Set::<u64>::empty(),
    {
        EventPublisher { datas: SortedTable::new(), subscribers: Subscribers::new() }
    }

    /// Takes an event, which every subscriber is then told. Those that could not be reached are
    /// forgotten.
    pub fn publish_event(&mut self, bind_uri: BindUri, event: AddressEvent<Datum>, unreached: &Vec<u64>)
        requires
            old(self).wf(),
        ensures
            final(self).wf(),
            final(self).datas.view() == EventPublisher::after(old(self).datas.view(), bind_uri, event),
            final(self).subscribers.view() == old(self).subscribers.view().difference(unreached@.to_set()),
    {
        match event {
            AddressEvent::Upsert(datum) => {
                let _ = self.datas.insert(datum_key_for(bind_uri, datum.type_id), KnownDatum { bind_uri, datum });
            },
            AddressEvent::Remove(type_id) => {
                let _ = self.datas.remove(datum_key_for(bind_uri, type_id));
            },
            AddressEvent::Closed => {
                self.datas.remove_all(bind_part(bind_uri));
            },
        }
        self.subscribers.drop_all(unreached);
    }

    /// What a new subscriber is told first: all that is known.
    pub fn replay(&self) -> (events: Vec<(BindUri, AddressEvent<Datum>)>)
        requires
            self.wf(),
        ensures
            events@.len() == self.datas.values@.len(),
            forall|i: int|
                #![trigger events@[i]]
                0 <= i < events@.len() ==> events@[i] == (
                    self.datas.values@[i].bind_uri,
                    AddressEvent::Upsert(self.datas.values@[i].datum),
                ),
    {
        let mut events: Vec<(BindUri, AddressEvent<Datum>)> = Vec::new();
        let mut at: usize = 0;
        while at < self.datas.values.len()
            invariant
                at <= self.datas.values@.len(),
                events@.len() == at,
                forall|i: int|
                    #![trigger events@[i]]
                    0 <= i < events@.len() ==> events@[i] == (
                        self.datas.values@[i].bind_uri,
                        AddressEvent::Upsert(self.datas.values@[i].datum),
                    ),
            decreases self.datas.values@.len() - at,
        {
            let known = self.datas.values[at];
            events.push((known.bind_uri, AddressEvent::Upsert(known.datum)));
            at = at + 1;
        }
        events
    }

    /// Enters a subscriber, unless it was gone before the replay reached it.
    pub fn register_subscriber(&mut self, subscriber: u64, reached: bool)
        requires
            old(self).wf(),
        ensures
            final(self).wf(),
            final(self).datas == old(self).datas,
            final(self).subscribers.view() == if reached {
                old(self).subscribers.view().insert(subscriber)
            } else {
                old(self).subscribers.view()
            },
    {
        if reached {
            self.subscribers.insert(subscriber);
        }
    }

    pub fn unregister_subscriber(&mut self, subscriber: u64)
        requires
            old(self).wf(),
        ensures
            final(self).wf(),
            final(self).datas == old(self).datas,
            final(self).subscribers.view() == old(self).subscribers.view().remove(subscriber),
    {
        self.subscribers.remove(subscriber);
    }
}

/// After an interface closed, nothing is known of it; what is known of others stays.
pub proof fn closed_interface_is_forgotten(
    datas: Map<TableKey, KnownDatum>,
    bind_uri: BindUri,
    other: BindUri,
    type_id: u64,
)
    ensures
        !EventPublisher::after(datas, bind_uri, AddressEvent::Closed).dom().contains(datum_key(bind_uri, type_id)),
        other != bind_uri && datas.dom().contains(datum_key(other, type_id)) ==> EventPublisher::after(
            datas,
            bind_uri,
            AddressEvent::Closed,
        ).dom().contains(datum_key(other, type_id)),
{
    parts_are_distinct(arbitrary(), arbitrary(), other, bind_uri);
}

/// The endpoints that an interface publishes, as one thing known of it.
#[derive(Debug)]
pub struct LocalEndpointSet {
    pub endpoints: Vec<EndpointAddr>,
}

impl LocalEndpointSet {
    pub fn from_endpoints(endpoints: Vec<EndpointAddr>) -> (set: LocalEndpointSet)
        ensures
            set.endpoints == endpoints,
    {
        LocalEndpointSet { endpoints }
    }

    pub fn endpoints(&self) -> (endpoints: &[EndpointAddr])
        ensures
            endpoints@ == self.endpoints@,
    {
        self.endpoints.as_slice()
    }
}

/// What an interface tells of its endpoints.
#[derive(Debug)]
pub enum LocationUpdate {
    Upsert(LocalEndpointSet),
    Remove,
}

/// A leased place for an endpoint.
#[derive(Clone, Copy, Debug, PartialEq, Eq, Structural)]
pub struct InterfaceLocationEntry {
    pub lease: u64,
    pub endpoint: Option<EndpointAddr>,
}

/// The endpoints that stand in places, in order.
pub open spec fn present(entries: Seq<InterfaceLocationEntry>) -> Seq<EndpointAddr>
    decreases entries.len(),
{
    if entries.len() == 0 {
        Seq::empty()
    } else {
        match entries.last().endpoint {
            Some(endpoint) => present(entries.drop_last()).push(endpoint),
            None => present(entries.drop_last()),
        }
    }
}

/// What is told when the endpoints are `now` and were `before`.
pub open spec fn told_of(before: Seq<EndpointAddr>, now: Seq<EndpointAddr>, told: Option<LocationUpdate>) -> bool {
    if now == before {
        told is None
    } else if now.len() == 0 {
        told matches Some(update) && update is Remove
    } else {
        told matches Some(LocationUpdate::Upsert(set)) && set.endpoints@ == now
    }
}

fn same_endpoints(left: &Vec<EndpointAddr>, right: &Vec<EndpointAddr>) -> (same: bool)
    ensures
        same == (left@ == right@),
{
    if left.len() != right.len() {
        return false;
    }
    let mut at: usize = 0;
    while at < left.len()
        invariant
            at <= left@.len(),
            left@.len() == right@.len(),
            forall|i: int| #![trigger left@[i]] 0 <= i < at ==> left@[i] == right@[i],
        decreases left@.len() - at,
    {
        if left[at] != right[at] {
            assert(left@[at as int] != right@[at as int]);
            return false;
        }
        at = at + 1;
    }
    assert(left@ =~= right@);
    true
}

fn copy_endpoints(endpoints: &Vec<EndpointAddr>) -> (copy: Vec<EndpointAddr>)
    ensures
        copy@ == endpoints@,
{
    let mut copy: Vec<EndpointAddr> = Vec::new();
    let mut at: usize = 0;
    while at < endpoints.len()
        invariant
            at <= endpoints@.len(),
            copy@ == endpoints@.take(at as int),
        decreases endpoints@.len() - at,
    {
        copy.push(endpoints[at]);
        at = at + 1;
        assert(copy@ =~= endpoints@.take(at as int));
    }
    assert(copy@ =~= endpoints@);
    copy
}

/// The places of one interface. Leases go by numbers of the caller's; no two that are alive are the
/// same.
pub struct InterfaceLocationsState {
    pub bind_uri: BindUri,
    pub closed: bool,
    pub entries: SortedTable<InterfaceLocationEntry>,
    pub published: Vec<EndpointAddr>,
}

fn place_key(key: InterfaceEndpointKey) -> (table_key: TableKey)
    ensures
        table_key == entry_key(key),
{
    let part = part_for(key);
    (part.0, part.1, part.2, 0, 0, 0)
}

impl InterfaceLocationsState {
    pub open spec fn wf(&self) -> bool {
        self.entries.wf()
    }

    pub open spec fn entry(&self, key: InterfaceEndpointKey) -> Option<InterfaceLocationEntry> {
        self.entries.at(entry_key(key))
    }

    /// Whether a lease holds a place.
    pub open spec fn owns(&self, key: InterfaceEndpointKey, lease: u64) -> bool {
        !self.closed && (self.entry(key) matches Some(entry) && entry.lease == lease)
    }

    /// Whether the places now hold `entries`, and the endpoints in them are published.
    pub open spec fn published_anew(
        &self,
        before: InterfaceLocationsState,
        entries: Map<TableKey, InterfaceLocationEntry>,
        told: Option<LocationUpdate>,
    ) -> bool {
        &&& self.bind_uri == before.bind_uri
        &&& self.closed == before.closed
        &&& self.entries.view() == entries
        &&& self.published@ == present(self.entries.values@)
        &&& told_of(before.published@, present(self.entries.values@), told)
    }

    pub fn new(bind_uri: BindUri) -> (state: InterfaceLocationsState)
        ensures
            state.wf(),
            state.bind_uri == bind_uri,
            !state.closed,
            state.entries.view() == Map::<TableKey, InterfaceLocationEntry>::empty(),
            state.entries.values@.len() == 0,
            state.published@.len() == 0,
    {
        InterfaceLocationsState { bind_uri, closed: false, entries: SortedTable::new(), published: Vec::new() }
    }

    /// Leases a place, whoever held it. What was published from there stays published until the next
    /// change.
    pub fn claim(&mut self, key: InterfaceEndpointKey, lease: u64)
        requires
            old(self).wf(),
        ensures
            final(self).wf(),
            final(self).bind_uri == old(self).bind_uri,
            final(self).closed == old(self).closed,
            final(self).published == old(self).published,
            if old(self).closed {
                *final(self) == *old(self)
            } else {
                final(self).entries.view() == old(self).entries.view().insert(
                    entry_key(key),
                    (InterfaceLocationEntry { lease, endpoint: None }),
                )
            },
    {
        if !self.closed {
            let _ = self.entries.insert(place_key(key), InterfaceLocationEntry { lease, endpoint: None });
        }
    }

    fn publish_if_changed(&mut self) -> (told: Option<LocationUpdate>)
        requires
            old(self).wf(),
        ensures
            final(self).wf(),
            final(self).bind_uri == old(self).bind_uri,
            final(self).closed == old(self).closed,
            final(self).entries == old(self).entries,
            final(self).published@ == present(old(self).entries.values@),
            told_of(old(self).published@, present(old(self).entries.values@), told),
    {
        let mut endpoints: Vec<EndpointAddr> = Vec::new();
        let mut at: usize = 0;
        assert(self.entries.values@.take(0) =~= Seq::empty());
        while at < self.entries.values.len()
            invariant
                *self == *old(self),
                at <= self.entries.values@.len(),
                endpoints@ == present(self.entries.values@.take(at as int)),
            decreases self.entries.values@.len() - at,
        {
            assert(self.entries.values@.take(at as int + 1).drop_last() =~= self.entries.values@.take(at as int));
            if let Some(endpoint) = self.entries.values[at].endpoint {
                endpoints.push(endpoint);
            }
            at = at + 1;
        }
        assert(self.entries.values@.take(self.entries.values@.len() as int) =~= self.entries.values@);
        if same_endpoints(&endpoints, &self.published) {
            return None;
        }
        let empty = endpoints.len() == 0;
        let copy = copy_endpoints(&endpoints);
        self.published = endpoints;
        if empty {
            Some(LocationUpdate::Remove)
        } else {
            Some(LocationUpdate::Upsert(LocalEndpointSet { endpoints: copy }))
        }
    }

    /// Puts an endpoint in a place, if the lease holds it. Returns whether it does, and what is to be
    /// told.
    pub fn upsert_if_owned(&mut self, key: InterfaceEndpointKey, lease: u64, endpoint: EndpointAddr) -> (told: (
        bool,
        Option<LocationUpdate>,
    ))
        requires
            old(self).wf(),
        ensures
            final(self).wf(),
            told.0 == old(self).owns(key, lease),
            if told.0 && old(self).entry(key)->0.endpoint != Some(endpoint) {
                final(self).published_anew(
                    *old(self),
                    old(self).entries.view().insert(
                        entry_key(key),
                        (InterfaceLocationEntry { lease, endpoint: Some(endpoint) }),
                    ),
                    told.1,
                )
            } else {
                told.1 is None && *final(self) == *old(self)
            },
    {
        if self.closed {
            return (false, None);
        }
        let table_key = place_key(key);
        let entry = match self.entries.get(table_key) {
            Some(entry) => entry,
            None => return (false, None),
        };
        if entry.lease != lease {
            return (false, None);
        }
        if entry.endpoint == Some(endpoint) {
            return (true, None);
        }
        let _ = self.entries.insert(table_key, InterfaceLocationEntry { lease, endpoint: Some(endpoint) });
        (true, self.publish_if_changed())
    }

    /// Empties a place, if the lease holds it; the lease stays.
    pub fn clear_if_owned(&mut self, key: InterfaceEndpointKey, lease: u64) -> (told: (bool, Option<LocationUpdate>))
        requires
            old(self).wf(),
        ensures
            final(self).wf(),
            told.0 == old(self).owns(key, lease),
            if told.0 && old(self).entry(key)->0.endpoint is Some {
                final(self).published_anew(
                    *old(self),
                    old(self).entries.view().insert(
                        entry_key(key),
                        (InterfaceLocationEntry { lease, endpoint: None }),
                    ),
                    told.1,
                )
            } else {
                told.1 is None && *final(self) == *old(self)
            },
    {
        if self.closed {
            return (false, None);
        }
        let table_key = place_key(key);
        let entry = match self.entries.get(table_key) {
            Some(entry) => entry,
            None => return (false, None),
        };
        if entry.lease != lease {
            return (false, None);
        }
        if entry.endpoint.is_none() {
            return (true, None);
        }
        let _ = self.entries.insert(table_key, InterfaceLocationEntry { lease, endpoint: None });
        (true, self.publish_if_changed())
    }

    /// Gives up a lease, and empties its place.
    pub fn remove_if_owned(&mut self, key: InterfaceEndpointKey, lease: u64) -> (told: Option<LocationUpdate>)
        requires
            old(self).wf(),
        ensures
            final(self).wf(),
            if old(self).owns(key, lease) {
                final(self).published_anew(*old(self), old(self).entries.view().remove(entry_key(key)), told)
            } else {
                told is None && *final(self) == *old(self)
            },
    {
        if self.closed {
            return None;
        }
        let table_key = place_key(key);
        let entry = match self.entries.get(table_key) {
            Some(entry) => entry,
            None => return None,
        };
        if entry.lease != lease {
            return None;
        }
        let _ = self.entries.remove(table_key);
        self.publish_if_changed()
    }

    /// Ends the interface. Returns whether that is to be told.
    pub fn close(&mut self) -> (told: bool)
        requires
            old(self).wf(),
        ensures
            final(self).wf(),
            final(self).bind_uri == old(self).bind_uri,
            final(self).closed,
            told == !old(self).closed,
            if told {
                final(self).entries.view() == Map::<TableKey, InterfaceLocationEntry>::empty()
                    && final(self).published@.len() == 0
            } else {
                *final(self) == *old(self)
            },
    {
        if self.closed {
            return false;
        }
        self.closed = true;
        self.entries = SortedTable::new();
        self.published = Vec::new();
        true
    }
}

/// The holder of the direct place.
#[derive(Debug)]
pub struct InterfaceDirectLocation {
    pub lease: u64,
}

impl InterfaceDirectLocation {
    /// Puts an address into the direct place.
    pub fn upsert(&self, state: &mut InterfaceLocationsState, addr: SocketAddr) -> (told: (
        bool,
        Option<LocationUpdate>,
    ))
        requires
            old(state).wf(),
        ensures
            final(state).wf(),
            told.0 == old(state).owns(InterfaceEndpointKey::Direct, self.lease),
            ({
                let key = InterfaceEndpointKey::Direct;
                let endpoint = EndpointAddr::Direct { addr };
                if told.0 && old(state).entry(key)->0.endpoint != Some(endpoint) {
                    final(state).published_anew(
                        *old(state),
                        old(state).entries.view().insert(
                            entry_key(key),
                            (InterfaceLocationEntry { lease: self.lease, endpoint: Some(endpoint) }),
                        ),
                        told.1,
                    )
                } else {
                    told.1 is None && *final(state) == *old(state)
                }
            }),
    {
        state.upsert_if_owned(InterfaceEndpointKey::Direct, self.lease, EndpointAddr::Direct { addr })
    }

    /// Empties the place; the lease stays.
    pub fn clear(&self, state: &mut InterfaceLocationsState) -> (told: (bool, Option<LocationUpdate>))
        requires
            old(state).wf(),
        ensures
            final(state).wf(),
            told.0 == old(state).owns(InterfaceEndpointKey::Direct, self.lease),
            if told.0 && old(state).entry(InterfaceEndpointKey::Direct)->0.endpoint is Some {
                final(state).published_anew(
                    *old(state),
                    old(state).entries.view().insert(
                        entry_key(InterfaceEndpointKey::Direct),
                        (InterfaceLocationEntry { lease: self.lease, endpoint: None }),
                    ),
                    told.1,
                )
            } else {
                told.1 is None && *final(state) == *old(state)
            },
    {
        state.clear_if_owned(InterfaceEndpointKey::Direct, self.lease)
    }
}

/// The holder of the place behind an agent.
#[derive(Debug)]
pub struct InterfaceAgentLocation {
    pub agent: SocketAddr,
    pub lease: u64,
}

impl InterfaceAgentLocation {
    pub fn agent(&self) -> (agent: SocketAddr)
        ensures
            agent == self.agent,
    {
        self.agent
    }

    /// Puts an outer address behind the agent.
    pub fn upsert(&self, state: &mut InterfaceLocationsState, outer: SocketAddr) -> (told: (
        bool,
        Option<LocationUpdate>,
    ))
        requires
            old(state).wf(),
        ensures
            final(state).wf(),
            told.0 == old(state).owns(InterfaceEndpointKey::Agent(self.agent), self.lease),
            ({
                let key = InterfaceEndpointKey::Agent(self.agent);
                let endpoint = EndpointAddr::Mediate { agent: self.agent, outer };
                if told.0 && old(state).entry(key)->0.endpoint != Some(endpoint) {
                    final(state).published_anew(
                        *old(state),
                        old(state).entries.view().insert(
                            entry_key(key),
                            (InterfaceLocationEntry { lease: self.lease, endpoint: Some(endpoint) }),
                        ),
                        told.1,
                    )
                } else {
                    told.1 is None && *final(state) == *old(state)
                }
            }),
    {
        state.upsert_if_owned(
            InterfaceEndpointKey::Agent(self.agent),
            self.lease,
            EndpointAddr::Mediate { agent: self.agent, outer },
        )
    }

    /// Empties the place; the lease stays.
    pub fn clear(&self, state: &mut InterfaceLocationsState) -> (told: (bool, Option<LocationUpdate>))
        requires
            old(state).wf(),
        ensures
            final(state).wf(),
            told.0 == old(state).owns(InterfaceEndpointKey::Agent(self.agent), self.lease),
            if told.0 && old(state).entry(InterfaceEndpointKey::Agent(self.agent))->0.endpoint is Some {
                final(state).published_anew(
                    *old(state),
                    old(state).entries.view().insert(
                        entry_key(InterfaceEndpointKey::Agent(self.agent)),
                        (InterfaceLocationEntry { lease: self.lease, endpoint: None }),
                    ),
                    told.1,
                )
            } else {
                told.1 is None && *final(state) == *old(state)
            },
    {
        state.clear_if_owned(InterfaceEndpointKey::Agent(self.agent), self.lease)
    }
}

/// What is told while interfaces come and go.
#[derive(Debug)]
pub enum InterfaceEvent {
    Endpoints(LocationUpdate),
    /// The address that an interface is bound to, if it could be found out.
    Bound(Option<SocketAddr>),
    Closed,
}

/// Whether `told` is what is told of a new interface.
pub open spec fn told_at_start(bound_addr: Option<SocketAddr>, told: Seq<InterfaceEvent>) -> bool {
    match bound_addr {
        Some(addr) => {
            &&& told.len() == 2
            &&& told[0] matches InterfaceEvent::Endpoints(LocationUpdate::Upsert(set)) && set.endpoints@ == seq![
                EndpointAddr::Direct { addr },
            ]
            &&& told[1] == InterfaceEvent::Bound(bound_addr)
        },
        None => told.len() == 1 && told[0] == InterfaceEvent::Bound(None),
    }
}

/// The places of one interface while it lasts, with the lease on its direct one.
pub struct CurrentInterfaceLocations {
    pub interface: u64,
    pub state: InterfaceLocationsState,
    pub direct: InterfaceDirectLocation,
}

impl CurrentInterfaceLocations {
    /// Whether these are the places at the beginning of an interface: only the direct one is leased, and
    /// what stands in it is published.
    pub open spec fn begins(&self, interface: u64, bind_uri: BindUri, lease: u64, bound_addr: Option<SocketAddr>) -> bool {
        &&& self.interface == interface
        &&& self.direct.lease == lease
        &&& self.state.wf()
        &&& self.state.bind_uri == bind_uri
        &&& !self.state.closed
        &&& self.state.entries.view() == Map::<TableKey, InterfaceLocationEntry>::empty().insert(
            entry_key(InterfaceEndpointKey::Direct),
            InterfaceLocationEntry { lease, endpoint: bound_endpoint(bound_addr) },
        )
        &&& self.state.published@ == present(self.state.entries.values@)
    }

    /// Begins with an interface. The address that it is bound to is its direct endpoint, and is told
    /// by itself too.
    pub fn new(interface: u64, bind_uri: BindUri, lease: u64, bound_addr: Option<SocketAddr>) -> (begun: (
        CurrentInterfaceLocations,
        Vec<InterfaceEvent>,
    ))
        ensures
            begun.0.begins(interface, bind_uri, lease, bound_addr),
            told_at_start(bound_addr, begun.1@),
    {
        let mut state = InterfaceLocationsState::new(bind_uri);
        let key = InterfaceEndpointKey::Direct;
        state.claim(key, lease);
        proof {
            lemma_single(state.entries, entry_key(key), InterfaceLocationEntry { lease, endpoint: None });
            let values = state.entries.values@;
            assert(values =~= seq![InterfaceLocationEntry { lease, endpoint: None }]);
            assert(values.drop_last() =~= Seq::empty());
            assert(present(values.drop_last()) == Seq::<EndpointAddr>::empty());
            assert(present(values) =~= Seq::<EndpointAddr>::empty());
            assert(state.published@ =~= present(values));
        }
        let mut told: Vec<InterfaceEvent> = Vec::new();
        if let Some(addr) = bound_addr {
            let endpoint = EndpointAddr::Direct { addr };
            let (_, update) = state.upsert_if_owned(key, lease, endpoint);
            proof {
                lemma_single(state.entries, entry_key(key), InterfaceLocationEntry { lease, endpoint: Some(endpoint) });
                let values = state.entries.values@;
                assert(values =~= seq![InterfaceLocationEntry { lease, endpoint: Some(endpoint) }]);
                assert(values.drop_last() =~= Seq::empty());
                assert(present(values.drop_last()) == Seq::<EndpointAddr>::empty());
                assert(present(values) =~= seq![endpoint]);
                assert(present(values).len() == 1);
                assert(state.entries.view() =~= Map::<TableKey, InterfaceLocationEntry>::empty().insert(
                    entry_key(key),
                    InterfaceLocationEntry { lease, endpoint: Some(endpoint) },
                ));
            }
            match update {
                Some(update) => told.push(InterfaceEvent::Endpoints(update)),
                None => {},
            }
        }
        told.push(InterfaceEvent::Bound(bound_addr));
        (CurrentInterfaceLocations { interface, state, direct: InterfaceDirectLocation { lease } }, told)
    }

    /// Leases the place behind an agent.
    pub fn agent_location(&mut self, agent: SocketAddr, lease: u64) -> (location: InterfaceAgentLocation)
        requires
            old(self).state.wf(),
        ensures
            final(self).state.wf(),
            final(self).interface == old(self).interface,
            final(self).direct == old(self).direct,
            location == (InterfaceAgentLocation { agent, lease }),
            final(self).state.bind_uri == old(self).state.bind_uri,
            final(self).state.closed == old(self).state.closed,
            final(self).state.published == old(self).state.published,
            old(self).state.closed ==> final(self).state == old(self).state,
            !old(self).state.closed ==> final(self).state.entries.view() == old(self).state.entries.view().insert(
                entry_key(InterfaceEndpointKey::Agent(agent)),
                (InterfaceLocationEntry { lease, endpoint: None }),
            ),
    {
        self.state.claim(InterfaceEndpointKey::Agent(agent), lease);
        InterfaceAgentLocation { agent, lease }
    }

    /// What an operation on an interface works on: nothing, unless it is the newest one.
    pub fn scope_to(&self, interface: u64) -> (bind_uri: Option<BindUri>)
        ensures
            bind_uri == if interface == self.interface {
                Some(self.state.bind_uri)
            } else {
                None
            },
    {
        if interface == self.interface {
            Some(self.state.bind_uri)
        } else {
            None
        }
    }

    /// Turns to a new interface, unless it is the same: the one before ends. Returns whether that end
    /// is to be told, and what is told of the new one.
    pub fn reinit(&mut self, interface: u64, bind_uri: BindUri, lease: u64, bound_addr: Option<SocketAddr>) -> (told: Option<
        (bool, Vec<InterfaceEvent>),
    >)
        requires
            old(self).state.wf(),
        ensures
            final(self).state.wf(),
            told is None == (interface == old(self).interface),
            told is None ==> *final(self) == *old(self),
            told matches Some((ended, begun)) ==> ended == !old(self).state.closed && told_at_start(bound_addr, begun@)
                && final(self).begins(interface, bind_uri, lease, bound_addr),
    {
        if interface == self.interface {
            return None;
        }
        let ended = self.state.close();
        let (current, begun) = CurrentInterfaceLocations::new(interface, bind_uri, lease, bound_addr);
        *self = current;
        Some((ended, begun))
    }
}

/// A lease of an earlier interface holds no place of the one that begins; the lease it begins with holds
/// the direct one.
pub proof fn beginning_ends_earlier_leases(
    current: CurrentInterfaceLocations,
    interface: u64,
    bind_uri: BindUri,
    lease: u64,
    bound_addr: Option<SocketAddr>,
    key: InterfaceEndpointKey,
    earlier: u64,
)
    requires
        current.begins(interface, bind_uri, lease, bound_addr),
    ensures
        current.state.owns(InterfaceEndpointKey::Direct, lease),
        earlier != lease ==> !current.state.owns(key, earlier),
{
}

proof fn lemma_single(table: SortedTable<InterfaceLocationEntry>, key: TableKey, entry: InterfaceLocationEntry)
    requires
        table.wf(),
        table.view() =~= Map::<TableKey, InterfaceLocationEntry>::empty().insert(key, entry),
    ensures
        table.values@.len() == 1,
        table.values@[0] == entry,
{
    assert(table.view().dom().contains(key));
    let at = table.keys@.index_of(key);
    assert(table.keys@[at] == key);
    table.lemma_index(at);
    if table.keys@.len() > 1 {
        let other = if at == 0 {
            1int
        } else {
            0int
        };
        table.lemma_index(other);
        assert(table.view().dom().contains(table.keys@[other]));
        assert(table.keys@[other] == key);
    }
}

/// What an interface publishes follows from what stands in its places alone.
pub proof fn publication_follows_the_places(left: InterfaceLocationsState, right: InterfaceLocationsState)
    requires
        left.wf(),
        right.wf(),
        left.entries.view() == right.entries.view(),
    ensures
        present(left.entries.values@) == present(right.entries.values@),
{
    crate::base::sorted::sorted_tables_are_unique(left.entries, right.entries);
}

/// Whoever is interested in one type of data hears of exactly that, and of the end of an interface.
pub proof fn events_are_heard_by_their_type(datum: Datum, removed: u64, type_id: u64)
    ensures
        typed(AddressEvent::Upsert(datum), type_id) == if datum.type_id == type_id {
            Some(AddressEvent::Upsert(datum.handle))
        } else {
            None
        },
        typed(AddressEvent::Remove(removed), type_id) is Some <==> removed == type_id,
        typed(AddressEvent::Remove(type_id), type_id) == Some(AddressEvent::<u64>::Remove(type_id)),
        typed(AddressEvent::Closed, type_id) == Some(AddressEvent::<u64>::Closed),
{
}

/// What is known of an interface is the last datum of each type that it told, until it takes that back or
/// closes. What is known of other interfaces, and of other types, does not change.
pub proof fn latest_datum_is_known(
    datas: Map<TableKey, KnownDatum>,
    bind_uri: BindUri,
    datum: Datum,
    other: BindUri,
    type_id: u64,
)
    ensures
        ({
            let told = EventPublisher::after(datas, bind_uri, AddressEvent::Upsert(datum));
            let taken = EventPublisher::after(datas, bind_uri, AddressEvent::Remove(datum.type_id));
            let here = datum_key(bind_uri, datum.type_id);
            let there = datum_key(other, type_id);
            let elsewhere = other != bind_uri || type_id != datum.type_id;
            &&& told.dom().contains(here) && told[here] == (KnownDatum { bind_uri, datum })
            &&& !taken.dom().contains(here)
            &&& elsewhere ==> (told.dom().contains(there) <==> datas.dom().contains(there)) && told[there] == datas[there]
            &&& elsewhere ==> (taken.dom().contains(there) <==> datas.dom().contains(there))
            &&& elsewhere && datas.dom().contains(there) ==> taken[there] == datas[there]
        }),
{
    parts_are_distinct(arbitrary(), arbitrary(), other, bind_uri);
}

proof fn lemma_present(entries: Seq<InterfaceLocationEntry>)
    ensures
        present(entries) == entries.filter(
            |entry: InterfaceLocationEntry| entry.endpoint is Some,
        ).map_values(|entry: InterfaceLocationEntry| entry.endpoint->Some_0),
        forall|endpoint: EndpointAddr| #[trigger]
            present(entries).contains(endpoint) <==> exists|i: int|
                #![trigger entries[i]]
                0 <= i < entries.len() && entries[i].endpoint == Some(endpoint),
    decreases entries.len(),
{
    reveal(Seq::filter);
    let known = |entry: InterfaceLocationEntry| entry.endpoint is Some;
    let endpoint_in = |entry: InterfaceLocationEntry| entry.endpoint->Some_0;
    if entries.len() == 0 {
        assert(entries.filter(known).map_values(endpoint_in) =~= Seq::empty());
    } else {
        let rest = entries.drop_last();
        let last = entries.last();
        lemma_present(rest);
        if known(last) {
            assert(entries.filter(known).map_values(endpoint_in) =~= rest.filter(known).map_values(endpoint_in).push(
                endpoint_in(last),
            ));
        }
        assert forall|endpoint: EndpointAddr| #[trigger] present(entries).contains(endpoint) <==> exists|i: int|
            #![trigger entries[i]]
            0 <= i < entries.len() && entries[i].endpoint == Some(endpoint) by {
            let all = present(entries);
            let earlier = present(rest);
            if all.contains(endpoint) {
                let k = choose|k: int| 0 <= k < all.len() && all[k] == endpoint;
                if k < earlier.len() {
                    assert(earlier[k] == endpoint);
                    assert(earlier.contains(endpoint));
                    let i = choose|i: int|
                        #![trigger rest[i]]
                        0 <= i < rest.len() && rest[i].endpoint == Some(endpoint);
                    assert(entries[i] == rest[i]);
                } else {
                    assert(entries[entries.len() - 1].endpoint == Some(endpoint));
                }
            }
            if exists|i: int| #![trigger entries[i]] 0 <= i < entries.len() && entries[i].endpoint == Some(endpoint) {
                let i = choose|i: int|
                    #![trigger entries[i]]
                    0 <= i < entries.len() && entries[i].endpoint == Some(endpoint);
                if i < rest.len() {
                    assert(rest[i] == entries[i]);
                    assert(earlier.contains(endpoint));
                    let k = choose|k: int| 0 <= k < earlier.len() && earlier[k] == endpoint;
                    assert(all[k] == endpoint);
                } else {
                    assert(all[all.len() - 1] == endpoint);
                }
            }
        }
    }
}

/// An interface publishes the endpoints of its places, in their order, and nothing of a place that has none.
/// What it publishes is told exactly if it changed: as a whole, or as gone where nothing is left.
pub proof fn interface_publishes_what_stands_in_its_places(
    state: InterfaceLocationsState,
    before: InterfaceLocationsState,
    entries: Map<TableKey, InterfaceLocationEntry>,
    told: Option<LocationUpdate>,
    endpoint: EndpointAddr,
)
    requires
        state.wf(),
        state.published_anew(before, entries, told),
    ensures
        state.published@ == state.entries.values@.filter(
            |entry: InterfaceLocationEntry| entry.endpoint is Some,
        ).map_values(|entry: InterfaceLocationEntry| entry.endpoint->Some_0),
        state.published@.contains(endpoint) <==> exists|key: TableKey|
            #![trigger entries[key]]
            entries.dom().contains(key) && entries[key].endpoint == Some(endpoint),
        told is None <==> state.published@ == before.published@,
        told matches Some(LocationUpdate::Upsert(set)) ==> set.endpoints@ == state.published@ && set.endpoints@.len() > 0,
        told matches Some(LocationUpdate::Remove) ==> state.published@.len() == 0,
        state.closed == before.closed && state.bind_uri == before.bind_uri,
{
    let table = state.entries;
    lemma_present(table.values@);
    if present(table.values@).contains(endpoint) {
        let i = choose|i: int|
            #![trigger table.values@[i]]
            0 <= i < table.values@.len() && table.values@[i].endpoint == Some(endpoint);
        table.lemma_index(i);
        assert(entries[table.keys@[i]].endpoint == Some(endpoint));
    }
    if exists|key: TableKey|
        #![trigger entries[key]]
        entries.dom().contains(key) && entries[key].endpoint == Some(endpoint) {
        let key = choose|key: TableKey|
            #![trigger entries[key]]
            entries.dom().contains(key) && entries[key].endpoint == Some(endpoint);
        let i = table.keys@.index_of(key);
        assert(table.keys@[i] == key);
        table.lemma_index(i);
        assert(table.values@[i].endpoint == Some(endpoint));
    }
}

/// A place belongs to the lease that claimed it last, as long as the interface is not closed.
pub proof fn place_belongs_to_its_lease(
    before: InterfaceLocationsState,
    after: InterfaceLocationsState,
    key: InterfaceEndpointKey,
    lease: u64,
    endpoint: Option<EndpointAddr>,
    other: InterfaceEndpointKey,
    another: u64,
)
    requires
        after.entries.view() == before.entries.view().insert(entry_key(key), InterfaceLocationEntry { lease, endpoint }),
        after.closed == before.closed,
    ensures
        after.owns(key, another) <==> another == lease && !after.closed,
        other != key ==> after.owns(other, another) == before.owns(other, another),
        after.entry(key) == Some(InterfaceLocationEntry { lease, endpoint }),
        other != key ==> after.entry(other) == before.entry(other),
{
    endpoint_keys_are_distinct(before.bind_uri, before.bind_uri, key, other);
}

/// An interface begins by telling the endpoint of the address it is bound to, if that is known, and then that
/// address.
pub proof fn interface_begins_with_its_address(bound_addr: Option<SocketAddr>, told: Seq<InterfaceEvent>)
    requires
        told_at_start(bound_addr, told),
    ensures
        told.last() == InterfaceEvent::Bound(bound_addr),
        bound_addr is None ==> told.len() == 1,
        bound_addr matches Some(addr) ==> told.len() == 2 && (told[0] matches InterfaceEvent::Endpoints(update) && update
            matches LocationUpdate::Upsert(set) && set.endpoints@.len() == 1 && set.endpoints@[0] == (
        EndpointAddr::Direct { addr })),
        bound_endpoint(bound_addr) == match bound_addr {
            Some(addr) => Some(EndpointAddr::Direct { addr }),
            None => None,
        },
{
}

} // verus!
