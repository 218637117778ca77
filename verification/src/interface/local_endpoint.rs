//! The endpoints of local interfaces: who may publish one, and who is told.
use vstd::prelude::*;

use crate::base::addr::{BindUri, EndpointAddr, SocketAddr};
use crate::base::sorted::{begins, without_part, SortedTable};
use crate::base::table::{addr_key, addr_part, bind_key, bind_part, parts_are_distinct, TableKey};
use crate::interface::subscribers::Subscribers;

verus! {

/// What an endpoint of an interface is known by.
#[derive(Clone, Copy, Debug, PartialEq, Eq, Structural)]
pub enum InterfaceEndpointKey {
    Direct,
    Agent(SocketAddr),
}

/// A change of an interface's endpoints.
#[derive(Clone, Copy, Debug, PartialEq, Eq, Structural)]
pub enum InterfaceEndpointUpdate {
    Upsert { key: InterfaceEndpointKey, endpoint: EndpointAddr },
    Remove { key: InterfaceEndpointKey },
    Close,
}

/// Why an endpoint cannot be claimed.
#[derive(Clone, Copy, Debug, PartialEq, Eq, Structural)]
pub enum ClaimInterfaceEndpointError {
    Closed { bind_uri: BindUri },
    AlreadyClaimed { bind_uri: BindUri, key: InterfaceEndpointKey },
}

/// The part of a table's key that stands for an endpoint's. The direct one comes first.
pub open spec fn part_of(key: InterfaceEndpointKey) -> (u64, u128, u128) {
    match key {
        InterfaceEndpointKey::Direct => (0, 0, 0),
        InterfaceEndpointKey::Agent(agent) => addr_key(agent),
    }
}

pub fn part_for(key: InterfaceEndpointKey) -> (part: (u64, u128, u128))
    ensures
        part == part_of(key),
{
    match key {
        InterfaceEndpointKey::Direct => (0, 0, 0),
        InterfaceEndpointKey::Agent(agent) => addr_part(agent),
    }
}

/// The key of an endpoint in the table of one interface.
pub open spec fn entry_key(key: InterfaceEndpointKey) -> TableKey {
    let part = part_of(key);
    (part.0, part.1, part.2, 0, 0, 0)
}

fn entry_key_for(key: InterfaceEndpointKey) -> (table_key: TableKey)
    ensures
        table_key == entry_key(key),
{
    let part = part_for(key);
    (part.0, part.1, part.2, 0, 0, 0)
}

/// The key of an endpoint in a table of all interfaces.
pub open spec fn hub_key(bind_uri: BindUri, key: InterfaceEndpointKey) -> TableKey {
    let bind = bind_key(bind_uri);
    let part = part_of(key);
    (bind.0, bind.1, bind.2, part.0, part.1, part.2)
}

fn hub_key_for(bind_uri: BindUri, key: InterfaceEndpointKey) -> (table_key: TableKey)
    ensures
        table_key == hub_key(bind_uri, key),
{
    let bind = bind_part(bind_uri);
    let part = part_for(key);
    (bind.0, bind.1, bind.2, part.0, part.1, part.2)
}

/// The key of an interface.
pub open spec fn interface_key(bind_uri: BindUri) -> TableKey {
    let bind = bind_key(bind_uri);
    (bind.0, bind.1, bind.2, 0, 0, 0)
}

fn interface_key_for(bind_uri: BindUri) -> (table_key: TableKey)
    ensures
        table_key == interface_key(bind_uri),
{
    let bind = bind_part(bind_uri);
    (bind.0, bind.1, bind.2, 0, 0, 0)
}

/// Different endpoints and different interfaces have different keys.
pub proof fn endpoint_keys_are_distinct(
    bind_uri: BindUri,
    other_bind_uri: BindUri,
    key: InterfaceEndpointKey,
    other_key: InterfaceEndpointKey,
)
    ensures
        entry_key(key) == entry_key(other_key) ==> key == other_key,
        interface_key(bind_uri) == interface_key(other_bind_uri) ==> bind_uri == other_bind_uri,
        hub_key(bind_uri, key) == hub_key(other_bind_uri, other_key) ==> bind_uri == other_bind_uri && key == other_key,
        begins(hub_key(bind_uri, key), bind_key(other_bind_uri)) ==> bind_uri == other_bind_uri,
{
    let addr = match key {
        InterfaceEndpointKey::Agent(agent) => agent,
        InterfaceEndpointKey::Direct => SocketAddr::V4 { ip: arbitrary(), port: 0 },
    };
    let other_addr = match other_key {
        InterfaceEndpointKey::Agent(agent) => agent,
        InterfaceEndpointKey::Direct => SocketAddr::V4 { ip: arbitrary(), port: 0 },
    };
    parts_are_distinct(addr, other_addr, bind_uri, other_bind_uri);
    parts_are_distinct(other_addr, addr, other_bind_uri, bind_uri);
}

/// A claimed endpoint: who claimed it, and where it is.
#[derive(Clone, Copy, Debug, PartialEq, Eq, Structural)]
pub struct InterfaceEndpointEntry {
    pub claim: u64,
    pub endpoint: Option<EndpointAddr>,
}

/// One generation of an interface's endpoints. Claims go by numbers of the caller's; no two that are
/// alive are the same.
pub struct InterfaceEndpointsState {
    pub bind_uri: BindUri,
    pub generation: u64,
    pub closed: bool,
    pub entries: SortedTable<InterfaceEndpointEntry>,
}

impl InterfaceEndpointsState {
    pub open spec fn wf(&self) -> bool {
        self.entries.wf()
    }

    /// What is claimed under a key.
    pub open spec fn entry(&self, key: InterfaceEndpointKey) -> Option<InterfaceEndpointEntry> {
        self.entries.at(entry_key(key))
    }

    /// Whether a claim owns a key.
    pub open spec fn owns(&self, key: InterfaceEndpointKey, claim: u64) -> bool {
        !self.closed && (self.entry(key) matches Some(entry) && entry.claim == claim)
    }

    /// The same generation, but for what is claimed.
    pub open spec fn same_but_entries(&self, other: InterfaceEndpointsState) -> bool {
        self.bind_uri == other.bind_uri && self.generation == other.generation && self.closed == other.closed
    }

    pub fn new(bind_uri: BindUri, generation: u64) -> (state: InterfaceEndpointsState)
        ensures
            state.wf(),
            state.bind_uri == bind_uri,
            state.generation == generation,
            !state.closed,
            state.entries.view() == Map::<TableKey, InterfaceEndpointEntry>::empty(),
    {
        InterfaceEndpointsState { bind_uri, generation, closed: false, entries: SortedTable::new() }
    }

    /// Claims a key. `alive` says whether the claim that holds the key, if there is one, is still in
    /// use; one that is not gives way.
    pub fn claim(&mut self, key: InterfaceEndpointKey, claim: u64, alive: bool) -> (result: Result<
        (),
        ClaimInterfaceEndpointError,
    >)
        requires
            old(self).wf(),
        ensures
            final(self).wf(),
            final(self).same_but_entries(*old(self)),
            if old(self).closed {
                result == Err::<(), ClaimInterfaceEndpointError>(
                    ClaimInterfaceEndpointError::Closed { bind_uri: old(self).bind_uri },
                ) && *final(self) == *old(self)
            } else if old(self).entry(key) is Some && alive {
                result == Err::<(), ClaimInterfaceEndpointError>(
                    ClaimInterfaceEndpointError::AlreadyClaimed { bind_uri: old(self).bind_uri, key },
                ) && *final(self) == *old(self)
            } else {
                result is Ok && final(self).entries.view() == old(self).entries.view().insert(
                    entry_key(key),
                    (InterfaceEndpointEntry { claim, endpoint: None }),
                )
            },
    {
        if self.closed {
            return Err(ClaimInterfaceEndpointError::Closed { bind_uri: self.bind_uri });
        }
        let table_key = entry_key_for(key);
        if self.entries.get(table_key).is_some() && alive {
            return Err(ClaimInterfaceEndpointError::AlreadyClaimed { bind_uri: self.bind_uri, key });
        }
        let _ = self.entries.insert(table_key, InterfaceEndpointEntry { claim, endpoint: None });
        Ok(())
    }

    /// Claims the direct endpoint. `alive` tells whether a claim on it is still held.
    pub fn direct_endpoint_publisher(&mut self, claim: u64, alive: bool) -> (result: Result<
        InterfaceDirectEndpointPublisher,
        ClaimInterfaceEndpointError,
    >)
        requires
            old(self).wf(),
        ensures
            final(self).wf(),
            final(self).same_but_entries(*old(self)),
            ({
                let key = InterfaceEndpointKey::Direct;
                if old(self).closed {
                    &&& result matches Err(error) && error == (ClaimInterfaceEndpointError::Closed {
                        bind_uri: old(self).bind_uri,
                    })
                    &&& *final(self) == *old(self)
                } else if old(self).entry(key) is Some && alive {
                    &&& result matches Err(error) && error == (ClaimInterfaceEndpointError::AlreadyClaimed {
                        bind_uri: old(self).bind_uri,
                        key,
                    })
                    &&& *final(self) == *old(self)
                } else {
                    &&& result matches Ok(publisher) && publisher == (InterfaceDirectEndpointPublisher { claim })
                    &&& final(self).entries.view() == old(self).entries.view().insert(
                        entry_key(key),
                        (InterfaceEndpointEntry { claim, endpoint: None }),
                    )
                }
            }),
    {
        match self.claim(InterfaceEndpointKey::Direct, claim, alive) {
            Ok(_) => Ok(InterfaceDirectEndpointPublisher { claim }),
            Err(error) => Err(error),
        }
    }

    /// Claims the endpoint behind an agent. `alive` tells whether a claim on it is still held.
    pub fn agent_endpoint_publisher(&mut self, agent: SocketAddr, claim: u64, alive: bool) -> (result: Result<
        InterfaceAgentEndpointPublisher,
        ClaimInterfaceEndpointError,
    >)
        requires
            old(self).wf(),
        ensures
            final(self).wf(),
            final(self).same_but_entries(*old(self)),
            ({
                let key = InterfaceEndpointKey::Agent(agent);
                if old(self).closed {
                    &&& result matches Err(error) && error == (ClaimInterfaceEndpointError::Closed {
                        bind_uri: old(self).bind_uri,
                    })
                    &&& *final(self) == *old(self)
                } else if old(self).entry(key) is Some && alive {
                    &&& result matches Err(error) && error == (ClaimInterfaceEndpointError::AlreadyClaimed {
                        bind_uri: old(self).bind_uri,
                        key,
                    })
                    &&& *final(self) == *old(self)
                } else {
                    &&& result matches Ok(publisher) && publisher == (InterfaceAgentEndpointPublisher { agent, claim })
                    &&& final(self).entries.view() == old(self).entries.view().insert(
                        entry_key(key),
                        (InterfaceEndpointEntry { claim, endpoint: None }),
                    )
                }
            }),
    {
        match self.claim(InterfaceEndpointKey::Agent(agent), claim, alive) {
            Ok(_) => Ok(InterfaceAgentEndpointPublisher { agent, claim }),
            Err(error) => Err(error),
        }
    }

    /// Publishes an endpoint under a key, if the claim owns it. Returns whether it does, and what is
    /// to be told.
    pub fn upsert_if_owned(&mut self, key: InterfaceEndpointKey, claim: u64, endpoint: EndpointAddr) -> (told: (
        bool,
        Option<InterfaceEndpointUpdate>,
    ))
        requires
            old(self).wf(),
        ensures
            final(self).wf(),
            final(self).same_but_entries(*old(self)),
            told.0 == old(self).owns(key, claim),
            if told.0 && old(self).entry(key)->0.endpoint != Some(endpoint) {
                told.1 == Some(InterfaceEndpointUpdate::Upsert { key, endpoint }) && final(self).entries.view() == old(
                    self,
                ).entries.view().insert(entry_key(key), (InterfaceEndpointEntry { claim, endpoint: Some(endpoint) }))
            } else {
                told.1 is None && *final(self) == *old(self)
            },
    {
        if self.closed {
            return (false, None);
        }
        let table_key = entry_key_for(key);
        let entry = match self.entries.get(table_key) {
            Some(entry) => entry,
            None => return (false, None),
        };
        if entry.claim != claim {
            return (false, None);
        }
        if entry.endpoint == Some(endpoint) {
            return (true, None);
        }
        let _ = self.entries.insert(table_key, InterfaceEndpointEntry { claim, endpoint: Some(endpoint) });
        (true, Some(InterfaceEndpointUpdate::Upsert { key, endpoint }))
    }

    /// Withdraws what is published under a key, if the claim owns it; the claim stays.
    pub fn clear_if_owned(&mut self, key: InterfaceEndpointKey, claim: u64) -> (told: (
        bool,
        Option<InterfaceEndpointUpdate>,
    ))
        requires
            old(self).wf(),
        ensures
            final(self).wf(),
            final(self).same_but_entries(*old(self)),
            told.0 == old(self).owns(key, claim),
            if told.0 && old(self).entry(key)->0.endpoint is Some {
                told.1 == Some(InterfaceEndpointUpdate::Remove { key }) && final(self).entries.view() == old(
                    self,
                ).entries.view().insert(entry_key(key), (InterfaceEndpointEntry { claim, endpoint: None }))
            } else {
                told.1 is None && *final(self) == *old(self)
            },
    {
        if self.closed {
            return (false, None);
        }
        let table_key = entry_key_for(key);
        let entry = match self.entries.get(table_key) {
            Some(entry) => entry,
            None => return (false, None),
        };
        if entry.claim != claim {
            return (false, None);
        }
        if entry.endpoint.is_none() {
            return (true, None);
        }
        let _ = self.entries.insert(table_key, InterfaceEndpointEntry { claim, endpoint: None });
        (true, Some(InterfaceEndpointUpdate::Remove { key }))
    }

    /// Gives up a claim, and withdraws what was published under it.
    pub fn remove_if_owned(&mut self, key: InterfaceEndpointKey, claim: u64) -> (told: Option<InterfaceEndpointUpdate>)
        requires
            old(self).wf(),
        ensures
            final(self).wf(),
            final(self).same_but_entries(*old(self)),
            told == if old(self).owns(key, claim) && old(self).entry(key)->0.endpoint is Some {
                Some(InterfaceEndpointUpdate::Remove { key })
            } else {
                None
            },
            if old(self).owns(key, claim) {
                final(self).entries.view() == old(self).entries.view().remove(entry_key(key))
            } else {
                *final(self) == *old(self)
            },
    {
        if self.closed {
            return None;
        }
        let table_key = entry_key_for(key);
        let entry = match self.entries.get(table_key) {
            Some(entry) => entry,
            None => return None,
        };
        if entry.claim != claim {
            return None;
        }
        let _ = self.entries.remove(table_key);
        if entry.endpoint.is_some() {
            Some(InterfaceEndpointUpdate::Remove { key })
        } else {
            None
        }
    }

    /// Ends the generation.
    pub fn close(&mut self) -> (told: Option<InterfaceEndpointUpdate>)
        requires
            old(self).wf(),
        ensures
            final(self).wf(),
            final(self).bind_uri == old(self).bind_uri,
            final(self).generation == old(self).generation,
            if old(self).closed {
                told is None && *final(self) == *old(self)
            } else {
                told == Some(InterfaceEndpointUpdate::Close) && final(self).closed && final(self).entries.view()
                    == Map::<TableKey, InterfaceEndpointEntry>::empty()
            },
    {
        if self.closed {
            return None;
        }
        self.closed = true;
        self.entries = SortedTable::new();
        Some(InterfaceEndpointUpdate::Close)
    }
}

/// The holder of a claim on the direct endpoint.
#[derive(Debug)]
pub struct InterfaceDirectEndpointPublisher {
    pub claim: u64,
}

impl InterfaceDirectEndpointPublisher {
    /// Publishes an address as the direct endpoint.
    pub fn upsert(&mut self, state: &mut InterfaceEndpointsState, addr: SocketAddr) -> (told: (
        bool,
        Option<InterfaceEndpointUpdate>,
    ))
        requires
            old(state).wf(),
        ensures
            final(state).wf(),
            *final(self) == *old(self),
            final(state).same_but_entries(*old(state)),
            told.0 == old(state).owns(InterfaceEndpointKey::Direct, old(self).claim),
            ({
                let key = InterfaceEndpointKey::Direct;
                let endpoint = EndpointAddr::Direct { addr };
                if told.0 && old(state).entry(key)->0.endpoint != Some(endpoint) {
                    told.1 == Some(InterfaceEndpointUpdate::Upsert { key, endpoint }) && final(state).entries.view()
                        == old(state).entries.view().insert(
                        entry_key(key),
                        (InterfaceEndpointEntry { claim: old(self).claim, endpoint: Some(endpoint) }),
                    )
                } else {
                    told.1 is None && *final(state) == *old(state)
                }
            }),
    {
        state.upsert_if_owned(InterfaceEndpointKey::Direct, self.claim, EndpointAddr::Direct { addr })
    }

    /// Withdraws what is published; the claim stays.
    pub fn remove(&mut self, state: &mut InterfaceEndpointsState) -> (told: (bool, Option<InterfaceEndpointUpdate>))
        requires
            old(state).wf(),
        ensures
            final(state).wf(),
            *final(self) == *old(self),
            final(state).same_but_entries(*old(state)),
            told.0 == old(state).owns(InterfaceEndpointKey::Direct, old(self).claim),
            ({
                let key = InterfaceEndpointKey::Direct;
                if told.0 && old(state).entry(key)->0.endpoint is Some {
                    told.1 == Some(InterfaceEndpointUpdate::Remove { key }) && final(state).entries.view() == old(
                        state,
                    ).entries.view().insert(
                        entry_key(key),
                        (InterfaceEndpointEntry { claim: old(self).claim, endpoint: None }),
                    )
                } else {
                    told.1 is None && *final(state) == *old(state)
                }
            }),
    {
        state.clear_if_owned(InterfaceEndpointKey::Direct, self.claim)
    }
}

/// The holder of a claim on the endpoint behind an agent.
#[derive(Debug)]
pub struct InterfaceAgentEndpointPublisher {
    pub agent: SocketAddr,
    pub claim: u64,
}

impl InterfaceAgentEndpointPublisher {
    pub fn agent(&self) -> (agent: SocketAddr)
        ensures
            agent == self.agent,
    {
        self.agent
    }

    /// Publishes an outer address as the endpoint behind the agent.
    pub fn upsert(&mut self, state: &mut InterfaceEndpointsState, outer: SocketAddr) -> (told: (
        bool,
        Option<InterfaceEndpointUpdate>,
    ))
        requires
            old(state).wf(),
        ensures
            final(state).wf(),
            *final(self) == *old(self),
            final(state).same_but_entries(*old(state)),
            told.0 == old(state).owns(InterfaceEndpointKey::Agent(old(self).agent), old(self).claim),
            ({
                let key = InterfaceEndpointKey::Agent(old(self).agent);
                let endpoint = EndpointAddr::Mediate { agent: old(self).agent, outer };
                if told.0 && old(state).entry(key)->0.endpoint != Some(endpoint) {
                    told.1 == Some(InterfaceEndpointUpdate::Upsert { key, endpoint }) && final(state).entries.view()
                        == old(state).entries.view().insert(
                        entry_key(key),
                        (InterfaceEndpointEntry { claim: old(self).claim, endpoint: Some(endpoint) }),
                    )
                } else {
                    told.1 is None && *final(state) == *old(state)
                }
            }),
    {
        state.upsert_if_owned(
            InterfaceEndpointKey::Agent(self.agent),
            self.claim,
            EndpointAddr::Mediate { agent: self.agent, outer },
        )
    }

    /// Withdraws what is published; the claim stays.
    pub fn remove(&mut self, state: &mut InterfaceEndpointsState) -> (told: (bool, Option<InterfaceEndpointUpdate>))
        requires
            old(state).wf(),
        ensures
            final(state).wf(),
            *final(self) == *old(self),
            final(state).same_but_entries(*old(state)),
            told.0 == old(state).owns(InterfaceEndpointKey::Agent(old(self).agent), old(self).claim),
            ({
                let key = InterfaceEndpointKey::Agent(old(self).agent);
                if told.0 && old(state).entry(key)->0.endpoint is Some {
                    told.1 == Some(InterfaceEndpointUpdate::Remove { key }) && final(state).entries.view() == old(
                        state,
                    ).entries.view().insert(
                        entry_key(key),
                        (InterfaceEndpointEntry { claim: old(self).claim, endpoint: None }),
                    )
                } else {
                    told.1 is None && *final(state) == *old(state)
                }
            }),
    {
        state.clear_if_owned(InterfaceEndpointKey::Agent(self.agent), self.claim)
    }
}

/// The endpoints of one interface while it lasts, with the claim on its direct one.
pub struct CurrentInterfaceLocalEndpoints {
    pub interface: u64,
    pub publishers: InterfaceEndpointsState,
    pub direct: Option<u64>,
}

/// The direct endpoint of an interface that is bound to an address.
pub open spec fn bound_endpoint(bound_addr: Option<SocketAddr>) -> Option<EndpointAddr> {
    match bound_addr {
        Some(addr) => Some(EndpointAddr::Direct { addr }),
        None => None,
    }
}

/// What is told of the endpoint that an interface begins with.
pub open spec fn begun_update(bound_addr: Option<SocketAddr>) -> Option<InterfaceEndpointUpdate> {
    match bound_endpoint(bound_addr) {
        Some(endpoint) => Some(InterfaceEndpointUpdate::Upsert { key: InterfaceEndpointKey::Direct, endpoint }),
        None => None,
    }
}

impl CurrentInterfaceLocalEndpoints {
    /// Whether these are the endpoints at the beginning of a generation: nothing is claimed but the
    /// direct endpoint.
    pub open spec fn begins(
        &self,
        interface: u64,
        bind_uri: BindUri,
        generation: u64,
        direct: u64,
        bound_addr: Option<SocketAddr>,
    ) -> bool {
        &&& self.interface == interface
        &&& self.direct == Some(direct)
        &&& self.publishers.wf()
        &&& self.publishers.bind_uri == bind_uri
        &&& self.publishers.generation == generation
        &&& !self.publishers.closed
        &&& self.publishers.entries.view() == Map::<TableKey, InterfaceEndpointEntry>::empty().insert(
            entry_key(InterfaceEndpointKey::Direct),
            InterfaceEndpointEntry { claim: direct, endpoint: bound_endpoint(bound_addr) },
        )
    }

    /// Begins a generation for an interface. Where the interface is bound to an address, that is its
    /// direct endpoint from the start, and is to be told.
    pub fn new(
        interface: u64,
        bind_uri: BindUri,
        generation: u64,
        direct: u64,
        bound_addr: Option<SocketAddr>,
    ) -> (begun: (CurrentInterfaceLocalEndpoints, Option<InterfaceEndpointUpdate>))
        ensures
            begun.0.begins(interface, bind_uri, generation, direct, bound_addr),
            begun.1 == begun_update(bound_addr),
    {
        let mut publishers = InterfaceEndpointsState::new(bind_uri, generation);
        let ghost nothing = Map::<TableKey, InterfaceEndpointEntry>::empty();
        let ghost key = entry_key(InterfaceEndpointKey::Direct);
        let claimed = publishers.claim(InterfaceEndpointKey::Direct, direct, false);
        assert(claimed is Ok);
        let mut told: Option<InterfaceEndpointUpdate> = None;
        if let Some(addr) = bound_addr {
            let endpoint = EndpointAddr::Direct { addr };
            assert(publishers.entries.view().dom().contains(key));
            let (_, update) = publishers.upsert_if_owned(InterfaceEndpointKey::Direct, direct, endpoint);
            told = update;
            assert(publishers.entries.view() =~= nothing.insert(
                key,
                InterfaceEndpointEntry { claim: direct, endpoint: Some(endpoint) },
            ));
        }
        (CurrentInterfaceLocalEndpoints { interface, publishers, direct: Some(direct) }, told)
    }

    /// Turns to a new interface, unless it is the same: the generation of the one before ends.
    /// Returns what is to be told for the old generation and for the new one.
    pub fn reinit(
        &mut self,
        interface: u64,
        bind_uri: BindUri,
        generation: u64,
        direct: u64,
        bound_addr: Option<SocketAddr>,
    ) -> (told: Option<(Option<InterfaceEndpointUpdate>, Option<InterfaceEndpointUpdate>)>)
        requires
            old(self).publishers.wf(),
        ensures
            final(self).publishers.wf(),
            told is None == (interface == old(self).interface),
            told is None ==> *final(self) == *old(self),
            told matches Some((ended, begun)) ==> {
                &&& ended == if old(self).publishers.closed {
                    None
                } else {
                    Some(InterfaceEndpointUpdate::Close)
                }
                &&& begun == begun_update(bound_addr)
                &&& final(self).begins(interface, bind_uri, generation, direct, bound_addr)
            },
    {
        if interface == self.interface {
            return None;
        }
        let ended = self.publishers.close();
        let (current, begun) = CurrentInterfaceLocalEndpoints::new(interface, bind_uri, generation, direct, bound_addr);
        *self = current;
        Some((ended, begun))
    }
}

/// A claim of an earlier generation owns nothing of the one that begins; the claim it begins with owns
/// the direct endpoint.
pub proof fn beginning_ends_earlier_claims(
    current: CurrentInterfaceLocalEndpoints,
    interface: u64,
    bind_uri: BindUri,
    generation: u64,
    direct: u64,
    bound_addr: Option<SocketAddr>,
    key: InterfaceEndpointKey,
    claim: u64,
)
    requires
        current.begins(interface, bind_uri, generation, direct, bound_addr),
    ensures
        current.publishers.owns(InterfaceEndpointKey::Direct, direct),
        claim != direct ==> !current.publishers.owns(key, claim),
{
}

/// What publishers tell the hub.
#[derive(Clone, Copy, Debug, PartialEq, Eq, Structural)]
pub enum EndpointEvent {
    OpenGeneration { bind_uri: BindUri, generation: u64 },
    Update { bind_uri: BindUri, generation: u64, update: InterfaceEndpointUpdate },
}

/// An endpoint that the hub knows.
#[derive(Clone, Copy, Debug, PartialEq, Eq, Structural)]
pub struct PublishedEndpoint {
    pub bind_uri: BindUri,
    pub key: InterfaceEndpointKey,
    pub endpoint: EndpointAddr,
}

/// The endpoints of all interfaces, as far as their current generations published them.
pub struct LocalEndpointsHubState {
    pub current_generation: SortedTable<u64>,
    pub endpoints: SortedTable<PublishedEndpoint>,
    pub subscribers: Subscribers,
}

impl LocalEndpointsHubState {
    pub open spec fn wf(&self) -> bool {
        &&& self.current_generation.wf()
        &&& self.endpoints.wf()
        &&& self.subscribers.wf()
        &&& forall|i: int|
            #![trigger self.endpoints.values@[i]]
            0 <= i < self.endpoints.values@.len() ==> self.endpoints.keys@[i] == hub_key(
                self.endpoints.values@[i].bind_uri,
                self.endpoints.values@[i].key,
            )
    }

    pub open spec fn generation(&self, bind_uri: BindUri) -> Option<u64> {
        self.current_generation.at(interface_key(bind_uri))
    }

    /// Whether every endpoint stands under its own key.
    pub open spec fn keyed(endpoints: Map<TableKey, PublishedEndpoint>) -> bool {
        forall|k: TableKey|
            #![trigger endpoints[k]]
            endpoints.dom().contains(k) ==> k == hub_key(endpoints[k].bind_uri, endpoints[k].key)
    }

    proof fn lemma_keyed(&self)
        requires
            self.endpoints.wf(),
        ensures
            Self::keyed(self.endpoints.view()) <==> forall|i: int|
                #![trigger self.endpoints.values@[i]]
                0 <= i < self.endpoints.values@.len() ==> self.endpoints.keys@[i] == hub_key(
                    self.endpoints.values@[i].bind_uri,
                    self.endpoints.values@[i].key,
                ),
    {
        let table = self.endpoints;
        if Self::keyed(table.view()) {
            assert forall|i: int| #![trigger table.values@[i]] 0 <= i < table.values@.len() implies table.keys@[i]
                == hub_key(table.values@[i].bind_uri, table.values@[i].key) by {
                table.lemma_index(i);
                assert(table.view()[table.keys@[i]] == table.values@[i]);
            }
        }
        if forall|i: int|
            #![trigger table.values@[i]]
            0 <= i < table.values@.len() ==> table.keys@[i] == hub_key(
                table.values@[i].bind_uri,
                table.values@[i].key,
            ) {
            assert forall|k: TableKey| #![trigger table.view()[k]] table.view().dom().contains(k) implies k == hub_key(
                table.view()[k].bind_uri,
                table.view()[k].key,
            ) by {
                let i = table.keys@.index_of(k);
                assert(table.keys@[i] == k);
                table.lemma_index(i);
                assert(table.values@[i] == table.view()[k]);
            }
        }
    }

    pub fn new() -> (hub: LocalEndpointsHubState)
        ensures
            hub.wf(),
            hub.current_generation.view() == Map::<TableKey, u64>::empty(),
            hub.endpoints.view() == Map::<TableKey, PublishedEndpoint>::empty(),
            hub.subscribers.view() == Set::<u64>::empty(),
    {
        LocalEndpointsHubState {
            current_generation: SortedTable::new(),
            endpoints: SortedTable::new(),
            subscribers: Subscribers::new(),
        }
    }

    /// Makes a generation current. The endpoints of the one before are gone; subscribers are told so
    /// if there was another.
    pub fn open_generation(&mut self, bind_uri: BindUri, generation: u64) -> (told: Option<InterfaceEndpointUpdate>)
        requires
            old(self).wf(),
        ensures
            final(self).wf(),
            opened(*old(self), bind_uri, generation, *final(self), told),
    {
        proof {
            self.lemma_keyed();
        }
        let previous = self.current_generation.insert(interface_key_for(bind_uri), generation);
        self.endpoints.remove_all(bind_part(bind_uri));
        proof {
            self.lemma_keyed();
        }
        match previous {
            Some(previous) => if previous != generation {
                Some(InterfaceEndpointUpdate::Close)
            } else {
                None
            },
            None => None,
        }
    }

    /// Takes an update of an interface's current generation. One of another generation is ignored.
    pub fn apply_update(&mut self, bind_uri: BindUri, generation: u64, update: InterfaceEndpointUpdate) -> (told: Option<
        InterfaceEndpointUpdate,
    >)
        requires
            old(self).wf(),
        ensures
            final(self).wf(),
            updated(*old(self), bind_uri, generation, update, *final(self), told),
    {
        let current = match self.current_generation.get(interface_key_for(bind_uri)) {
            Some(current) => current,
            None => return None,
        };
        if current != generation {
            return None;
        }
        proof {
            self.lemma_keyed();
        }
        match update {
            InterfaceEndpointUpdate::Close => {
                let _ = self.current_generation.remove(interface_key_for(bind_uri));
                self.endpoints.remove_all(bind_part(bind_uri));
            },
            InterfaceEndpointUpdate::Upsert { key, endpoint } => {
                let _ = self.endpoints.insert(
                    hub_key_for(bind_uri, key),
                    PublishedEndpoint { bind_uri, key, endpoint },
                );
            },
            InterfaceEndpointUpdate::Remove { key } => {
                let _ = self.endpoints.remove(hub_key_for(bind_uri, key));
            },
        }
        proof {
            self.lemma_keyed();
        }
        Some(update)
    }

    /// Takes an event, and returns what every subscriber is to be told, and of which interface.
    pub fn apply_event(&mut self, event: EndpointEvent) -> (told: Option<(BindUri, InterfaceEndpointUpdate)>)
        requires
            old(self).wf(),
        ensures
            final(self).wf(),
            match event {
                EndpointEvent::OpenGeneration { bind_uri, generation } => opened(
                    *old(self),
                    bind_uri,
                    generation,
                    *final(self),
                    update_in(told),
                ) && (told matches Some((told_uri, _)) ==> told_uri == bind_uri),
                EndpointEvent::Update { bind_uri, generation, update } => updated(
                    *old(self),
                    bind_uri,
                    generation,
                    update,
                    *final(self),
                    update_in(told),
                ) && (told matches Some((told_uri, _)) ==> told_uri == bind_uri),
            },
    {
        let (bind_uri, told) = match event {
            EndpointEvent::OpenGeneration { bind_uri, generation } => (
                bind_uri,
                self.open_generation(bind_uri, generation),
            ),
            EndpointEvent::Update { bind_uri, generation, update } => (
                bind_uri,
                self.apply_update(bind_uri, generation, update),
            ),
        };
        match told {
            Some(update) => Some((bind_uri, update)),
            None => None,
        }
    }

    /// What a new subscriber is told first: every endpoint that is published.
    pub fn replay(&self) -> (events: Vec<(BindUri, InterfaceEndpointUpdate)>)
        requires
            self.wf(),
        ensures
            events@.len() == self.endpoints.values@.len(),
            forall|i: int|
                #![trigger events@[i]]
                0 <= i < events@.len() ==> events@[i] == replayed(self.endpoints.values@[i]),
    {
        let mut events: Vec<(BindUri, InterfaceEndpointUpdate)> = Vec::new();
        let mut at: usize = 0;
        while at < self.endpoints.values.len()
            invariant
                at <= self.endpoints.values@.len(),
                events@.len() == at,
                forall|i: int|
                    #![trigger events@[i]]
                    0 <= i < events@.len() ==> events@[i] == replayed(self.endpoints.values@[i]),
            decreases self.endpoints.values@.len() - at,
        {
            let published = self.endpoints.values[at];
            events.push(
                (
                    published.bind_uri,
                    InterfaceEndpointUpdate::Upsert { key: published.key, endpoint: published.endpoint },
                ),
            );
            at = at + 1;
        }
        events
    }

    /// Enters a subscriber, unless it was gone before the replay reached it.
    pub fn subscribe(&mut self, subscriber: u64, reached: bool)
        requires
            old(self).wf(),
        ensures
            final(self).wf(),
            final(self).current_generation == old(self).current_generation,
            final(self).endpoints == old(self).endpoints,
            final(self).subscribers.view() == if reached {
                old(self).subscribers.view().insert(subscriber)
            } else {
                old(self).subscribers.view()
            },
    {
        if reached {
            self.subscribers.insert(subscriber);
        }
    }

    pub fn unsubscribe(&mut self, subscriber: u64)
        requires
            old(self).wf(),
        ensures
            final(self).wf(),
            final(self).current_generation == old(self).current_generation,
            final(self).endpoints == old(self).endpoints,
            final(self).subscribers.view() == old(self).subscribers.view().remove(subscriber),
    {
        self.subscribers.remove(subscriber);
    }

    /// Forgets the subscribers that a forwarded event did not reach.
    pub fn forwarded(&mut self, unreached: &Vec<u64>)
        requires
            old(self).wf(),
        ensures
            final(self).wf(),
            final(self).current_generation == old(self).current_generation,
            final(self).endpoints == old(self).endpoints,
            final(self).subscribers.view() == old(self).subscribers.view().difference(unreached@.to_set()),
    {
        self.subscribers.drop_all(unreached);
    }
}

/// Whether making a generation current takes the hub from one state to another and tells `told`.
pub open spec fn opened(
    before: LocalEndpointsHubState,
    bind_uri: BindUri,
    generation: u64,
    after: LocalEndpointsHubState,
    told: Option<InterfaceEndpointUpdate>,
) -> bool {
    &&& after.current_generation.view() == before.current_generation.view().insert(interface_key(bind_uri), generation)
    &&& after.endpoints.view() == without_part(before.endpoints.view(), bind_key(bind_uri))
    &&& after.subscribers == before.subscribers
    &&& told == match before.generation(bind_uri) {
        Some(previous) if previous != generation => Some(InterfaceEndpointUpdate::Close),
        _ => None,
    }
}

/// Whether an update takes the hub from one state to another and tells `told`.
pub open spec fn updated(
    before: LocalEndpointsHubState,
    bind_uri: BindUri,
    generation: u64,
    update: InterfaceEndpointUpdate,
    after: LocalEndpointsHubState,
    told: Option<InterfaceEndpointUpdate>,
) -> bool {
    if before.generation(bind_uri) != Some(generation) {
        told is None && after == before
    } else {
        &&& told == Some(update)
        &&& after.subscribers == before.subscribers
        &&& after.current_generation.view() == match update {
            InterfaceEndpointUpdate::Close => before.current_generation.view().remove(interface_key(bind_uri)),
            _ => before.current_generation.view(),
        }
        &&& after.endpoints.view() == match update {
            InterfaceEndpointUpdate::Close => without_part(before.endpoints.view(), bind_key(bind_uri)),
            InterfaceEndpointUpdate::Upsert { key, endpoint } => before.endpoints.view().insert(
                hub_key(bind_uri, key),
                PublishedEndpoint { bind_uri, key, endpoint },
            ),
            InterfaceEndpointUpdate::Remove { key } => before.endpoints.view().remove(hub_key(bind_uri, key)),
        }
    }
}

pub open spec fn update_in(told: Option<(BindUri, InterfaceEndpointUpdate)>) -> Option<InterfaceEndpointUpdate> {
    match told {
        Some((_, update)) => Some(update),
        None => None,
    }
}

/// How a published endpoint is told.
pub open spec fn replayed(published: PublishedEndpoint) -> (BindUri, InterfaceEndpointUpdate) {
    (published.bind_uri, InterfaceEndpointUpdate::Upsert { key: published.key, endpoint: published.endpoint })
}

/// A replay tells every published endpoint and nothing else.
pub proof fn replay_is_complete(hub: LocalEndpointsHubState, bind_uri: BindUri, key: InterfaceEndpointKey, endpoint:
    EndpointAddr)
    requires
        hub.wf(),
    ensures
        (exists|i: int|
            0 <= i < hub.endpoints.values@.len() && #[trigger] replayed(hub.endpoints.values@[i]) == (
                bind_uri,
                InterfaceEndpointUpdate::Upsert { key, endpoint },
            )) <==> hub.endpoints.at(hub_key(bind_uri, key)) == Some(PublishedEndpoint { bind_uri, key, endpoint }),
{
    let table = hub.endpoints;
    let wanted = (bind_uri, InterfaceEndpointUpdate::Upsert { key, endpoint });
    if exists|i: int| 0 <= i < table.values@.len() && #[trigger] replayed(table.values@[i]) == wanted {
        let i = choose|i: int| 0 <= i < table.values@.len() && #[trigger] replayed(table.values@[i]) == wanted;
        table.lemma_index(i);
    }
    if table.at(hub_key(bind_uri, key)) == Some(PublishedEndpoint { bind_uri, key, endpoint }) {
        let i = table.keys@.index_of(hub_key(bind_uri, key));
        assert(table.keys@[i] == hub_key(bind_uri, key));
        table.lemma_index(i);
        assert(replayed(table.values@[i]) == wanted);
    }
}

/// A generation that was replaced cannot change what its successor publishes.
pub proof fn replaced_generation_is_ignored(
    before: LocalEndpointsHubState,
    current: LocalEndpointsHubState,
    after: LocalEndpointsHubState,
    bind_uri: BindUri,
    generation: u64,
    stale: u64,
    update: InterfaceEndpointUpdate,
    first: Option<InterfaceEndpointUpdate>,
    second: Option<InterfaceEndpointUpdate>,
)
    requires
        opened(before, bind_uri, generation, current, first),
        updated(current, bind_uri, stale, update, after, second),
        stale != generation,
    ensures
        after == current,
        second is None,
{
}

/// When a generation ends or is replaced, none of its endpoints stays, and those of other interfaces
/// do.
pub proof fn ended_generation_leaves_nothing(
    endpoints: Map<TableKey, PublishedEndpoint>,
    bind_uri: BindUri,
    other: BindUri,
    key: InterfaceEndpointKey,
)
    ensures
        !without_part(endpoints, bind_key(bind_uri)).dom().contains(hub_key(bind_uri, key)),
        other != bind_uri && endpoints.dom().contains(hub_key(other, key)) ==> without_part(
            endpoints,
            bind_key(bind_uri),
        ).dom().contains(hub_key(other, key)) && without_part(endpoints, bind_key(bind_uri))[hub_key(other, key)]
            == endpoints[hub_key(other, key)],
{
    endpoint_keys_are_distinct(other, bind_uri, key, key);
}

/// A claim that was replaced owns nothing, and a closed generation is owned by nobody.
pub proof fn replaced_claim_owns_nothing(
    before: InterfaceEndpointsState,
    after: InterfaceEndpointsState,
    key: InterfaceEndpointKey,
    claim: u64,
    replaced: u64,
)
    requires
        after.entries.view() == before.entries.view().insert(
            entry_key(key),
            (InterfaceEndpointEntry { claim, endpoint: None }),
        ),
        replaced != claim,
    ensures
        !after.owns(key, replaced),
        after.closed ==> !after.owns(key, claim),
{
}

/// An endpoint that the current generation of an interface publishes is known until it takes it back, closes, or
/// gives way to another generation. Updates of any other generation are not passed on and change nothing; those
/// of the current one are passed on as they are, and concern nothing else.
pub proof fn current_generation_publishes(
    before: LocalEndpointsHubState,
    after: LocalEndpointsHubState,
    bind_uri: BindUri,
    generation: u64,
    update: InterfaceEndpointUpdate,
    told: Option<InterfaceEndpointUpdate>,
    other_uri: BindUri,
    other: InterfaceEndpointKey,
)
    requires
        updated(before, bind_uri, generation, update, after, told),
    ensures
        told == if before.generation(bind_uri) == Some(generation) {
            Some(update)
        } else {
            None
        },
        before.generation(bind_uri) != Some(generation) ==> after == before,
        before.generation(bind_uri) == Some(generation) ==> {
            let was = before.endpoints.at(hub_key(other_uri, other));
            let is = after.endpoints.at(hub_key(other_uri, other));
            match update {
                InterfaceEndpointUpdate::Upsert { key, endpoint } => is == if other_uri == bind_uri && other == key {
                    Some(PublishedEndpoint { bind_uri, key, endpoint })
                } else {
                    was
                },
                InterfaceEndpointUpdate::Remove { key } => is == if other_uri == bind_uri && other == key {
                    None
                } else {
                    was
                },
                InterfaceEndpointUpdate::Close => is == if other_uri == bind_uri {
                    None
                } else {
                    was
                },
            }
        },
        after.generation(other_uri) == if update is Close && other_uri == bind_uri && before.generation(bind_uri) == Some(
            generation,
        ) {
            None
        } else {
            before.generation(other_uri)
        },
        after.subscribers == before.subscribers,
{
    match update {
        InterfaceEndpointUpdate::Upsert { key, .. } => {
            endpoint_keys_are_distinct(other_uri, bind_uri, other, key);
        },
        InterfaceEndpointUpdate::Remove { key } => {
            endpoint_keys_are_distinct(other_uri, bind_uri, other, key);
        },
        InterfaceEndpointUpdate::Close => {
            endpoint_keys_are_distinct(other_uri, bind_uri, other, other);
        },
    }
    parts_are_distinct(arbitrary(), arbitrary(), other_uri, bind_uri);
}

/// A generation that is opened is the current one of its interface, of which nothing is known yet; the end of
/// the one before it is told, if there was another. Other interfaces are not concerned.
pub proof fn opened_generation_starts_anew(
    before: LocalEndpointsHubState,
    after: LocalEndpointsHubState,
    bind_uri: BindUri,
    generation: u64,
    told: Option<InterfaceEndpointUpdate>,
    other_uri: BindUri,
    key: InterfaceEndpointKey,
)
    requires
        opened(before, bind_uri, generation, after, told),
    ensures
        after.generation(bind_uri) == Some(generation),
        after.endpoints.at(hub_key(bind_uri, key)) is None,
        other_uri != bind_uri ==> after.generation(other_uri) == before.generation(other_uri) && after.endpoints.at(
            hub_key(other_uri, key),
        ) == before.endpoints.at(hub_key(other_uri, key)),
        told is None || told == Some(InterfaceEndpointUpdate::Close),
        told is Some <==> before.generation(bind_uri) is Some && before.generation(bind_uri) != Some(generation),
{
    endpoint_keys_are_distinct(other_uri, bind_uri, key, key);
    parts_are_distinct(arbitrary(), arbitrary(), other_uri, bind_uri);
}

/// A key belongs to the claim that took it last, as long as the generation is not closed.
pub proof fn key_belongs_to_its_claim(
    before: InterfaceEndpointsState,
    after: InterfaceEndpointsState,
    key: InterfaceEndpointKey,
    claim: u64,
    endpoint: Option<EndpointAddr>,
    other: InterfaceEndpointKey,
    another: u64,
)
    requires
        after.entries.view() == before.entries.view().insert(entry_key(key), InterfaceEndpointEntry { claim, endpoint }),
        after.same_but_entries(before),
    ensures
        after.owns(key, another) <==> another == claim && !before.closed,
        other != key ==> after.owns(other, another) == before.owns(other, another),
        after.entry(key) == Some(InterfaceEndpointEntry { claim, endpoint }),
        other != key ==> after.entry(other) == before.entry(other),
        after.bind_uri == before.bind_uri && after.generation == before.generation && after.closed == before.closed,
{
    endpoint_keys_are_distinct(before.bind_uri, before.bind_uri, key, other);
}

/// An interface begins by publishing the address it is bound to, if that is known.
pub proof fn generation_begins_with_its_address(bound_addr: Option<SocketAddr>)
    ensures
        bound_addr is None <==> begun_update(bound_addr) is None,
        bound_addr matches Some(addr) ==> begun_update(bound_addr) == Some(
            InterfaceEndpointUpdate::Upsert {
                key: InterfaceEndpointKey::Direct,
                endpoint: EndpointAddr::Direct { addr },
            },
        ) && bound_endpoint(bound_addr) == Some(EndpointAddr::Direct { addr }),
{
}

} // verus!
