use dquic::addr::{BindUri, EndpointAddr, Family, Ipv4Addr, Ipv6Addr, Link, Pathway, SocketAddr};
use dquic::admissibility::Way;
use dquic::assembly::PacketType;
use dquic::channel::{DataHeader, WirePacket, EARLY_CAPACITY};
use dquic::cid::ConnectionId;
use dquic::handy::{
    BindPlan, Binding, Closed, SocketFault, UdpSocketController, Unsupported, UnsupportedError,
};
use dquic::local_endpoint::{
    ClaimInterfaceEndpointError, CurrentInterfaceLocalEndpoints, EndpointEvent,
    InterfaceEndpointKey, InterfaceEndpointUpdate, InterfaceEndpointsState, LocalEndpointsHubState,
};
use dquic::location::{
    AddressEvent, CurrentInterfaceLocations, Datum, EventPublisher, InterfaceEvent,
    LocalEndpointSet, LocationUpdate,
};
use dquic::packet::CipherPacket;
use dquic::route::RcvdPacketQueue;
use dquic::subscribers::Subscribers;

fn v4(a: u8, b: u8, c: u8, d: u8, port: u16) -> SocketAddr {
    SocketAddr::V4 {
        ip: Ipv4Addr::new(a, b, c, d),
        port,
    }
}

fn socket(port: u16) -> SocketAddr {
    v4(127, 0, 0, 1, port)
}

fn bind_uri(port: u16) -> BindUri {
    BindUri::Inet(socket(port))
}

fn direct(addr: SocketAddr) -> EndpointAddr {
    EndpointAddr::Direct { addr }
}

fn mediate(agent: SocketAddr, outer: SocketAddr) -> EndpointAddr {
    EndpointAddr::Mediate { agent, outer }
}

fn endpoints(event: &InterfaceEvent) -> Vec<EndpointAddr> {
    let InterfaceEvent::Endpoints(LocationUpdate::Upsert(set)) = event else {
        panic!("expected an upsert")
    };
    set.endpoints().to_vec()
}

fn updated(told: (bool, Option<LocationUpdate>)) -> Vec<EndpointAddr> {
    assert!(told.0);
    let Some(LocationUpdate::Upsert(set)) = told.1 else {
        panic!("expected an upsert")
    };
    set.endpoints().to_vec()
}

#[test]
fn subscriber_drop_unsubscribes_without_publish() {
    let mut hub = LocalEndpointsHubState::new();
    hub.subscribe(7, true);
    assert_eq!(hub.subscribers.count(), 1);
    hub.unsubscribe(7);
    assert_eq!(hub.subscribers.count(), 0);
}

#[test]
fn subscriber_replays_current_keyed_endpoints() {
    let mut hub = LocalEndpointsHubState::new();
    let bind = bind_uri(10001);
    let direct_addr = socket(10002);
    let agent = socket(20004);
    let outer = socket(30005);

    let mut state = InterfaceEndpointsState::new(bind, 1);
    assert_eq!(hub.open_generation(bind, 1), None);
    let mut direct_publisher = state.direct_endpoint_publisher(11, false).unwrap();
    let mut agent_publisher = state.agent_endpoint_publisher(agent, 12, false).unwrap();
    assert_eq!(agent_publisher.agent(), agent);

    let (owned, update) = direct_publisher.upsert(&mut state, direct_addr);
    assert!(owned);
    hub.apply_update(bind, 1, update.unwrap());
    let (owned, update) = agent_publisher.upsert(&mut state, outer);
    assert!(owned);
    hub.apply_update(bind, 1, update.unwrap());

    let received = hub.replay();
    hub.subscribe(1, true);
    assert_eq!(received.len(), 2);
    assert_eq!(direct_publisher.remove(&mut state).0, true);
    let (owned, update) = agent_publisher.remove(&mut state);
    assert!(owned);
    assert_eq!(
        update,
        Some(InterfaceEndpointUpdate::Remove {
            key: InterfaceEndpointKey::Agent(agent)
        })
    );
    assert!(received.contains(&(
        bind,
        InterfaceEndpointUpdate::Upsert {
            key: InterfaceEndpointKey::Direct,
            endpoint: direct(direct_addr),
        }
    )));
    assert!(received.contains(&(
        bind,
        InterfaceEndpointUpdate::Upsert {
            key: InterfaceEndpointKey::Agent(agent),
            endpoint: mediate(agent, outer),
        }
    )));
}

#[test]
fn direct_publisher_is_unique_and_drop_removes_endpoint() {
    let bind = bind_uri(10011);
    let mut hub = LocalEndpointsHubState::new();
    hub.open_generation(bind, 1);
    let mut state = InterfaceEndpointsState::new(bind, 1);
    let mut publisher = state.direct_endpoint_publisher(1, false).unwrap();
    assert_eq!(
        state.direct_endpoint_publisher(2, true).unwrap_err(),
        ClaimInterfaceEndpointError::AlreadyClaimed {
            bind_uri: bind,
            key: InterfaceEndpointKey::Direct,
        }
    );
    let (owned, update) = publisher.upsert(&mut state, socket(10012));
    assert!(owned);
    assert_eq!(
        hub.apply_update(bind, 1, update.unwrap()),
        Some(InterfaceEndpointUpdate::Upsert {
            key: InterfaceEndpointKey::Direct,
            endpoint: direct(socket(10012)),
        })
    );
    let removed = state.remove_if_owned(InterfaceEndpointKey::Direct, 1).unwrap();
    assert_eq!(
        hub.apply_update(bind, 1, removed),
        Some(InterfaceEndpointUpdate::Remove {
            key: InterfaceEndpointKey::Direct
        })
    );
    assert!(hub.replay().is_empty());
    assert!(state.claim(InterfaceEndpointKey::Direct, 3, false).is_ok());
}

#[test]
fn old_generation_drop_does_not_remove_new_generation_endpoint() {
    let bind = bind_uri(10021);
    let mut hub = LocalEndpointsHubState::new();
    hub.open_generation(bind, 1);
    let mut old = InterfaceEndpointsState::new(bind, 1);
    old.claim(InterfaceEndpointKey::Direct, 1, false).unwrap();
    let (_, update) = old.upsert_if_owned(InterfaceEndpointKey::Direct, 1, direct(socket(10022)));
    hub.apply_update(bind, 1, update.unwrap());

    let close = old.close().unwrap();
    assert_eq!(
        hub.apply_update(bind, 1, close),
        Some(InterfaceEndpointUpdate::Close)
    );
    assert_eq!(
        old.claim(InterfaceEndpointKey::Direct, 5, false),
        Err(ClaimInterfaceEndpointError::Closed { bind_uri: bind })
    );
    assert_eq!(old.close(), None);

    hub.open_generation(bind, 2);
    let mut new = InterfaceEndpointsState::new(bind, 2);
    new.claim(InterfaceEndpointKey::Direct, 2, false).unwrap();
    let (_, update) = new.upsert_if_owned(InterfaceEndpointKey::Direct, 2, direct(socket(10023)));
    assert!(hub.apply_update(bind, 2, update.unwrap()).is_some());

    assert_eq!(old.remove_if_owned(InterfaceEndpointKey::Direct, 1), None);
    assert_eq!(
        hub.apply_update(
            bind,
            1,
            InterfaceEndpointUpdate::Remove {
                key: InterfaceEndpointKey::Direct
            }
        ),
        None
    );
    assert_eq!(hub.replay().len(), 1);
}

#[test]
fn a_dead_claim_may_be_replaced_and_then_owns_nothing() {
    let bind = bind_uri(1);
    let mut state = InterfaceEndpointsState::new(bind, 1);
    state.claim(InterfaceEndpointKey::Direct, 1, false).unwrap();
    state.claim(InterfaceEndpointKey::Direct, 2, false).unwrap();
    let told = state.upsert_if_owned(InterfaceEndpointKey::Direct, 1, direct(socket(2)));
    assert_eq!(told, (false, None));
    assert_eq!(
        state.clear_if_owned(InterfaceEndpointKey::Direct, 1),
        (false, None)
    );
    let told = state.upsert_if_owned(InterfaceEndpointKey::Direct, 2, direct(socket(2)));
    assert!(told.0 && told.1.is_some());
    // The same endpoint again changes nothing.
    let told = state.upsert_if_owned(InterfaceEndpointKey::Direct, 2, direct(socket(2)));
    assert_eq!(told, (true, None));
    let told = state.clear_if_owned(InterfaceEndpointKey::Direct, 2);
    assert_eq!(
        told,
        (
            true,
            Some(InterfaceEndpointUpdate::Remove {
                key: InterfaceEndpointKey::Direct
            })
        )
    );
}

#[test]
fn rebinding_closes_the_old_generation_of_endpoints() {
    let bind = bind_uri(5);
    let (mut current, told) =
        CurrentInterfaceLocalEndpoints::new(1, bind, 1, 100, Some(socket(500)));
    assert!(matches!(told, Some(InterfaceEndpointUpdate::Upsert { .. })));
    assert!(current.reinit(1, bind, 2, 101, Some(socket(501))).is_none());
    let (closed, begun) = current.reinit(2, bind, 2, 101, Some(socket(501))).unwrap();
    assert_eq!(closed, Some(InterfaceEndpointUpdate::Close));
    assert_eq!(
        begun,
        Some(InterfaceEndpointUpdate::Upsert {
            key: InterfaceEndpointKey::Direct,
            endpoint: direct(socket(501)),
        })
    );
    let (unbound, told) = CurrentInterfaceLocalEndpoints::new(3, bind, 3, 102, None);
    assert_eq!(told, None);
    assert_eq!(unbound.publishers.generation, 3);
}

#[test]
fn a_new_generation_clears_what_the_hub_knew() {
    let bind = bind_uri(6);
    let other = bind_uri(7);
    let mut hub = LocalEndpointsHubState::new();
    for uri in [bind, other] {
        hub.apply_event(EndpointEvent::OpenGeneration {
            bind_uri: uri,
            generation: 1,
        });
        hub.apply_event(EndpointEvent::Update {
            bind_uri: uri,
            generation: 1,
            update: InterfaceEndpointUpdate::Upsert {
                key: InterfaceEndpointKey::Direct,
                endpoint: direct(socket(60)),
            },
        });
    }
    assert_eq!(hub.replay().len(), 2);
    let told = hub.apply_event(EndpointEvent::OpenGeneration {
        bind_uri: bind,
        generation: 2,
    });
    assert_eq!(told, Some((bind, InterfaceEndpointUpdate::Close)));
    let left = hub.replay();
    assert_eq!(left.len(), 1);
    assert_eq!(left[0].0, other);
}

#[test]
fn subscribers_that_are_gone_are_forgotten() {
    let mut hub = LocalEndpointsHubState::new();
    hub.subscribe(1, true);
    hub.subscribe(2, true);
    hub.subscribe(3, false);
    assert_eq!(hub.subscribers.count(), 2);
    hub.forwarded(&vec![2]);
    assert_eq!(hub.subscribers.count(), 1);
    let mut subscribers = Subscribers::new();
    subscribers.insert(4);
    subscribers.insert(4);
    assert_eq!(subscribers.count(), 1);
    subscribers.drop_all(&vec![4, 5]);
    assert_eq!(subscribers.count(), 0);
}

#[test]
fn observer_drop_unsubscribes_without_publish() {
    let mut locations = EventPublisher::new();
    locations.register_subscriber(1, true);
    assert_eq!(locations.subscribers.count(), 1);
    locations.unregister_subscriber(1);
    assert_eq!(locations.subscribers.count(), 0);
}

#[test]
fn dropped_observer_is_not_retained_by_later_publish() {
    let mut locations = EventPublisher::new();
    locations.register_subscriber(1, true);
    locations.unregister_subscriber(1);
    let datum = Datum {
        type_id: 3,
        handle: 4,
    };
    locations.publish_event(bind_uri(1), AddressEvent::Upsert(datum), &vec![]);
    assert_eq!(locations.subscribers.count(), 0);

    locations.register_subscriber(2, true);
    locations.publish_event(bind_uri(1), AddressEvent::Upsert(datum), &vec![2]);
    assert_eq!(locations.subscribers.count(), 0);
}

#[test]
fn subscribe_replays_current_locations() {
    let mut locations = EventPublisher::new();
    let uri = bind_uri(2);
    let datum = Datum {
        type_id: 3,
        handle: 4,
    };
    locations.publish_event(uri, AddressEvent::Upsert(datum), &vec![]);
    let replayed = locations.replay();
    assert_eq!(replayed, [(uri, AddressEvent::Upsert(datum))]);

    let other = Datum {
        type_id: 9,
        handle: 1,
    };
    locations.publish_event(uri, AddressEvent::Upsert(other), &vec![]);
    assert_eq!(locations.replay().len(), 2);
    locations.publish_event(uri, AddressEvent::Remove(3), &vec![]);
    assert_eq!(locations.replay(), [(uri, AddressEvent::Upsert(other))]);
    locations.publish_event(uri, AddressEvent::Closed, &vec![]);
    assert!(locations.replay().is_empty());
}

#[test]
fn events_are_downcast_by_type() {
    let datum = Datum {
        type_id: 3,
        handle: 4,
    };
    assert_eq!(
        AddressEvent::Upsert(datum).downcast(3),
        Ok(AddressEvent::Upsert(4))
    );
    assert_eq!(
        AddressEvent::Upsert(datum).downcast(5),
        Err(AddressEvent::Upsert(datum))
    );
    assert_eq!(
        AddressEvent::<Datum>::Remove(3).downcast(3),
        Ok(AddressEvent::Remove(3))
    );
    assert_eq!(
        AddressEvent::<Datum>::Remove(3).downcast(4),
        Err(AddressEvent::Remove(3))
    );
    assert_eq!(
        AddressEvent::<Datum>::Closed.downcast(4),
        Ok(AddressEvent::Closed)
    );
}

#[test]
fn locations_component_emits_closed_then_upsert_on_rebind() {
    let uri = bind_uri(9);
    let (mut current, begun) = CurrentInterfaceLocations::new(1, uri, 10, Some(socket(90)));
    assert_eq!(endpoints(&begun[0]), [direct(socket(90))]);
    assert!(current.reinit(1, uri, 11, Some(socket(91))).is_none());
    let (closed, begun) = current.reinit(2, uri, 11, Some(socket(91))).unwrap();
    assert!(closed);
    assert_eq!(endpoints(&begun[0]), [direct(socket(91))]);
    assert_eq!(current.scope_to(2), Some(uri));
    assert_eq!(
        current.scope_to(1),
        None,
        "a stale interface does not touch the component"
    );
}

#[test]
fn interface_agent_location_raii_updates_aggregated_local_endpoint_set() {
    let direct_addr = socket(4000);
    let direct_endpoint = direct(direct_addr);
    let (mut current, begun) =
        CurrentInterfaceLocations::new(1, bind_uri(9), 10, Some(direct_addr));
    assert_eq!(endpoints(&begun[0]), [direct_endpoint]);

    let first_agent = v4(192, 0, 2, 10, 3478);
    let first_outer = v4(198, 51, 100, 20, 45678);
    let second_agent = v4(192, 0, 2, 11, 3478);
    let second_outer = v4(198, 51, 100, 21, 45679);
    let first_endpoint = mediate(first_agent, first_outer);
    let second_endpoint = mediate(second_agent, second_outer);

    let first_location = current.agent_location(first_agent, 11);
    assert_eq!(first_location.agent(), first_agent);
    let told = first_location.upsert(&mut current.state, first_outer);
    assert_eq!(updated(told), [direct_endpoint, first_endpoint]);

    let second_location = current.agent_location(second_agent, 12);
    let told = second_location.upsert(&mut current.state, second_outer);
    assert_eq!(
        updated(told),
        [direct_endpoint, first_endpoint, second_endpoint]
    );

    let told = current
        .state
        .remove_if_owned(InterfaceEndpointKey::Agent(first_agent), 11);
    assert_eq!(updated((true, told)), [direct_endpoint, second_endpoint]);

    let told = current
        .state
        .remove_if_owned(InterfaceEndpointKey::Agent(second_agent), 12);
    assert_eq!(updated((true, told)), [direct_endpoint]);

    let third_location = current.agent_location(second_agent, 13);
    let told = third_location.upsert(&mut current.state, second_outer);
    assert_eq!(updated(told), [direct_endpoint, second_endpoint]);
    let told = third_location.clear(&mut current.state);
    assert_eq!(updated(told), [direct_endpoint]);

    let told = current.direct.clear(&mut current.state);
    assert!(matches!(told, (true, Some(LocationUpdate::Remove))));
    let told = current.direct.upsert(&mut current.state, direct_addr);
    assert_eq!(updated(told), [direct_endpoint]);
    assert!(current.state.close());
    assert!(!current.state.close());
}

#[test]
fn a_local_endpoint_set_keeps_its_endpoints() {
    let set = LocalEndpointSet::from_endpoints(vec![direct(socket(2)), direct(socket(1))]);
    assert_eq!(set.endpoints(), [direct(socket(2)), direct(socket(1))]);
}

fn wire(packet_type: PacketType) -> WirePacket {
    WirePacket::Data(CipherPacket::new(
        DataHeader {
            packet_type,
            dcid: ConnectionId::from_slice(b"destination"),
        },
        Vec::new(),
        0,
    ))
}

fn way() -> Way {
    let link = Link {
        src: v4(127, 0, 0, 1, 4433),
        dst: v4(192, 0, 2, 1, 50000),
    };
    let pathway = Pathway {
        local: direct(link.src),
        remote: direct(link.dst),
    };
    (BindUri::Inet(link.src), pathway, link)
}

#[test]
fn deliver_enqueues_when_capacity_is_available() {
    let mut queue = RcvdPacketQueue::new();
    queue.deliver(wire(PacketType::Initial), Some(1200), way());
    let ((_, datagram_size), came) = queue.queues.initial.recv().unwrap();
    assert_eq!(datagram_size, Some(1200));
    assert_eq!(came.2, way().2);
}

#[test]
fn deliver_does_not_wait_for_a_full_connection_queue() {
    let mut queue = RcvdPacketQueue::new();
    for _ in 0..EARLY_CAPACITY {
        queue.deliver(wire(PacketType::Initial), Some(1200), way());
    }
    assert_eq!(queue.initial().items.len(), EARLY_CAPACITY);
    queue.deliver(wire(PacketType::Initial), Some(1200), way());
    assert_eq!(queue.initial().items.len(), EARLY_CAPACITY);
    assert!(queue.handshake().items.is_empty());
}

#[test]
fn each_level_has_its_own_queue_and_closing_ends_them_all() {
    let mut queue = RcvdPacketQueue::new();
    queue.deliver(wire(PacketType::Handshake), None, way());
    queue.deliver(wire(PacketType::ZeroRtt), None, way());
    queue.deliver(wire(PacketType::OneRtt), None, way());
    queue.deliver(
        WirePacket::Retry {
            dcid: ConnectionId::empty(),
        },
        None,
        way(),
    );
    assert_eq!(queue.initial().items.len(), 0);
    assert_eq!(queue.handshake().items.len(), 1);
    assert_eq!(queue.zero_rtt().items.len(), 1);
    assert_eq!(queue.one_rtt().items.len(), 1);
    queue.close_all();
    queue.deliver(wire(PacketType::OneRtt), None, way());
    assert!(queue.one_rtt().closed);
    assert_eq!(queue.one_rtt().items.len(), 1);
}

#[test]
fn wildcard_receive_preserves_packet_destination() {
    let destination = socket(4433);
    let sender = socket(50000);
    let routes = UdpSocketController::received_routes(&vec![Link {
        src: sender,
        dst: destination,
    }]);
    let (pathway, link) = routes[0];
    assert_eq!(link.src, destination);
    assert_eq!(link.dst, sender);
    assert_eq!(pathway.local, direct(destination));
    assert_eq!(pathway.remote, direct(sender));
}

#[test]
fn a_closed_socket_stays_closed_and_a_failed_bind_is_told() {
    let mut controller = UdpSocketController::bind(bind_uri(1), Ok(7));
    assert_eq!(controller.bind_uri(), bind_uri(1));
    assert_eq!(controller.max_segment_size(), 1500);
    assert_eq!(controller.socket().unwrap(), 7);
    assert_eq!(controller.close().unwrap(), 7);
    assert!(matches!(
        controller.socket(),
        Err(SocketFault::Closed(Closed))
    ));
    assert!(controller.close().is_err());

    let failed = UdpSocketController::bind(bind_uri(1), Err("in use".to_owned()));
    assert!(matches!(failed.socket(), Err(SocketFault::BindFailed)));
}

#[test]
fn binding_goes_to_the_device_where_there_is_one() {
    let addr = SocketAddr::V6 {
        ip: Ipv6Addr::new(0xfe80, 0, 0, 0, 0, 0, 0, 1),
        port: 1,
        flowinfo: 0,
        scope_id: 2,
    };
    let to_device = Binding {
        addr,
        device: Some(3),
    };
    assert_eq!(to_device.plan(), BindPlan::ToDevice { addr, device: 3 });
    let to_addr = Binding { addr, device: None };
    assert_eq!(to_addr.plan(), BindPlan::ToAddr { addr });
    assert_eq!(
        BindUri::Iface {
            family: Family::V6,
            device: 3,
            port: 1
        }
        .family(),
        Family::V6
    );
}

#[test]
fn the_unsupported_interface_refuses_everything() {
    let interface = Unsupported::bind(bind_uri(4));
    assert_eq!(interface.bind_uri(), bind_uri(4));
    assert_eq!(interface.bound_addr(), Err(UnsupportedError));
    assert_eq!(interface.max_segment_size(), Err(UnsupportedError));
    assert_eq!(interface.max_segments(), Err(UnsupportedError));
    assert_eq!(interface.send(), Err(UnsupportedError));
    assert_eq!(interface.recv(), Err(UnsupportedError));
}

#[test]
fn a_new_interface_ends_earlier_claims_and_leases() {
    let bind = bind_uri(6);
    let agent = v4(192, 0, 2, 10, 3478);
    let (mut current, _) = CurrentInterfaceLocalEndpoints::new(1, bind, 1, 100, Some(socket(500)));
    let mut stale = current.publishers.agent_endpoint_publisher(agent, 7, false).unwrap();
    assert!(stale.upsert(&mut current.publishers, socket(9)).0);
    current.reinit(2, bind, 2, 101, None).unwrap();
    assert!(!stale.upsert(&mut current.publishers, socket(9)).0);
    assert_eq!(current.publishers.entries.values.len(), 1);
    assert_eq!(current.publishers.entries.values[0].claim, 101);
    let key = InterfaceEndpointKey::Direct;
    assert!(!current.publishers.upsert_if_owned(key, 100, direct(socket(1))).0);
    assert!(current.publishers.upsert_if_owned(key, 101, direct(socket(1))).0);

    let (mut current, _) = CurrentInterfaceLocations::new(1, bind, 10, Some(socket(90)));
    let stale = current.agent_location(agent, 11);
    assert!(!current.state.closed && current.state.published == [direct(socket(90))]);
    assert!(stale.upsert(&mut current.state, socket(91)).0);
    assert_eq!(current.state.published.len(), 2);
    current.reinit(2, bind, 12, Some(socket(92))).unwrap();
    assert!(!stale.upsert(&mut current.state, socket(91)).0);
    assert_eq!(current.state.published, [direct(socket(92))]);
    assert_eq!(current.state.entries.values.len(), 1);
    // What was published at the beginning is withdrawn like anything else.
    let (held, told) = current.direct.clear(&mut current.state);
    assert!(held && matches!(told, Some(LocationUpdate::Remove)));
}
