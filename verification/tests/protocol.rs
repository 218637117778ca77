use dquic::addr::{BindUri, EndpointAddr, Ipv4Addr, Link, Pathway, SocketAddr};
use dquic::address::{AddressBook, AddressBookError, BookedSocket, MAX_AGENTS};
use dquic::datagram::{
    segment, send_all, sent_one, with_room, EndpointInUse, QuicProtocol, SendFault, SendStep,
};
use dquic::dock::{Dock, DockError, FdCounter};
use dquic::forward::{ForwardAction, ForwardProtocol};
use dquic::socket::{EphemeralSocket, PromoteError, QuicSocket};
use dquic::stun::{
    CookieId, MessageType, PendingRequests, StunAction, StunError, StunProtocol, Transaction,
    TransactionId,
};
use dquic::topology::{flip, pathway_of, receive, Dispatch, Outlook};

fn v4(a: u8, b: u8, c: u8, d: u8, port: u16) -> SocketAddr {
    SocketAddr::V4 {
        ip: Ipv4Addr::new(a, b, c, d),
        port,
    }
}

fn local(port: u16) -> SocketAddr {
    v4(127, 0, 0, 1, port)
}

fn direct(addr: SocketAddr) -> EndpointAddr {
    EndpointAddr::Direct { addr }
}

fn mediate(agent: SocketAddr, outer: SocketAddr) -> EndpointAddr {
    EndpointAddr::Mediate { agent, outer }
}

fn pathway(local: EndpointAddr, remote: EndpointAddr) -> Pathway {
    Pathway { local, remote }
}

fn packets() -> Vec<Vec<u8>> {
    vec![vec![0x40; 4], vec![0x41; 1200], vec![0x42; 73]]
}

#[test]
fn quic_register_and_deliver_by_endpoint() {
    let endpoint = direct(local(5000));
    let mut protocol = QuicProtocol::new();
    protocol.register(endpoint, 1, true).unwrap();
    assert_eq!(
        protocol.register(endpoint, 1, true),
        Err(EndpointInUse { endpoint })
    );
    let link = Link {
        src: local(5000),
        dst: local(4433),
    };
    assert!(protocol.on_packet(pathway_of(link), true));
    protocol.unregister(endpoint, 1);
    assert_eq!(protocol.find_socket(endpoint, true), None);
    assert!(!protocol.on_packet(pathway_of(link), true));
}

#[test]
fn direct_pathway_sends_a_batch_without_splitting_datagrams() {
    let (here, there) = (direct(local(1)), direct(local(2)));
    let mut protocol = QuicProtocol::new();
    protocol.register(here, 9, true).unwrap();
    let plan = protocol
        .plan_send(pathway(here, there), 7, 7, &packets(), 64, true)
        .unwrap()
        .unwrap();
    assert_eq!(plan.socket, 9);
    assert_eq!(plan.destination, local(2));
    assert_eq!(plan.overhead, 0);
    assert_eq!(plan.count, 3);
    assert_eq!(plan.segment_size, 1200, "the longest datagram stays whole");

    let mut sent = 0;
    let mut lengths = Vec::new();
    while sent < 3 {
        let rest = packets()[sent..].to_vec();
        let plan = protocol
            .plan_send(pathway(here, there), 7, 7, &rest, 64, true)
            .unwrap()
            .unwrap();
        assert!(plan.count > 0);
        for packet in &rest[..plan.count] {
            lengths.push(with_room(packet, plan.overhead).len());
        }
        sent += plan.count;
    }
    assert_eq!(lengths, [4, 1200, 73]);
}

#[test]
fn mediated_pathway_sends_a_batch_of_forward_datagrams_to_agent() {
    let here = direct(local(1));
    let there = mediate(local(2), local(4433));
    let mut protocol = QuicProtocol::new();
    protocol.register(here, 9, true).unwrap();
    let way = pathway(here, there);
    let mut sent = 0;
    while sent < 3 {
        let rest = packets()[sent..].to_vec();
        let plan = protocol
            .plan_send(way, 7, 13, &rest, 64, true)
            .unwrap()
            .unwrap();
        assert_eq!(plan.destination, local(2));
        assert_eq!(plan.overhead, 22);
        assert!(plan.count > 0);
        for packet in &rest[..plan.count] {
            let datagram = with_room(packet, plan.overhead);
            assert_eq!(datagram.len(), packet.len() + 22);
            assert_eq!(&datagram[22..], packet.as_slice());
        }
        sent += plan.count;
    }
}

#[test]
fn a_batch_goes_out_up_to_the_limit() {
    let (here, there) = (direct(local(1)), direct(local(2)));
    let mut protocol = QuicProtocol::new();
    protocol.register(here, 9, true).unwrap();
    let batch = vec![vec![1; 100]; 5];
    let plan = protocol
        .plan_send(pathway(here, there), 7, 7, &batch, 3, true)
        .unwrap()
        .unwrap();
    assert_eq!((plan.count, plan.segment_size), (3, 100));
    assert_eq!(
        protocol.plan_send(pathway(here, there), 7, 7, &vec![], 3, true),
        Ok(None)
    );
}

#[test]
fn unavailable_local_endpoint_fails_to_send() {
    let mut protocol = QuicProtocol::new();
    let way = pathway(direct(local(4433)), direct(local(4434)));
    assert_eq!(
        protocol.plan_send(way, 7, 7, &vec![vec![0x40]], 64, true),
        Err(SendFault::NotConnected)
    );
}

#[test]
fn reclaimed_udp_socket_fails_to_send_and_clears_registration() {
    let mut protocol = QuicProtocol::new();
    let here = direct(local(1));
    protocol.register(here, 1, true).unwrap();
    let way = pathway(here, direct(local(4434)));
    assert_eq!(
        protocol.plan_send(way, 7, 7, &vec![vec![0x40]], 64, false),
        Err(SendFault::NotConnected)
    );
    assert_eq!(protocol.find_socket(here, true), None);
}

#[test]
fn a_replaced_socket_cannot_unregister_its_successor() {
    let mut protocol = QuicProtocol::new();
    let here = direct(local(1));
    protocol.register(here, 1, true).unwrap();
    protocol.register(here, 2, false).unwrap();
    protocol.unregister(here, 1);
    assert_eq!(protocol.find_socket(here, true), Some(2));
}

#[test]
fn mixed_endpoint_paths_require_forward_header() {
    let straight = direct(v4(203, 0, 113, 1, 4433));
    let agent = mediate(v4(198, 51, 100, 1, 3478), v4(192, 0, 2, 1, 50000));
    assert_eq!(
        QuicProtocol::packet_overhead(pathway(straight, straight), 7, 7),
        0
    );
    assert!(QuicProtocol::packet_overhead(pathway(straight, agent), 7, 13) > 0);
    assert!(QuicProtocol::packet_overhead(pathway(agent, straight), 13, 7) > 0);
    assert!(QuicProtocol::packet_overhead(pathway(agent, agent), 13, 13) > 0);
}

#[test]
fn sending_goes_on_until_everything_is_sent() {
    assert_eq!(send_all(0, 3, 2), SendStep::From(2));
    assert_eq!(send_all(2, 3, 1), SendStep::Done);
    assert_eq!(send_all(2, 3, 0), SendStep::Failed(SendFault::WriteZero));
    assert_eq!(sent_one(1), Ok(()));
    assert_eq!(sent_one(0), Err(SendFault::WriteZero));
}

#[test]
fn a_segment_is_at_least_one_byte_and_fits_its_field() {
    assert_eq!(segment(1200), 1200);
    assert_eq!(segment(70_000), u16::MAX);
}

#[test]
fn datagrams_are_told_apart_by_their_headers() {
    let came_over = Link {
        src: local(9),
        dst: local(1),
    };
    let link = flip(came_over);
    assert_eq!(link.src, local(1));
    let quic = Outlook {
        stun: false,
        stun_header: None,
        forward: false,
        forward_header: None,
    };
    assert_eq!(
        receive(quic, came_over),
        Dispatch::Quic {
            pathway: pathway(direct(local(1)), direct(local(9))),
            link
        }
    );
    let stun = Outlook {
        stun: true,
        stun_header: Some(20),
        ..quic
    };
    assert_eq!(
        receive(stun, came_over),
        Dispatch::Stun {
            payload_at: 20,
            link
        }
    );
    let broken = Outlook {
        stun: true,
        ..quic
    };
    assert_eq!(receive(broken, came_over), Dispatch::Dropped);
    let forward = Outlook {
        forward: true,
        forward_header: Some(22),
        ..quic
    };
    assert_eq!(
        receive(forward, came_over),
        Dispatch::Forward {
            header_len: 22,
            link
        }
    );
    let broken = Outlook {
        forward: true,
        ..quic
    };
    assert_eq!(receive(broken, came_over), Dispatch::Dropped);
}

#[test]
fn transaction_is_registered_until_drop() {
    let mut protocol = StunProtocol::new();
    let txid = TransactionId { value: 77 };
    assert!(protocol.new_transaction(txid, 5));
    assert_eq!(
        protocol.on_datagram(txid, MessageType::Response),
        StunAction::Obtain(5)
    );
    protocol.end_transaction(txid);
    assert_eq!(
        protocol.on_datagram(txid, MessageType::Response),
        StunAction::Ignore
    );
}

#[test]
fn new_transactions_do_not_overwrite_each_other() {
    let mut protocol = StunProtocol::new();
    let (first, second) = (TransactionId { value: 1 }, TransactionId { value: 2 });
    assert!(protocol.new_transaction(first, 10));
    assert!(
        !protocol.new_transaction(first, 11),
        "an identifier in use is not taken again"
    );
    assert!(protocol.new_transaction(second, 11));
    assert_eq!(
        protocol.on_datagram(first, MessageType::Response),
        StunAction::Obtain(10)
    );
    assert_eq!(
        protocol.on_datagram(second, MessageType::Response),
        StunAction::Obtain(11)
    );
}

#[test]
fn transaction_retries_with_the_same_id_after_timeout() {
    let mut protocol = StunProtocol::new();
    let link = Link {
        src: local(1),
        dst: local(2),
    };
    protocol.register_socket(local(1), 3);
    let txid = TransactionId { value: 8 };
    assert!(protocol.new_transaction(txid, 30));
    assert_eq!(protocol.send_request(link, true), Ok(3));
    assert_eq!(
        protocol.on_datagram(txid, MessageType::Request),
        StunAction::Ignore,
        "no server answers yet"
    );
    protocol.enable_server(true);
    assert!(protocol.server_enabled());
    assert_eq!(protocol.send_request(link, true), Ok(3));
    assert_eq!(
        protocol.on_datagram(txid, MessageType::Request),
        StunAction::Ask
    );
    assert_eq!(
        protocol.on_datagram(txid, MessageType::Response),
        StunAction::Obtain(30)
    );
    protocol.end_transaction(txid);
    assert_eq!(
        protocol.on_datagram(txid, MessageType::Response),
        StunAction::Ignore
    );
}

#[test]
fn requests_need_a_living_socket() {
    let mut protocol = StunProtocol::new();
    let link = Link {
        src: local(1),
        dst: local(2),
    };
    assert_eq!(
        protocol.send_request(link, true),
        Err(StunError::NotFound(local(1)))
    );
    protocol.register_socket(local(1), 3);
    protocol.unregister_socket(local(1), 4);
    assert_eq!(protocol.send_request(link, true), Ok(3));
    assert_eq!(
        protocol.send_request(link, false),
        Err(StunError::NotFound(local(1)))
    );
}

#[test]
fn an_answered_request_is_done() {
    let mut requests = PendingRequests::new();
    let cookie_id = CookieId { bytes: [1; 8] };
    let txid = TransactionId { value: 4 };
    let transaction = Transaction {
        socket: 1,
        agent: local(3478),
        txid,
        cookie_id,
        request: 2,
    };
    requests.start_request(transaction);
    let back = Link {
        src: local(5),
        dst: local(3478),
    };
    let elsewhere = Link {
        src: local(5),
        dst: local(9999),
    };
    assert_eq!(requests.on_response(txid, 1, elsewhere), None);
    assert_eq!(requests.on_response(txid, 2, back), None);
    assert_eq!(requests.on_response(txid, 1, back), Some(transaction));
    assert_eq!(requests.on_response(txid, 1, back), None);
    requests.start_request(transaction);
    requests.send_failed(txid);
    assert_eq!(requests.on_response(txid, 1, back), None);
}

#[test]
fn cookies_are_drawn_at_random() {
    let drawn: Vec<CookieId> = (0..4).map(|_| CookieId::random()).collect();
    assert!(drawn.iter().any(|cookie| cookie.as_bytes() != [0; 8]));
    assert!(drawn.iter().any(|cookie| *cookie != drawn[0]));
    assert_eq!(drawn[0].as_bytes(), drawn[0].bytes);
}

#[test]
fn publishes_inner_to_mdns_and_outer_agent_to_ddns() {
    let bound = local(4000);
    let outer_addr = v4(203, 0, 113, 10, 50000);
    let booked = |endpoint| BookedSocket {
        udp: 1,
        endpoint,
        bound: Some(bound),
    };
    let inner = booked(direct(bound));
    let outer = booked(direct(outer_addr));
    let agent = booked(mediate(v4(198, 51, 100, 1, 3478), outer_addr));
    let mut book = AddressBook::new();
    book.insert_inner(inner).unwrap();
    book.insert_outer(outer).unwrap();
    book.insert_agent(agent).unwrap();
    assert_eq!(book.mdns_endpoints(bound), [inner.endpoint]);
    assert_eq!(book.ddns_endpoints(), [outer.endpoint, agent.endpoint]);

    book.remove_socket(1);
    assert!(book.mdns_endpoints(bound).is_empty());
    assert!(book.ddns_endpoints().is_empty());
}

#[test]
fn the_address_book_refuses_what_does_not_belong() {
    let bound = local(4000);
    let booked = |endpoint, bound| BookedSocket {
        udp: 1,
        endpoint,
        bound,
    };
    let agent = mediate(v4(198, 51, 100, 1, 3478), local(1));
    let mut book = AddressBook::new();
    assert_eq!(
        book.insert_inner(booked(agent, Some(bound))),
        Err(AddressBookError::ExpectedDirect)
    );
    assert_eq!(
        book.insert_inner(booked(direct(bound), None)),
        Err(AddressBookError::Io)
    );
    assert_eq!(
        book.insert_inner(booked(direct(bound), Some(bound))),
        Ok(bound)
    );
    assert_eq!(
        book.insert_inner(booked(direct(bound), Some(bound))),
        Err(AddressBookError::Duplicate(direct(bound)))
    );
    assert_eq!(
        book.insert_outer(booked(agent, Some(bound))),
        Err(AddressBookError::ExpectedDirect)
    );
    assert_eq!(
        book.insert_agent(booked(direct(bound), Some(bound))),
        Err(AddressBookError::ExpectedMediate)
    );
    for port in 0..MAX_AGENTS as u16 {
        let endpoint = mediate(local(port), local(1));
        book.insert_agent(booked(endpoint, Some(bound))).unwrap();
    }
    assert_eq!(
        book.insert_agent(booked(mediate(local(9), local(1)), Some(bound))),
        Err(AddressBookError::TooManyAgents)
    );
}

#[test]
fn published_endpoints_come_in_order() {
    let mut book = AddressBook::new();
    for port in [30, 10, 20] {
        book.insert_outer(BookedSocket {
            udp: 1,
            endpoint: direct(local(port)),
            bound: None,
        })
        .unwrap();
    }
    assert_eq!(
        book.ddns_endpoints(),
        [direct(local(10)), direct(local(20)), direct(local(30))]
    );
}

#[test]
fn a_forwarder_relays_only_when_enabled() {
    let mut forward = ForwardProtocol::new();
    let link = Link {
        src: local(3478),
        dst: local(9),
    };
    let sent = pathway(
        direct(local(9)),
        mediate(local(3478), v4(192, 0, 2, 7, 700)),
    );
    assert!(!forward.enabled());
    assert_eq!(
        forward.on_datagram(1, sent, false, link, 100),
        ForwardAction::Ignore
    );
    forward.enable(true);
    forward.serve(local(3478), 1);
    assert!(matches!(
        forward.on_datagram(1, sent, false, link, 100),
        ForwardAction::Relay {
            segment_size: 100,
            ..
        }
    ));
    forward.stop_serving(local(3478));
    assert_eq!(
        forward.on_datagram(1, sent, false, link, 100),
        ForwardAction::Ignore
    );
}

#[test]
fn a_quic_socket_sends_over_its_endpoint() {
    let socket = QuicSocket::new(4, direct(local(1)));
    assert_eq!(socket.endpoint_addr(), direct(local(1)));
    assert_eq!(socket.udp_socket(), 4);
    let plan = socket
        .send(&vec![vec![1; 50]], direct(local(2)), 7, 7)
        .unwrap();
    assert_eq!((plan.overhead, plan.segment_size), (0, 50));
    assert_eq!(socket.send(&vec![], direct(local(2)), 7, 7), None);

    let mut ephemeral = EphemeralSocket::bind(5);
    assert_eq!(ephemeral.udp_socket(), 5);
    assert_eq!(ephemeral.send(&vec![vec![1; 50]]), 50);
    assert_eq!(
        ephemeral.into_quic_socket(mediate(local(1), local(2))),
        Err(PromoteError::ExpectedDirect)
    );
    assert!(ephemeral.remove_on_drop);
    let promoted = ephemeral.into_quic_socket(direct(local(3))).unwrap();
    assert_eq!(promoted.udp_socket(), 5);
    assert!(!ephemeral.remove_on_drop);
}

#[test]
fn handles_are_drawn_once() {
    let mut counter = FdCounter::new();
    let drawn: Vec<_> = (0..4).map(|_| counter.next().unwrap()).collect();
    let mut dock = Dock::new();
    for (socket, fd) in drawn.iter().enumerate() {
        assert_eq!(fd.id, socket as u64);
        assert_eq!(dock.bind(BindUri::Inet(local(9)), socket as u64, fd.id), Ok(*fd));
        assert_eq!(dock.nat_feature(*fd), Ok(()));
        assert_eq!(dock.endpoint_addr(*fd, local(1)), DockError::UnknownAgent);
        dock.close(*fd);
        assert_eq!(dock.nat_feature(*fd), Err(DockError::UnknownFd));
        assert_eq!(dock.endpoint_addr(*fd, local(1)), DockError::UnknownFd);
    }
    let mut last = FdCounter { next: u64::MAX - 1 };
    assert_eq!(last.next().map(|fd| fd.id), Some(u64::MAX - 1));
    assert_eq!(last.next(), None);
    assert_eq!(last.next(), None);
}

#[test]
fn closing_a_descriptor_leaves_nothing_of_it() {
    let mut dock = Dock::new();
    let fd = dock.bind(BindUri::Inet(local(1)), 10, 70).unwrap();
    let other = dock.bind(BindUri::Inet(local(2)), 11, 71).unwrap();
    assert_ne!(fd, other);
    assert_eq!(
        dock.bind(BindUri::Inet(local(3)), 12, 70),
        Err(DockError::FdInUse)
    );
    assert_eq!(dock.socket(fd), Ok(10));
    let agent = local(3478);
    assert_eq!(dock.add_agent(fd, agent), Ok(()));
    assert_eq!(
        dock.add_agent(fd, agent),
        Err(DockError::AgentAlreadyRegistered)
    );
    dock.del_agent(fd, agent);
    assert_eq!(dock.add_agent(fd, agent), Ok(()));
    assert_eq!(dock.add_agent(other, agent), Ok(()));
    assert_eq!(dock.close(fd), Some(10));
    assert_eq!(dock.close(fd), None);
    assert_eq!(
        dock.add_agent(other, agent),
        Err(DockError::AgentAlreadyRegistered)
    );
    assert_eq!(dock.socket(fd), Err(DockError::UnknownFd));
    assert_eq!(dock.add_agent(fd, agent), Err(DockError::UnknownFd));
    assert_eq!(dock.socket(other), Ok(11));
    // A number is free again once its socket is closed, and nothing of that socket is left.
    let again = dock.bind(BindUri::Inet(local(4)), 13, 70).unwrap();
    assert_eq!(again, fd);
    assert_eq!(dock.socket(again), Ok(13));
    assert_eq!(dock.add_agent(again, agent), Ok(()));
}
