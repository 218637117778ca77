use dquic::addr::{BindUri, EndpointAddr, Family, Ipv4Addr, Ipv6Addr, Link, Pathway, SocketAddr};
use dquic::admissibility::{
    validate_outbound_candidate, validate_received_way, EndpointSide, InvalidWay, Way,
};

fn v4(a: u8, b: u8, c: u8, d: u8, port: u16) -> SocketAddr {
    SocketAddr::V4 {
        ip: Ipv4Addr::new(a, b, c, d),
        port,
    }
}

fn v6(segments: [u16; 8], port: u16, scope_id: u32) -> SocketAddr {
    let [a, b, c, d, e, f, g, h] = segments;
    SocketAddr::V6 {
        ip: Ipv6Addr::new(a, b, c, d, e, f, g, h),
        port,
        flowinfo: 0,
        scope_id,
    }
}

fn mapped(a: u16, b: u16, port: u16) -> SocketAddr {
    v6([0, 0, 0, 0, 0, 0xffff, a, b], port, 0)
}

fn direct(addr: SocketAddr) -> EndpointAddr {
    EndpointAddr::Direct { addr }
}

fn way(bind: SocketAddr, local: SocketAddr, remote: SocketAddr) -> Way {
    (
        BindUri::Inet(bind),
        Pathway {
            local: direct(local),
            remote: direct(remote),
        },
        Link {
            src: local,
            dst: remote,
        },
    )
}

#[test]
fn accepts_safe_unicast_combinations() {
    let loopback = v4(127, 0, 0, 1, 50000);
    let lan = v4(192, 168, 1, 10, 50000);
    let six = v6([0x2001, 0xdb8, 0, 0, 0, 0, 0, 1], 50000, 0);
    for candidate in [
        way(loopback, loopback, v4(127, 0, 0, 1, 4433)),
        way(lan, lan, v4(203, 0, 113, 10, 4433)),
        way(lan, lan, v4(192, 168, 1, 10, 4433)),
        way(six, six, v6([0x2001, 0xdb8, 0, 0, 0, 0, 0, 2], 4433, 0)),
    ] {
        assert_eq!(validate_outbound_candidate(&candidate), Ok(()));
        assert_eq!(validate_received_way(&candidate), Ok(()));
    }
}

#[test]
fn outbound_wildcard_local_is_preserved() {
    let wildcard = v4(0, 0, 0, 0, 50000);
    let candidate = way(wildcard, wildcard, v4(203, 0, 113, 10, 4433));

    assert_eq!(validate_outbound_candidate(&candidate), Ok(()));
    assert_eq!(candidate.2.src, wildcard);
}

#[test]
fn received_wildcard_local_is_rejected() {
    let wildcard = v4(0, 0, 0, 0, 50000);
    let received = way(wildcard, wildcard, v4(203, 0, 113, 10, 4433));

    assert_eq!(
        validate_received_way(&received),
        Err(InvalidWay::Unspecified {
            side: EndpointSide::Local,
        })
    );
}

#[test]
fn outbound_wildcard_link_accepts_concrete_direct_intent() {
    let wildcard = v4(0, 0, 0, 0, 50000);
    let mut candidate = way(wildcard, wildcard, v4(203, 0, 113, 10, 4433));
    candidate.1.local = direct(v4(192, 0, 2, 10, 50000));

    assert_eq!(validate_outbound_candidate(&candidate), Ok(()));
    assert_eq!(
        validate_received_way(&candidate),
        Err(InvalidWay::Unspecified {
            side: EndpointSide::Local,
        })
    );
}

#[test]
fn neither_context_accepts_a_wildcard_remote() {
    let wildcard = v4(0, 0, 0, 0, 50000);
    let candidate = way(wildcard, wildcard, v4(0, 0, 0, 0, 4433));

    for result in [
        validate_outbound_candidate(&candidate),
        validate_received_way(&candidate),
    ] {
        assert_eq!(
            result,
            Err(InvalidWay::Unspecified {
                side: EndpointSide::Remote,
            })
        );
    }
}

#[test]
fn rejects_loopback_scope_mismatch_in_both_directions() {
    let loopback = v4(127, 0, 0, 1, 50000);
    let global = v4(203, 0, 113, 10, 50000);
    let mapped_loopback = mapped(0x7f00, 0x0001, 50000);
    for candidate in [
        way(loopback, loopback, v4(203, 0, 113, 10, 4433)),
        way(global, global, v4(127, 0, 0, 1, 4433)),
        way(mapped_loopback, mapped_loopback, mapped(0xcb00, 0x710a, 4433)),
    ] {
        for result in [
            validate_outbound_candidate(&candidate),
            validate_received_way(&candidate),
        ] {
            assert_eq!(result, Err(InvalidWay::LoopbackScopeMismatch));
        }
    }
}

#[test]
fn rejects_non_path_endpoints() {
    let wildcard = v4(0, 0, 0, 0, 50000);
    let lan = v4(192, 168, 1, 10, 50000);
    assert!(matches!(
        validate_received_way(&way(wildcard, wildcard, v4(203, 0, 113, 10, 4433))),
        Err(InvalidWay::Unspecified {
            side: EndpointSide::Local
        })
    ));
    assert!(matches!(
        validate_received_way(&way(lan, lan, v4(224, 0, 0, 1, 4433))),
        Err(InvalidWay::Multicast {
            side: EndpointSide::Remote
        })
    ));
    assert!(matches!(
        validate_received_way(&way(lan, lan, v4(255, 255, 255, 255, 4433))),
        Err(InvalidWay::Broadcast {
            side: EndpointSide::Remote
        })
    ));
    assert!(matches!(
        validate_received_way(&way(lan, lan, v4(203, 0, 113, 10, 0))),
        Err(InvalidWay::ZeroPort {
            side: EndpointSide::Remote
        })
    ));
}

#[test]
fn rejects_family_identity_bind_and_link_local_scope_mismatches() {
    let lan = v4(192, 168, 1, 10, 50000);
    let six = v6([0x2001, 0xdb8, 0, 0, 0, 0, 0, 1], 50000, 0);
    assert_eq!(
        validate_received_way(&way(lan, lan, v6([0x2001, 0xdb8, 0, 0, 0, 0, 0, 2], 4433, 0))),
        Err(InvalidWay::AddressFamilyMismatch)
    );
    let same = v4(192, 168, 1, 10, 4433);
    assert_eq!(
        validate_received_way(&way(same, same, same)),
        Err(InvalidWay::IdenticalEndpoints)
    );
    assert!(matches!(
        validate_received_way(&way(
            v4(192, 168, 1, 11, 50000),
            lan,
            v4(203, 0, 113, 10, 4433)
        )),
        Err(InvalidWay::BindAddressMismatch { .. })
    ));
    assert_eq!(
        validate_received_way(&way(six, six, v6([0xfe80, 0, 0, 0, 0, 0, 0, 2], 4433, 0))),
        Err(InvalidWay::LinkLocalScopeMismatch)
    );
    assert_eq!(
        validate_received_way(&way(
            v6([0; 8], 50000, 0),
            v6([0xfe80, 0, 0, 0, 0, 0, 0, 1], 50000, 3),
            v6([0xfe80, 0, 0, 0, 0, 0, 0, 2], 4433, 0),
        )),
        Err(InvalidWay::LinkLocalScopeMismatch)
    );
}

#[test]
fn rejects_direct_endpoint_and_link_mismatches() {
    let loopback = v4(127, 0, 0, 1, 50000);
    let mut candidate = way(loopback, loopback, v4(127, 0, 0, 1, 4433));
    candidate.1.local = direct(v4(127, 0, 0, 1, 50001));
    for result in [
        validate_outbound_candidate(&candidate),
        validate_received_way(&candidate),
    ] {
        assert_eq!(
            result,
            Err(InvalidWay::DirectEndpointMismatch {
                side: EndpointSide::Local
            })
        );
    }
}

#[test]
fn iface_bind_validation_does_not_resolve_the_device() {
    let local = v4(203, 0, 113, 10, 50000);
    let mut candidate = way(local, local, v4(198, 51, 100, 10, 4433));
    candidate.0 = BindUri::Iface {
        family: Family::V4,
        device: u64::MAX,
        port: 50000,
    };

    assert_eq!(validate_outbound_candidate(&candidate), Ok(()));
    assert_eq!(validate_received_way(&candidate), Ok(()));
}

#[test]
fn outbound_direct_intent_must_match_the_physical_family() {
    let wildcard = v4(0, 0, 0, 0, 50000);
    let mut candidate = way(wildcard, wildcard, v4(203, 0, 113, 10, 4433));
    candidate.1.local = direct(v6([0x2001, 0xdb8, 0, 0, 0, 0, 0, 1], 50000, 0));

    assert_eq!(
        validate_outbound_candidate(&candidate),
        Err(InvalidWay::AddressFamilyMismatch)
    );
}

#[test]
fn concrete_inet_bind_port_must_match_the_link() {
    let candidate = way(
        v4(192, 0, 2, 10, 50001),
        v4(192, 0, 2, 10, 50000),
        v4(203, 0, 113, 10, 4433),
    );

    for result in [
        validate_outbound_candidate(&candidate),
        validate_received_way(&candidate),
    ] {
        assert!(matches!(
            result,
            Err(InvalidWay::BindAddressMismatch { .. })
        ));
    }
}

#[test]
fn received_ipv6_link_local_scopes_must_both_be_concrete() {
    let candidate = way(
        v6([0; 8], 50000, 0),
        v6([0xfe80, 0, 0, 0, 0, 0, 0, 1], 50000, 0),
        v6([0xfe80, 0, 0, 0, 0, 0, 0, 2], 4433, 3),
    );

    assert_eq!(
        validate_received_way(&candidate),
        Err(InvalidWay::LinkLocalScopeMismatch)
    );
}

#[test]
fn an_interface_binds_only_its_own_family() {
    let local = v4(203, 0, 113, 10, 50000);
    let mut candidate = way(local, local, v4(198, 51, 100, 10, 4433));
    candidate.0 = BindUri::Iface {
        family: Family::V6,
        device: 1,
        port: 50000,
    };
    assert_eq!(
        validate_received_way(&candidate),
        Err(InvalidWay::BindFamilyMismatch)
    );
}

#[test]
fn every_received_way_could_also_be_tried() {
    let lan = v4(192, 168, 1, 10, 50000);
    for remote in [v4(203, 0, 113, 10, 4433), v4(192, 168, 1, 11, 4433)] {
        let received = way(lan, lan, remote);
        assert_eq!(validate_received_way(&received), Ok(()));
        assert_eq!(validate_outbound_candidate(&received), Ok(()));
    }
}

#[test]
fn mediated_endpoints_bind_only_the_link() {
    let lan = v4(192, 168, 1, 10, 50000);
    let agent = v4(198, 51, 100, 1, 3478);
    let mut candidate = way(lan, lan, agent);
    candidate.1.remote = EndpointAddr::Mediate {
        agent,
        outer: v4(203, 0, 113, 10, 4433),
    };
    assert_eq!(validate_received_way(&candidate), Ok(()));
    candidate.2.dst = v4(224, 0, 0, 1, 3478);
    assert_eq!(
        validate_received_way(&candidate),
        Err(InvalidWay::Multicast {
            side: EndpointSide::Remote
        })
    );
}
