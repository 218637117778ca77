use dquic::ack::AckFrame;
use dquic::addr::{EndpointAddr, Family, Ipv4Addr, SocketAddr};
use dquic::cid::ConnectionId;
use dquic::packet_number::PacketNumber;
use dquic::declaration::{attribute_of, parameters_of, DeclarationError};
use dquic::params::{
    parse_variant_attrs, quic_parameters, read_arguments, read_variant, Argument, Attribute,
    BoundCheck, ParamArgs, ParamError, ParamType, ValueExpr, VariantDecl,
};
use dquic::resolve::{is_port, lookup_query, split_host_port, Source, SystemResolver};
use dquic::sorted::SortedTable;
use dquic::table::{key_of_cid, key_of_endpoint, key_of_peer, Table};
use dquic::varint::VarInt;

#[test]
fn h3_source_display_identifies_h3_dns() {
    let source = Source::H3 {
        server: "https://dns.genmeta.net:4433".to_owned(),
    };
    assert_eq!(
        source.describe(),
        "H3 DNS Resolver(https://dns.genmeta.net:4433)"
    );
}

#[test]
fn sources_describe_themselves() {
    assert_eq!(
        Source::Mdns {
            nic: "eth0".to_owned(),
            family: "IPv4".to_owned()
        }
        .describe(),
        "MDNS Resolver(eth0 IPv4)"
    );
    assert_eq!(
        Source::Http {
            server: "a".to_owned()
        }
        .describe(),
        "HTTP DNS Resolver(a)"
    );
    assert_eq!(Source::System.describe(), "System DNS Resolver");
    assert_eq!(Source::Dht.describe(), "DHT");
    assert_eq!(SystemResolver.describe(), "System DNS Resolver");
}

#[test]
fn splits_host_and_port() {
    assert_eq!(
        split_host_port("example.com:8443", false),
        ("example.com", Some("8443"))
    );
    assert_eq!(
        split_host_port("[2001:db8::1]:8443", false),
        ("2001:db8::1", Some("8443"))
    );
    assert_eq!(split_host_port("2001:db8::1", true), ("2001:db8::1", None));
    assert_eq!(
        split_host_port("[2001:db8::1]", false),
        ("2001:db8::1", None)
    );
    assert_eq!(
        split_host_port("example.com", false),
        ("example.com", None)
    );
}

#[test]
fn hostname_port_overrides_servname() {
    let query = lookup_query("localhost:8443", "443", Some(Family::V4), false);
    assert_eq!(query.host, "localhost");
    assert_eq!(query.service, "8443");
    assert_eq!(query.family, Some(Family::V4));
}

#[test]
fn ipv6_hostname_port_requires_brackets() {
    let query = lookup_query("[::1]:9443", "8443", Some(Family::V6), false);
    assert_eq!((query.host.as_str(), query.service.as_str()), ("::1", "9443"));
    let query = lookup_query("::443", "8443", Some(Family::V6), true);
    assert_eq!((query.host.as_str(), query.service.as_str()), ("::443", "8443"));
}

#[test]
fn an_empty_service_is_the_default_one() {
    let query = lookup_query("localhost", "", None, false);
    assert_eq!((query.host.as_str(), query.service.as_str()), ("localhost", "443"));
    let query = lookup_query("localhost", "https", None, false);
    assert_eq!(query.service, "https");
}

#[test]
fn ports_are_digits_in_range() {
    assert!(is_port("0") && is_port("65535") && is_port("00080"));
    assert!(!is_port("") && !is_port("65536") && !is_port("80a") && !is_port("-1"));
}

#[test]
fn system_records_are_direct_endpoints() {
    let addr = SocketAddr::V4 {
        ip: Ipv4Addr::new(127, 0, 0, 1),
        port: 1,
    };
    let records = SystemResolver.records(&vec![addr]);
    assert_eq!(records.len(), 1);
    assert!(matches!(records[0].0, Source::System));
    assert_eq!(records[0].1, EndpointAddr::Direct { addr });
}

fn argument(name: &str, value: ValueExpr) -> Argument {
    Argument {
        name: name.to_owned(),
        value,
    }
}

fn path(text: &str) -> ValueExpr {
    ValueExpr::Path(text.to_owned())
}

fn fault(arguments: Vec<Argument>) -> String {
    read_arguments(&arguments).unwrap_err().message()
}

#[test]
fn arguments_are_read_by_name() {
    let args = read_arguments(&vec![
        argument("bound", ValueExpr::Range("0..=20".to_owned())),
        argument("default", ValueExpr::Other("3".to_owned())),
        argument("value_type", path("VarInt")),
    ])
    .unwrap();
    assert_eq!(args.value_type, ParamType::VarInt);
    assert_eq!(args.default.as_deref(), Some("3"));
    assert_eq!(args.bound.as_deref(), Some("0..=20"));
    assert_eq!(args.gen_validate().unwrap(), BoundCheck::Integer);
}

#[test]
fn wrong_arguments_are_told() {
    let value_type = || argument("value_type", path("VarInt"));
    let default = || argument("default", ValueExpr::Other("3".to_owned()));
    let bound = || argument("bound", ValueExpr::Range("0..".to_owned()));
    assert_eq!(fault(vec![]), "missing `value_type` argument");
    assert_eq!(
        fault(vec![value_type(), value_type()]),
        "duplicate `value_type` argument"
    );
    assert_eq!(
        fault(vec![default(), default()]),
        "duplicate `default` argument"
    );
    assert_eq!(fault(vec![bound(), bound()]), "duplicate `bound` argument");
    assert_eq!(
        fault(vec![argument("limit", path("VarInt"))]),
        "unsupported `param` argument"
    );
    assert_eq!(
        fault(vec![argument("value_type", ValueExpr::Other("3".to_owned()))]),
        "`value_type` must be an identifier"
    );
    assert_eq!(
        fault(vec![argument("value_type", path("Float"))]),
        "unsupported `value_type` `Float`"
    );
    assert_eq!(
        fault(vec![argument("bound", ValueExpr::Other("3".to_owned()))]),
        "`bound` must be a range"
    );
    assert_eq!(
        fault(vec![argument(
            "value_type",
            ValueExpr::Unreadable("expected an expression".to_owned())
        )]),
        "expected an expression"
    );
}

#[test]
fn bounds_are_for_numbers_and_durations() {
    let bounded = |value_type| ParamArgs {
        value_type,
        default: None,
        bound: Some("0..".to_owned()),
    };
    assert_eq!(
        bounded(ParamType::Duration).gen_validate().unwrap(),
        BoundCheck::Milliseconds
    );
    assert_eq!(
        bounded(ParamType::Bytes).gen_validate().unwrap_err().message(),
        "Bound is only applicable to VarInt or Duration types"
    );
    let unbounded = ParamArgs {
        value_type: ParamType::Bytes,
        default: None,
        bound: None,
    };
    assert_eq!(unbounded.gen_validate().unwrap(), BoundCheck::Unbounded);
}

fn variant(ident: &str, discriminant: Option<&str>, value_type: &str) -> VariantDecl {
    VariantDecl {
        ident: ident.to_owned(),
        discriminant: discriminant.map(str::to_owned),
        attributes: vec![
            Attribute {
                path: "doc".to_owned(),
                arguments: vec![],
                broken_off: Some("not a list".to_owned()),
            },
            Attribute {
                path: "param".to_owned(),
                arguments: vec![argument("value_type", path(value_type))],
                broken_off: None,
            },
        ],
    }
}

#[test]
fn variants_become_parameters() {
    let parameters = quic_parameters(&vec![
        variant("MaxIdleTimeout", Some("0x01"), "Duration"),
        variant("GreaseQuicBit", Some("0x2ab2"), "Boolean"),
    ])
    .unwrap();
    assert_eq!(parameters[0].ident, "MaxIdleTimeout");
    assert_eq!(parameters[0].discriminant, "0x01");
    assert_eq!(parameters[0].args.value_type, ParamType::Duration);
    assert_eq!(parameters[1].check, BoundCheck::Unbounded);
}

#[test]
fn the_first_wrong_variant_is_told() {
    let wrong = quic_parameters(&vec![
        variant("First", Some("1"), "Bytes"),
        variant("Second", None, "Bytes"),
        variant("Third", Some("3"), "Float"),
    ])
    .err()
    .unwrap();
    assert_eq!(wrong.0, 1);
    assert_eq!(
        wrong.1.message(),
        "Each variant must have a discriminant, e.g., `= 0`"
    );
    let bare = VariantDecl {
        ident: "Bare".to_owned(),
        discriminant: Some("1".to_owned()),
        attributes: vec![],
    };
    assert!(matches!(
        read_variant(&bare).err(),
        Some(ParamError::MissingParam)
    ));
    let broken = |arguments| {
        vec![Attribute {
            path: "param".to_owned(),
            arguments,
            broken_off: Some("expected `,`".to_owned()),
        }]
    };
    for read in [vec![], vec![argument("value_type", path("Bytes"))]] {
        assert_eq!(
            parse_variant_attrs(&broken(read)).unwrap_err().message(),
            "expected `,`"
        );
    }
    assert_eq!(
        parse_variant_attrs(&broken(vec![argument("limit", path("Bytes"))]))
            .unwrap_err()
            .message(),
        "unsupported `param` argument"
    );
}

#[test]
fn a_declaration_is_read_from_its_source() {
    let declaration = parameters_of(
        "/// Parameters.
        pub enum Id {
            /// How long to wait.
            #[param(value_type = Duration, bound = 0..=600)]
            MaxIdleTimeout = 0x01,
            #[allow(dead_code)]
            #[param(default = 65527u32, value_type = VarInt, bound = 1200..)]
            #[param(value_type = Bytes)]
            MaxUdpPayloadSize = 0x03,
            #[param(value_type = Boolean)]
            GreaseQuicBit = 0x2ab2,
        }",
    )
    .unwrap();
    assert_eq!(declaration.ident, "Id");
    let read: Vec<_> = declaration
        .parameters
        .iter()
        .map(|parameter| (parameter.ident.as_str(), parameter.discriminant.as_str(), parameter.check))
        .collect();
    assert_eq!(
        read,
        [
            ("MaxIdleTimeout", "0x01", BoundCheck::Milliseconds),
            ("MaxUdpPayloadSize", "0x03", BoundCheck::Integer),
            ("GreaseQuicBit", "0x2ab2", BoundCheck::Unbounded),
        ]
    );
    let size = &declaration.parameters[1].args;
    assert_eq!(size.value_type, ParamType::VarInt);
    assert_eq!(size.default.as_deref(), Some("65527u32"));
    assert!(declaration.parameters[0].args.default.is_none());
}

#[test]
fn a_wrong_declaration_is_told_in_words() {
    let refused = |variants: &str| {
        let error = parameters_of(&format!("enum Id {{ {variants} }}")).unwrap_err();
        let at = match &error {
            DeclarationError::Variant { index, .. } => Some(*index),
            DeclarationError::Syntax(_) => None,
        };
        (at, error.message())
    };
    let told = |at, message: &str| (Some(at), message.to_owned());
    let good = "#[param(value_type = Bytes)] First = 1,";
    assert_eq!(
        refused(&format!("{good} #[param(value_type = Bytes)] Second")),
        told(1, "Each variant must have a discriminant, e.g., `= 0`")
    );
    assert_eq!(
        refused(&format!("{good} #[doc(hidden)] Second = 2")),
        told(1, "Each variant must have a `#[param(...)]` attribute")
    );
    for (arguments, message) in [
        ("", "missing `value_type` argument"),
        ("value_type = Float", "unsupported `value_type` `Float`"),
        ("value_type = 3", "`value_type` must be an identifier"),
        ("value_type = Bytes, value_type = Bytes", "duplicate `value_type` argument"),
        ("default = 1, default = 2", "duplicate `default` argument"),
        ("bound = 1.., bound = 2..", "duplicate `bound` argument"),
        ("bound = 3", "`bound` must be a range"),
        ("limit", "unsupported `param` argument"),
        ("value_type = Bytes, bound = 1..", "Bound is only applicable to VarInt or Duration types"),
    ] {
        assert_eq!(refused(&format!("#[param({arguments})] Only = 1")), told(0, message));
    }
    // What is no expression, no list and no enum is told by the parser.
    for broken in ["#[param(value_type = )] Only = 1", "#[param] Only = 1", "#[param(value_type = Bytes default)] Only = 1"] {
        assert_eq!(refused(broken).0, Some(0));
    }
    let error = parameters_of("struct Id;").unwrap_err();
    assert!(matches!(error, DeclarationError::Syntax(_)));
    assert_eq!(error.message(), "expected `enum`");
}

#[test]
fn an_attribute_is_read_up_to_what_is_no_argument() {
    let attribute = attribute_of("param", "param(value_type = VarInt, bound = 0..=20, default = )").unwrap();
    assert_eq!(attribute.path, "param");
    let [value_type, bound, default] = &attribute.arguments[..] else {
        panic!("three arguments were begun");
    };
    assert_eq!(value_type.name, "value_type");
    assert!(matches!(&value_type.value, ValueExpr::Path(name) if name == "VarInt"));
    assert!(matches!(&bound.value, ValueExpr::Range(_)));
    assert!(matches!(&default.value, ValueExpr::Unreadable(_)));
    assert!(attribute.broken_off.is_some());
    let plain = attribute_of("doc", "doc = \" text\"").unwrap();
    assert!(plain.path == "doc" && plain.arguments.is_empty() && plain.broken_off.is_some());
    assert!(attribute_of("param", "= 3").is_err());
}

#[test]
fn variable_length_integers_know_their_size() {
    for (value, size) in [(63, 1), (64, 2), (16383, 2), (16384, 4), (1 << 30, 8)] {
        assert_eq!(VarInt::from_u64(value).unwrap().encoding_size(), size);
    }
    assert_eq!(VarInt::from_u64((1 << 62) - 1).unwrap().into_u64(), (1 << 62) - 1);
    assert_eq!(VarInt::from_u64(1 << 62).unwrap_err().value, 1 << 62);
}

#[test]
fn packet_numbers_are_truncated_and_restored() {
    for (pn, acked) in [(0, 0), (10, 5), (0x8000, 0), (0x80_0000, 0), (0x1234_5678, 0x1234_0000)] {
        let number = PacketNumber::encode(pn, acked);
        assert_eq!(number.decode(acked + 1), pn);
        assert_eq!(number.to_bytes().len(), number.size());
        assert_eq!(PacketNumber::from_bytes(&number.to_bytes()), number);
    }
}

#[test]
fn ack_ranges_are_read_downwards() {
    let number = VarInt::from_u32;
    let frame = AckFrame {
        largest: number(10),
        delay: number(0),
        first_range: number(2),
        ranges: vec![(number(0), number(1))],
        ecn: None,
    };
    assert_eq!(frame.checked_ranges().unwrap(), [(8, 10), (5, 6)]);
    let broken = AckFrame {
        largest: number(1),
        delay: number(0),
        first_range: number(2),
        ranges: vec![],
        ecn: None,
    };
    assert!(broken.checked_ranges().is_none());
}

#[test]
fn a_sorted_table_keeps_its_keys_in_order() {
    let key = |n: u64| (n, 0u128, 0u128, 0u64, 0u128, 0u128);
    let mut table: SortedTable<u8> = SortedTable::new();
    assert_eq!(table.insert(key(3), 30), None);
    assert_eq!(table.insert(key(1), 10), None);
    assert_eq!(table.insert(key(3), 31), Some(30));
    assert_eq!(table.keys, [key(1), key(3)]);
    assert_eq!(table.get(key(3)), Some(31));
    assert_eq!(table.remove(key(1)), Some(10));
    assert_eq!(table.remove(key(1)), None);
    table.remove_all((3, 0, 0));
    assert_eq!(table.len(), 0);
}

#[test]
fn a_shared_table_removes_only_what_it_holds() {
    let cid = ConnectionId::from_slice(b"cid");
    let key = key_of_cid(cid);
    let mut table = Table::new();
    assert_eq!(table.get(key), None);
    assert_eq!(table.insert(key, 1), None);
    assert_eq!(table.insert(key, 2), Some(1));
    assert!(!table.remove_if(key, 1));
    assert_eq!(table.get(key), Some(2));
    assert!(table.remove_if(key, 2));
    assert_eq!(table.remove(key), None);
}

#[test]
fn keys_of_different_things_differ() {
    let addr = SocketAddr::V4 {
        ip: Ipv4Addr::new(127, 0, 0, 1),
        port: 1,
    };
    let direct = key_of_endpoint(EndpointAddr::Direct { addr });
    let mediated = key_of_endpoint(EndpointAddr::Mediate {
        agent: addr,
        outer: addr,
    });
    assert_ne!(direct, mediated);
    assert_ne!(key_of_peer(addr), key_of_cid(ConnectionId::empty()));
    assert_ne!(
        key_of_cid(ConnectionId::from_slice(&[0])),
        key_of_cid(ConnectionId::from_slice(&[0, 0]))
    );
}
