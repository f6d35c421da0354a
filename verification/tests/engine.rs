use libmdns::builder::{Builder, Section};
use libmdns::encode_txt;
use libmdns::enums::{Class, QueryClass, QueryType};
use libmdns::fsm::{
    build_unsolicited, handle_packet, handle_service_type_enumeration, ip_records, Destination,
    Family, HostAddr, IfaceAddr,
};
use libmdns::name::Name;
use libmdns::rrdata::{RRData, V4Addr, V6Addr};
use libmdns::services::{ServiceData, ServicesInner};
use libmdns::structs::{Packet, Question};

fn query_bytes(name: &str, qtype: QueryType) -> Vec<u8> {
    let mut bld = Builder::new_query(99, false);
    bld.set_max_size(None);
    bld.add_question(&Name::from_str(name).unwrap(), qtype, QueryClass::IN);
    bld.build().unwrap()
}

fn v4(a: u8, b: u8, c: u8, d: u8) -> RRData {
    RRData::A(V4Addr {
        octets: [a, b, c, d],
    })
}

#[test]
fn test_service_type_enumeration() {
    let question = Question {
        qname: Name::from_str("_services._dns-sd._udp.local").unwrap(),
        qtype: QueryType::PTR,
        qclass: QueryClass::IN,
        qu: false,
    };
    let mut services = ServicesInner::new("test-hostname.local").unwrap();
    let service_data = ServiceData {
        name: Name::from_str("test-instance").unwrap(),
        typ: Name::from_str("_test-service-name._tcp").unwrap(),
        port: 8008,
        txt: vec![],
    };
    services.register(service_data);

    let mut answer_builder = Builder::new_response(0, false, true);
    answer_builder.set_max_size(None);
    answer_builder.move_to(Section::Answers);

    handle_service_type_enumeration(&question, &services, &mut answer_builder);

    let packet = answer_builder.build().unwrap();
    let parsed = Packet::parse(&packet).unwrap();
    assert_eq!(parsed.answers.len(), 1);
    assert_eq!(
        parsed.answers[0].name,
        Name::from_str("_services._dns-sd._udp.local").unwrap(),
    );
    assert_eq!(parsed.answers[0].cls, Class::IN);
    assert_eq!(parsed.answers[0].ttl, 60);
    let ptr = match &parsed.answers[0].data {
        RRData::PTR(ptr) => ptr,
        other => panic!("Unexpected answer RR data type: {:?}", other),
    };
    assert_eq!(*ptr, Name::from_str("_test-service-name._tcp").unwrap());
}

#[test]
fn ptr_query_earns_ptr_srv_txt_and_addresses() {
    let mut services = ServicesInner::new("test-host.local").unwrap();
    let txt = encode_txt(&vec![b"path=/".to_vec()]);
    services.register(ServiceData {
        name: Name::from_str("My Printer._http._tcp.local").unwrap(),
        typ: Name::from_str("_http._tcp.local").unwrap(),
        port: 631,
        txt,
    });
    let addrs = vec![v4(192, 168, 1, 5)];
    let query = query_bytes("_http._tcp.local", QueryType::PTR);
    let out = handle_packet(&services, &addrs, &query);
    assert_eq!(out.len(), 1);
    assert_eq!(out[0].1, Destination::Multicast);
    let parsed = Packet::parse(&out[0].0).unwrap();
    assert_eq!(parsed.header.id, 99);
    assert!(parsed.header.authoritative);
    assert_eq!(parsed.answers.len(), 1);
    assert_eq!(
        parsed.answers[0].name,
        Name::from_str("_http._tcp.local").unwrap()
    );
    match &parsed.answers[0].data {
        RRData::PTR(p) => assert_eq!(*p, Name::from_str("My Printer._http._tcp.local").unwrap()),
        other => panic!("Unexpected answer RR data type: {:?}", other),
    }
    // additional: SRV, TXT, then the host address
    assert_eq!(parsed.header.additional, 3);
}

#[test]
fn ptr_additional_section_content() {
    // The additional section itself is not decoded by the parser, so a
    // second response is built question-by-question and its pieces are
    // checked through the builder's byte output.
    let mut services = ServicesInner::new("test-host.local").unwrap();
    let txt = encode_txt(&vec![b"path=/".to_vec()]);
    services.register(ServiceData {
        name: Name::from_str("My Printer._http._tcp.local").unwrap(),
        typ: Name::from_str("_http._tcp.local").unwrap(),
        port: 631,
        txt: txt.clone(),
    });
    assert_eq!(txt, vec![6, 112, 97, 116, 104, 61, 47]);
    let addrs = vec![v4(192, 168, 1, 5)];
    let query = query_bytes("_http._tcp.local", QueryType::PTR);
    let out = handle_packet(&services, &addrs, &query);
    let bytes = &out[0].0;
    // The wire bytes must hold the SRV target (the host name), the TXT
    // payload, and the address bytes.
    let host = b"\x09test-host\x05local\x00";
    assert!(bytes
        .windows(host.len())
        .any(|w| w == &host[..]));
    assert!(bytes.windows(txt.len()).any(|w| w == &txt[..]));
    assert!(bytes.windows(4).any(|w| w == [192, 168, 1, 5]));
    // SRV port 631 in big-endian
    assert!(bytes.windows(2).any(|w| w == [2, 119]));
}

#[test]
fn enumeration_lists_each_type_once() {
    let mut services = ServicesInner::new("host.local").unwrap();
    for (name, typ) in [
        ("a._http._tcp.local", "_http._tcp.local"),
        ("b._http._tcp.local", "_http._tcp.local"),
        ("c._ssh._tcp.local", "_ssh._tcp.local"),
    ] {
        services.register(ServiceData {
            name: Name::from_str(name).unwrap(),
            typ: Name::from_str(typ).unwrap(),
            port: 1,
            txt: vec![0],
        });
    }
    let addrs: Vec<RRData> = Vec::new();
    let query = query_bytes("_services._dns-sd._udp.local", QueryType::PTR);
    let out = handle_packet(&services, &addrs, &query);
    assert_eq!(out.len(), 1);
    let parsed = Packet::parse(&out[0].0).unwrap();
    assert_eq!(parsed.answers.len(), 2);
    let mut seen = Vec::new();
    for r in &parsed.answers {
        assert_eq!(
            r.name,
            Name::from_str("_services._dns-sd._udp.local").unwrap()
        );
        match &r.data {
            RRData::PTR(p) => seen.push(p.to_string()),
            other => panic!("Unexpected answer RR data type: {:?}", other),
        }
    }
    assert_eq!(seen, vec!["_http._tcp.local", "_ssh._tcp.local"]);
}

#[test]
fn a_query_for_hostname_answers_each_v4_address() {
    let services = ServicesInner::new("test-host.local").unwrap();
    let ifaces = vec![
        IfaceAddr {
            addr: HostAddr::V4(V4Addr {
                octets: [127, 0, 0, 1],
            }),
            loopback: true,
        },
        IfaceAddr {
            addr: HostAddr::V4(V4Addr {
                octets: [10, 1, 2, 3],
            }),
            loopback: false,
        },
        IfaceAddr {
            addr: HostAddr::V6(V6Addr {
                segments: [0xfe80, 0, 0, 0, 0, 0, 0, 1],
            }),
            loopback: false,
        },
        IfaceAddr {
            addr: HostAddr::V4(V4Addr {
                octets: [10, 4, 5, 6],
            }),
            loopback: false,
        },
    ];
    let addrs = ip_records(&ifaces, &Vec::new(), Family::Inet);
    // the loopback and the wrong-family address fall away
    assert_eq!(addrs.len(), 2);
    let query = query_bytes("test-host.local", QueryType::A);
    let out = handle_packet(&services, &addrs, &query);
    assert_eq!(out.len(), 1);
    let parsed = Packet::parse(&out[0].0).unwrap();
    assert_eq!(parsed.answers.len(), 2);
    let mut got = Vec::new();
    for r in &parsed.answers {
        assert_eq!(r.name, Name::from_str("test-host.local").unwrap());
        match &r.data {
            RRData::A(a) => got.push(a.octets),
            other => panic!("expected only A records, got {:?}", other),
        }
    }
    assert_eq!(got, vec![[10, 1, 2, 3], [10, 4, 5, 6]]);
}

#[test]
fn allow_list_filters_addresses() {
    let ifaces = vec![
        IfaceAddr {
            addr: HostAddr::V4(V4Addr {
                octets: [10, 1, 2, 3],
            }),
            loopback: false,
        },
        IfaceAddr {
            addr: HostAddr::V4(V4Addr {
                octets: [172, 17, 0, 1],
            }),
            loopback: false,
        },
    ];
    let allowed = vec![HostAddr::V4(V4Addr {
        octets: [10, 1, 2, 3],
    })];
    let addrs = ip_records(&ifaces, &allowed, Family::Inet);
    assert_eq!(addrs.len(), 1);
    match &addrs[0] {
        RRData::A(a) => assert_eq!(a.octets, [10, 1, 2, 3]),
        other => panic!("expected an A record, got {:?}", other),
    }
}

#[test]
fn srv_query_for_unknown_instance_sends_nothing() {
    let services = ServicesInner::new("test-host.local").unwrap();
    let addrs = vec![v4(10, 0, 0, 1)];
    let query = query_bytes("nope._http._tcp.local", QueryType::SRV);
    let out = handle_packet(&services, &addrs, &query);
    assert_eq!(out.len(), 0);
}

#[test]
fn srv_query_for_known_instance_answers_srv() {
    let mut services = ServicesInner::new("test-host.local").unwrap();
    services.register(ServiceData {
        name: Name::from_str("box._ssh._tcp.local").unwrap(),
        typ: Name::from_str("_ssh._tcp.local").unwrap(),
        port: 22,
        txt: vec![0],
    });
    let addrs = vec![v4(10, 0, 0, 1)];
    let query = query_bytes("box._ssh._tcp.local", QueryType::SRV);
    let out = handle_packet(&services, &addrs, &query);
    assert_eq!(out.len(), 1);
    let parsed = Packet::parse(&out[0].0).unwrap();
    assert_eq!(parsed.answers.len(), 1);
    match &parsed.answers[0].data {
        RRData::SRV { port, target, .. } => {
            assert_eq!(*port, 22);
            assert_eq!(*target, Name::from_str("test-host.local").unwrap());
        }
        other => panic!("expected an SRV record, got {:?}", other),
    }
    assert_eq!(parsed.header.additional, 1);
}

#[test]
fn non_queries_and_truncated_queries_are_dropped() {
    let mut services = ServicesInner::new("host.local").unwrap();
    services.register(ServiceData {
        name: Name::from_str("a._x._tcp.local").unwrap(),
        typ: Name::from_str("_x._tcp.local").unwrap(),
        port: 1,
        txt: vec![0],
    });
    let addrs = vec![v4(10, 0, 0, 1)];
    // a response-shaped message earns nothing
    let mut bld = Builder::new_response(1, false, true);
    bld.set_max_size(None);
    bld.add_question(
        &Name::from_str("_x._tcp.local").unwrap(),
        QueryType::PTR,
        QueryClass::IN,
    );
    let resp = bld.build().unwrap();
    assert_eq!(handle_packet(&services, &addrs, &resp).len(), 0);
    // a truncated query earns nothing
    let mut query = query_bytes("_x._tcp.local", QueryType::PTR);
    query[2] |= 0x02;
    assert_eq!(handle_packet(&services, &addrs, &query).len(), 0);
    // garbage earns nothing
    assert_eq!(handle_packet(&services, &addrs, b"nonsense").len(), 0);
    // and the plain query still works
    let query = query_bytes("_x._tcp.local", QueryType::PTR);
    assert_eq!(handle_packet(&services, &addrs, &query).len(), 1);
}

#[test]
fn unicast_bit_routes_the_response() {
    let mut services = ServicesInner::new("host.local").unwrap();
    services.register(ServiceData {
        name: Name::from_str("a._x._tcp.local").unwrap(),
        typ: Name::from_str("_x._tcp.local").unwrap(),
        port: 1,
        txt: vec![0],
    });
    let addrs: Vec<RRData> = Vec::new();
    // build a query whose question carries the qu bit: patch the class
    // field's high bit in the encoded bytes
    let mut query = query_bytes("_x._tcp.local", QueryType::PTR);
    let n = query.len();
    query[n - 2] |= 0x80;
    let out = handle_packet(&services, &addrs, &query);
    assert_eq!(out.len(), 1);
    assert_eq!(out[0].1, Destination::Unicast);
}

#[test]
fn announce_and_goodbye_messages() {
    let mut services = ServicesInner::new("test-host.local").unwrap();
    let svc = ServiceData {
        name: Name::from_str("box._ssh._tcp.local").unwrap(),
        typ: Name::from_str("_ssh._tcp.local").unwrap(),
        port: 22,
        txt: vec![0],
    };
    let id = services.register(svc.clone());
    let addrs = vec![v4(10, 0, 0, 1)];
    // announcing on registration: TTL 60, with address records
    let hello = build_unsolicited(&services, &svc, 60, true, &addrs);
    let parsed = Packet::parse(&hello).unwrap();
    assert_eq!(parsed.header.id, 0);
    assert!(!parsed.header.query);
    assert!(parsed.header.authoritative);
    assert_eq!(parsed.answers.len(), 4);
    for r in &parsed.answers {
        assert_eq!(r.ttl, 60);
    }
    assert!(parsed
        .answers
        .iter()
        .any(|r| matches!(&r.data, RRData::A(a) if a.octets == [10, 0, 0, 1])));
    assert!(parsed.answers.iter().any(|r| matches!(&r.data, RRData::PTR(_))));
    assert!(parsed.answers.iter().any(|r| matches!(&r.data, RRData::SRV { .. })));
    assert!(parsed.answers.iter().any(|r| matches!(&r.data, RRData::TXT(_))));
    // the goodbye on deregistration: TTL 0, no address records
    let removed = services.unregister(id);
    let goodbye = build_unsolicited(&services, &removed, 0, false, &addrs);
    let parsed = Packet::parse(&goodbye).unwrap();
    assert_eq!(parsed.answers.len(), 3);
    for r in &parsed.answers {
        assert_eq!(r.ttl, 0);
        assert!(!matches!(&r.data, RRData::A(_)));
    }
}

#[test]
fn txt_query_answers_txt_payload() {
    let mut services = ServicesInner::new("host.local").unwrap();
    let txt = encode_txt(&vec![b"a=1".to_vec(), b"b=2".to_vec()]);
    assert_eq!(txt, vec![3, 97, 61, 49, 3, 98, 61, 50]);
    services.register(ServiceData {
        name: Name::from_str("a._x._tcp.local").unwrap(),
        typ: Name::from_str("_x._tcp.local").unwrap(),
        port: 1,
        txt: txt.clone(),
    });
    let addrs: Vec<RRData> = Vec::new();
    let query = query_bytes("a._x._tcp.local", QueryType::TXT);
    let out = handle_packet(&services, &addrs, &query);
    assert_eq!(out.len(), 1);
    let parsed = Packet::parse(&out[0].0).unwrap();
    assert_eq!(parsed.answers.len(), 1);
    match &parsed.answers[0].data {
        RRData::TXT(d) => assert_eq!(*d, txt),
        other => panic!("expected a TXT record, got {:?}", other),
    }
}

#[test]
fn empty_txt_entries_become_one_empty_segment() {
    let txt = encode_txt(&Vec::new());
    assert_eq!(txt, vec![0]);
}

#[test]
fn compose_service_names_appends_local() {
    let (name, typ) = libmdns::compose_service_names("_http._tcp", "my web server").unwrap();
    assert_eq!(&typ.to_string()[..], "_http._tcp.local");
    assert_eq!(&name.to_string()[..], "my web server._http._tcp.local");
    assert!(libmdns::compose_service_names("_http._tcp", "dotted..name").is_err());
}
