use libmdns::builder::{Builder, Section};
use libmdns::enums::{Class, Opcode, QueryClass, QueryType, ResponseCode};
use libmdns::error::Error;
use libmdns::header::Header;
use libmdns::name::Name;
use libmdns::rrdata::{RRData, V4Addr, V6Addr};
use libmdns::structs::Packet;

#[test]
fn header_parse_example_query() {
    let query = b"\x06%\x01\x00\x00\x01\x00\x00\x00\x00\x00\x00\
                  \x07example\x03com\x00\x00\x01\x00\x01";
    let header = Header::parse(query).unwrap();
    assert_eq!(
        header,
        Header {
            id: 1573,
            query: true,
            opcode: Opcode::StandardQuery,
            authoritative: false,
            truncated: false,
            recursion_desired: true,
            recursion_available: false,
            response_code: ResponseCode::NoError,
            questions: 1,
            answers: 0,
            nameservers: 0,
            additional: 0,
        }
    );
}

#[test]
fn header_parse_example_response() {
    let response = b"\x06%\x81\x80\x00\x01\x00\x01\x00\x00\x00\x00\
                     \x07example\x03com\x00\x00\x01\x00\x01\
                     \xc0\x0c\x00\x01\x00\x01\x00\x00\x04\xf8\
                     \x00\x04]\xb8\xd8\"";
    let header = Header::parse(response).unwrap();
    assert_eq!(
        header,
        Header {
            id: 1573,
            query: false,
            opcode: Opcode::StandardQuery,
            authoritative: false,
            truncated: false,
            recursion_desired: true,
            recursion_available: true,
            response_code: ResponseCode::NoError,
            questions: 1,
            answers: 1,
            nameservers: 0,
            additional: 0,
        }
    );
}

#[test]
fn parser_parse_example_query() {
    let query = b"\x06%\x01\x00\x00\x01\x00\x00\x00\x00\x00\x00\
                  \x07example\x03com\x00\x00\x01\x00\x01";
    let packet = Packet::parse(query).unwrap();
    assert_eq!(
        packet.header,
        Header {
            id: 1573,
            query: true,
            opcode: Opcode::StandardQuery,
            authoritative: false,
            truncated: false,
            recursion_desired: true,
            recursion_available: false,
            response_code: ResponseCode::NoError,
            questions: 1,
            answers: 0,
            nameservers: 0,
            additional: 0,
        }
    );
    assert_eq!(packet.questions.len(), 1);
    assert_eq!(packet.questions[0].qtype, QueryType::A);
    assert_eq!(packet.questions[0].qclass, QueryClass::IN);
    assert_eq!(&packet.questions[0].qname.to_string()[..], "example.com");
    assert_eq!(packet.answers.len(), 0);
}

#[test]
fn parse_name_length_too_long_query() {
    // A name length running past the available data must be an error,
    // not a panic.
    let query = b"\x06%\x01\x00\x00\x01\x00\x00\x00\x00\x00\x00\
                  \x11example\x03com\x00\x00\x01\x00\x01";
    assert!(Packet::parse(query).is_err());
}

#[test]
fn parser_parse_example_response() {
    let response = b"\x06%\x81\x80\x00\x01\x00\x01\x00\x00\x00\x00\
                     \x07example\x03com\x00\x00\x01\x00\x01\
                     \xc0\x0c\x00\x01\x00\x01\x00\x00\x04\xf8\
                     \x00\x04]\xb8\xd8\"";
    let packet = Packet::parse(response).unwrap();
    assert_eq!(
        packet.header,
        Header {
            id: 1573,
            query: false,
            opcode: Opcode::StandardQuery,
            authoritative: false,
            truncated: false,
            recursion_desired: true,
            recursion_available: true,
            response_code: ResponseCode::NoError,
            questions: 1,
            answers: 1,
            nameservers: 0,
            additional: 0,
        }
    );
    assert_eq!(packet.questions.len(), 1);
    assert_eq!(packet.questions[0].qtype, QueryType::A);
    assert_eq!(packet.questions[0].qclass, QueryClass::IN);
    assert_eq!(&packet.questions[0].qname.to_string()[..], "example.com");
    assert_eq!(packet.answers.len(), 1);
    assert_eq!(&packet.answers[0].name.to_string()[..], "example.com");
    assert_eq!(packet.answers[0].cls, Class::IN);
    assert_eq!(packet.answers[0].ttl, 1272);
    match &packet.answers[0].data {
        RRData::A(addr) => {
            assert_eq!(addr.octets, [93, 184, 216, 34]);
        }
        x => panic!("Wrong rdata {:?}", x),
    }
}

#[test]
fn parse_ns_response() {
    let response = b"\x4a\xf0\x81\x80\x00\x01\x00\x01\x00\x01\x00\x00\
                     \x03www\x05skype\x03com\x00\x00\x01\x00\x01\
                     \xc0\x0c\x00\x05\x00\x01\x00\x00\x0e\x10\
                     \x00\x1c\x07\x6c\x69\x76\x65\x63\x6d\x73\x0e\x74\
                     \x72\x61\x66\x66\x69\x63\x6d\x61\x6e\x61\x67\x65\
                     \x72\x03\x6e\x65\x74\x00\
                     \xc0\x42\x00\x02\x00\x01\x00\x01\xd5\xd3\x00\x11\
                     \x01\x67\x0c\x67\x74\x6c\x64\x2d\x73\x65\x72\x76\x65\x72\x73\
                     \xc0\x42";
    let packet = Packet::parse(response).unwrap();
    assert_eq!(
        packet.header,
        Header {
            id: 19184,
            query: false,
            opcode: Opcode::StandardQuery,
            authoritative: false,
            truncated: false,
            recursion_desired: true,
            recursion_available: true,
            response_code: ResponseCode::NoError,
            questions: 1,
            answers: 1,
            nameservers: 1,
            additional: 0,
        }
    );
    assert_eq!(packet.questions.len(), 1);
    assert_eq!(packet.questions[0].qtype, QueryType::A);
    assert_eq!(packet.questions[0].qclass, QueryClass::IN);
    assert_eq!(&packet.questions[0].qname.to_string()[..], "www.skype.com");
    assert_eq!(packet.answers.len(), 1);
    assert_eq!(&packet.answers[0].name.to_string()[..], "www.skype.com");
    assert_eq!(packet.answers[0].cls, Class::IN);
    assert_eq!(packet.answers[0].ttl, 3600);
    match &packet.answers[0].data {
        RRData::CNAME(cname) => {
            assert_eq!(&cname.to_string()[..], "livecms.trafficmanager.net");
        }
        x => panic!("Wrong rdata {:?}", x),
    }
    assert_eq!(packet.nameservers.len(), 1);
    assert_eq!(&packet.nameservers[0].name.to_string()[..], "net");
    assert_eq!(packet.nameservers[0].cls, Class::IN);
    assert_eq!(packet.nameservers[0].ttl, 120_275);
    match &packet.nameservers[0].data {
        RRData::NS(ns) => {
            assert_eq!(&ns.to_string()[..], "g.gtld-servers.net");
        }
        x => panic!("Wrong rdata {:?}", x),
    }
}

#[test]
fn parse_multiple_answers() {
    let response = b"\x9d\xe9\x81\x80\x00\x01\x00\x06\x00\x00\x00\x00\
        \x06google\x03com\x00\x00\x01\x00\x01\xc0\x0c\
        \x00\x01\x00\x01\x00\x00\x00\xef\x00\x04@\xe9\
        \xa4d\xc0\x0c\x00\x01\x00\x01\x00\x00\x00\xef\
        \x00\x04@\xe9\xa4\x8b\xc0\x0c\x00\x01\x00\x01\
        \x00\x00\x00\xef\x00\x04@\xe9\xa4q\xc0\x0c\x00\
        \x01\x00\x01\x00\x00\x00\xef\x00\x04@\xe9\xa4f\
        \xc0\x0c\x00\x01\x00\x01\x00\x00\x00\xef\x00\x04@\
        \xe9\xa4e\xc0\x0c\x00\x01\x00\x01\x00\x00\x00\xef\
        \x00\x04@\xe9\xa4\x8a";
    let packet = Packet::parse(response).unwrap();
    assert_eq!(packet.header.id, 40425);
    assert_eq!(packet.header.answers, 6);
    assert_eq!(packet.questions.len(), 1);
    assert_eq!(packet.questions[0].qtype, QueryType::A);
    assert_eq!(packet.questions[0].qclass, QueryClass::IN);
    assert_eq!(&packet.questions[0].qname.to_string()[..], "google.com");
    assert_eq!(packet.answers.len(), 6);
    let ips = [
        [64, 233, 164, 100],
        [64, 233, 164, 139],
        [64, 233, 164, 113],
        [64, 233, 164, 102],
        [64, 233, 164, 101],
        [64, 233, 164, 138],
    ];
    for (i, answer) in packet.answers.iter().enumerate() {
        assert_eq!(&answer.name.to_string(), "google.com");
        assert_eq!(answer.cls, Class::IN);
        assert_eq!(answer.ttl, 239);
        match &answer.data {
            RRData::A(addr) => {
                assert_eq!(addr.octets, ips[i]);
            }
            x => panic!("Wrong rdata {:?}", x),
        }
    }
}

#[test]
fn parse_srv_query() {
    let query = b"[\xd9\x01\x00\x00\x01\x00\x00\x00\x00\x00\x00\
        \x0c_xmpp-server\x04_tcp\x05gmail\x03com\x00\x00!\x00\x01";
    let packet = Packet::parse(query).unwrap();
    assert_eq!(packet.header.id, 23513);
    assert_eq!(packet.questions.len(), 1);
    assert_eq!(packet.questions[0].qtype, QueryType::SRV);
    assert_eq!(packet.questions[0].qclass, QueryClass::IN);
    assert_eq!(
        &packet.questions[0].qname.to_string()[..],
        "_xmpp-server._tcp.gmail.com"
    );
    assert_eq!(packet.answers.len(), 0);
}

#[test]
fn parse_srv_response() {
    let response = b"[\xd9\x81\x80\x00\x01\x00\x05\x00\x00\x00\x00\
        \x0c_xmpp-server\x04_tcp\x05gmail\x03com\x00\x00!\x00\x01\
        \xc0\x0c\x00!\x00\x01\x00\x00\x03\x84\x00 \x00\x05\x00\x00\
        \x14\x95\x0bxmpp-server\x01l\x06google\x03com\x00\xc0\x0c\x00!\
        \x00\x01\x00\x00\x03\x84\x00%\x00\x14\x00\x00\x14\x95\
        \x04alt3\x0bxmpp-server\x01l\x06google\x03com\x00\
        \xc0\x0c\x00!\x00\x01\x00\x00\x03\x84\x00%\x00\x14\x00\x00\
        \x14\x95\x04alt1\x0bxmpp-server\x01l\x06google\x03com\x00\
        \xc0\x0c\x00!\x00\x01\x00\x00\x03\x84\x00%\x00\x14\x00\x00\
        \x14\x95\x04alt2\x0bxmpp-server\x01l\x06google\x03com\x00\
        \xc0\x0c\x00!\x00\x01\x00\x00\x03\x84\x00%\x00\x14\x00\x00\
        \x14\x95\x04alt4\x0bxmpp-server\x01l\x06google\x03com\x00";
    let packet = Packet::parse(response).unwrap();
    assert_eq!(packet.header.id, 23513);
    assert_eq!(packet.questions.len(), 1);
    assert_eq!(packet.questions[0].qtype, QueryType::SRV);
    assert_eq!(packet.questions[0].qclass, QueryClass::IN);
    assert_eq!(
        &packet.questions[0].qname.to_string()[..],
        "_xmpp-server._tcp.gmail.com"
    );
    assert_eq!(packet.answers.len(), 5);
    let items = [
        (5, 0, 5269, "xmpp-server.l.google.com"),
        (20, 0, 5269, "alt3.xmpp-server.l.google.com"),
        (20, 0, 5269, "alt1.xmpp-server.l.google.com"),
        (20, 0, 5269, "alt2.xmpp-server.l.google.com"),
        (20, 0, 5269, "alt4.xmpp-server.l.google.com"),
    ];
    for (i, answer) in packet.answers.iter().enumerate() {
        assert_eq!(&answer.name.to_string(), "_xmpp-server._tcp.gmail.com");
        assert_eq!(answer.cls, Class::IN);
        assert_eq!(answer.ttl, 900);
        match &answer.data {
            RRData::SRV {
                priority,
                weight,
                port,
                target,
            } => {
                assert_eq!(*priority, items[i].0);
                assert_eq!(*weight, items[i].1);
                assert_eq!(*port, items[i].2);
                assert_eq!(target.to_string(), (items[i].3).to_string());
            }
            x => panic!("Wrong rdata {:?}", x),
        }
    }
}

#[test]
fn parse_mx_response() {
    let response = b"\xe3\xe8\x81\x80\x00\x01\x00\x05\x00\x00\x00\x00\
        \x05gmail\x03com\x00\x00\x0f\x00\x01\xc0\x0c\x00\x0f\x00\x01\
        \x00\x00\x04|\x00\x1b\x00\x05\rgmail-smtp-in\x01l\x06google\xc0\
        \x12\xc0\x0c\x00\x0f\x00\x01\x00\x00\x04|\x00\t\x00\
        \n\x04alt1\xc0)\xc0\x0c\x00\x0f\x00\x01\x00\x00\x04|\
        \x00\t\x00(\x04alt4\xc0)\xc0\x0c\x00\x0f\x00\x01\x00\
        \x00\x04|\x00\t\x00\x14\x04alt2\xc0)\xc0\x0c\x00\x0f\
        \x00\x01\x00\x00\x04|\x00\t\x00\x1e\x04alt3\xc0)";
    let packet = Packet::parse(response).unwrap();
    assert_eq!(packet.header.id, 58344);
    assert_eq!(packet.questions.len(), 1);
    assert_eq!(packet.questions[0].qtype, QueryType::MX);
    assert_eq!(packet.questions[0].qclass, QueryClass::IN);
    assert_eq!(&packet.questions[0].qname.to_string()[..], "gmail.com");
    assert_eq!(packet.answers.len(), 5);
    let items = [
        (5, "gmail-smtp-in.l.google.com"),
        (10, "alt1.gmail-smtp-in.l.google.com"),
        (40, "alt4.gmail-smtp-in.l.google.com"),
        (20, "alt2.gmail-smtp-in.l.google.com"),
        (30, "alt3.gmail-smtp-in.l.google.com"),
    ];
    for (i, answer) in packet.answers.iter().enumerate() {
        assert_eq!(&answer.name.to_string(), "gmail.com");
        assert_eq!(answer.cls, Class::IN);
        assert_eq!(answer.ttl, 1148);
        match &answer.data {
            RRData::MX {
                preference,
                exchange,
            } => {
                assert_eq!(*preference, items[i].0);
                assert_eq!(exchange.to_string(), (items[i].1).to_string());
            }
            x => panic!("Wrong rdata {:?}", x),
        }
    }
}

#[test]
fn parse_aaaa_response() {
    let response = b"\xa9\xd9\x81\x80\x00\x01\x00\x01\x00\x00\x00\x00\x06\
        google\x03com\x00\x00\x1c\x00\x01\xc0\x0c\x00\x1c\x00\x01\x00\x00\
        \x00\x8b\x00\x10*\x00\x14P@\t\x08\x12\x00\x00\x00\x00\x00\x00 \x0e";
    let packet = Packet::parse(response).unwrap();
    assert_eq!(packet.header.id, 43481);
    assert_eq!(packet.questions.len(), 1);
    assert_eq!(packet.questions[0].qtype, QueryType::AAAA);
    assert_eq!(packet.questions[0].qclass, QueryClass::IN);
    assert_eq!(&packet.questions[0].qname.to_string()[..], "google.com");
    assert_eq!(packet.answers.len(), 1);
    assert_eq!(&packet.answers[0].name.to_string()[..], "google.com");
    assert_eq!(packet.answers[0].cls, Class::IN);
    assert_eq!(packet.answers[0].ttl, 139);
    match &packet.answers[0].data {
        RRData::AAAA(addr) => {
            assert_eq!(
                addr.segments,
                [0x2A00, 0x1450, 0x4009, 0x812, 0, 0, 0, 0x200e]
            );
        }
        x => panic!("Wrong rdata {:?}", x),
    }
}

#[test]
fn parse_cname_response() {
    let response = b"\xfc\x9d\x81\x80\x00\x01\x00\x06\x00\x02\x00\x02\x03\
        cdn\x07sstatic\x03net\x00\x00\x01\x00\x01\xc0\x0c\x00\x05\x00\x01\
        \x00\x00\x00f\x00\x02\xc0\x10\xc0\x10\x00\x01\x00\x01\x00\x00\x00\
        f\x00\x04h\x10g\xcc\xc0\x10\x00\x01\x00\x01\x00\x00\x00f\x00\x04h\
        \x10k\xcc\xc0\x10\x00\x01\x00\x01\x00\x00\x00f\x00\x04h\x10h\xcc\
        \xc0\x10\x00\x01\x00\x01\x00\x00\x00f\x00\x04h\x10j\xcc\xc0\x10\
        \x00\x01\x00\x01\x00\x00\x00f\x00\x04h\x10i\xcc\xc0\x10\x00\x02\
        \x00\x01\x00\x00\x99L\x00\x0b\x08cf-dns02\xc0\x10\xc0\x10\x00\x02\
        \x00\x01\x00\x00\x99L\x00\x0b\x08cf-dns01\xc0\x10\xc0\xa2\x00\x01\
        \x00\x01\x00\x00\x99L\x00\x04\xad\xf5:5\xc0\x8b\x00\x01\x00\x01\x00\
        \x00\x99L\x00\x04\xad\xf5;\x04";
    let packet = Packet::parse(response).unwrap();
    assert_eq!(packet.header.id, 64669);
    assert_eq!(packet.questions.len(), 1);
    assert_eq!(packet.questions[0].qtype, QueryType::A);
    assert_eq!(packet.questions[0].qclass, QueryClass::IN);
    assert_eq!(&packet.questions[0].qname.to_string()[..], "cdn.sstatic.net");
    assert_eq!(packet.answers.len(), 6);
    assert_eq!(&packet.answers[0].name.to_string()[..], "cdn.sstatic.net");
    assert_eq!(packet.answers[0].cls, Class::IN);
    assert_eq!(packet.answers[0].ttl, 102);
    match &packet.answers[0].data {
        RRData::CNAME(cname) => {
            assert_eq!(&cname.to_string(), "sstatic.net");
        }
        x => panic!("Wrong rdata {:?}", x),
    }
    let ips = [
        [104, 16, 103, 204],
        [104, 16, 107, 204],
        [104, 16, 104, 204],
        [104, 16, 106, 204],
        [104, 16, 105, 204],
    ];
    for i in 1..6 {
        assert_eq!(&packet.answers[i].name.to_string()[..], "sstatic.net");
        assert_eq!(packet.answers[i].cls, Class::IN);
        assert_eq!(packet.answers[i].ttl, 102);
        match &packet.answers[i].data {
            RRData::A(addr) => {
                assert_eq!(addr.octets, ips[i - 1]);
            }
            x => panic!("Wrong rdata {:?}", x),
        }
    }
}

#[test]
fn build_query() {
    let mut bld = Builder::new_query(1573, true);
    let name = Name::from_str("example.com").unwrap();
    bld.add_question(&name, QueryType::A, QueryClass::IN);
    let result = b"\x06%\x01\x00\x00\x01\x00\x00\x00\x00\x00\x00\
                  \x07example\x03com\x00\x00\x01\x00\x01";
    assert_eq!(&bld.build().unwrap()[..], &result[..]);
}

#[test]
fn build_srv_query() {
    let mut bld = Builder::new_query(23513, true);
    let name = Name::from_str("_xmpp-server._tcp.gmail.com").unwrap();
    bld.add_question(&name, QueryType::SRV, QueryClass::IN);
    let result = b"[\xd9\x01\x00\x00\x01\x00\x00\x00\x00\x00\x00\
        \x0c_xmpp-server\x04_tcp\x05gmail\x03com\x00\x00!\x00\x01";
    assert_eq!(&bld.build().unwrap()[..], &result[..]);
}

#[test]
fn roundtrip_all_record_types() {
    // Builds one message holding every modeled record type, parses it
    // back, and checks every field survives unchanged.
    let mut bld = Builder::new_response(4660, false, true);
    bld.set_max_size(None);
    let owner = Name::from_str("host.local").unwrap();
    let target = Name::from_str("target.local").unwrap();
    bld.add_question(
        &Name::from_str("ask.local").unwrap(),
        QueryType::All,
        QueryClass::IN,
    );
    bld.add_answer(
        &owner,
        QueryClass::IN,
        120,
        &RRData::A(V4Addr {
            octets: [10, 0, 0, 7],
        }),
    );
    bld.add_answer(
        &owner,
        QueryClass::IN,
        121,
        &RRData::AAAA(V6Addr {
            segments: [0xfe80, 0, 0, 0, 1, 2, 3, 4],
        }),
    );
    bld.add_answer(&owner, QueryClass::IN, 122, &RRData::PTR(target.clone()));
    bld.add_answer(
        &owner,
        QueryClass::IN,
        123,
        &RRData::SRV {
            priority: 1,
            weight: 2,
            port: 8080,
            target: target.clone(),
        },
    );
    bld.add_answer(&owner, QueryClass::IN, 124, &RRData::TXT(vec![4, 97, 98, 99, 100]));
    bld.add_answer(
        &owner,
        QueryClass::IN,
        125,
        &RRData::MX {
            preference: 10,
            exchange: target.clone(),
        },
    );
    bld.add_nameserver(&owner, QueryClass::IN, 126, &RRData::CNAME(target.clone()));
    let bytes = bld.build().unwrap();
    let packet = Packet::parse(&bytes).unwrap();
    assert_eq!(packet.header.id, 4660);
    assert!(!packet.header.query);
    assert!(packet.header.authoritative);
    assert!(!packet.header.truncated);
    assert_eq!(packet.header.questions, 1);
    assert_eq!(packet.header.answers, 6);
    assert_eq!(packet.header.nameservers, 1);
    assert_eq!(packet.header.additional, 0);
    assert_eq!(packet.questions.len(), 1);
    assert_eq!(packet.questions[0].qname, Name::from_str("ask.local").unwrap());
    assert_eq!(packet.questions[0].qtype, QueryType::All);
    assert_eq!(packet.questions[0].qclass, QueryClass::IN);
    assert!(!packet.questions[0].qu);
    let a = &packet.answers;
    assert_eq!(a.len(), 6);
    for (i, r) in a.iter().enumerate() {
        assert_eq!(r.name, owner);
        assert_eq!(r.cls, Class::IN);
        assert_eq!(r.ttl, 120 + i as u32);
    }
    match &a[0].data {
        RRData::A(x) => assert_eq!(x.octets, [10, 0, 0, 7]),
        x => panic!("Wrong rdata {:?}", x),
    }
    match &a[1].data {
        RRData::AAAA(x) => assert_eq!(x.segments, [0xfe80, 0, 0, 0, 1, 2, 3, 4]),
        x => panic!("Wrong rdata {:?}", x),
    }
    match &a[2].data {
        RRData::PTR(x) => assert_eq!(*x, target),
        x => panic!("Wrong rdata {:?}", x),
    }
    match &a[3].data {
        RRData::SRV {
            priority,
            weight,
            port,
            target: t,
        } => {
            assert_eq!((*priority, *weight, *port), (1, 2, 8080));
            assert_eq!(*t, target);
        }
        x => panic!("Wrong rdata {:?}", x),
    }
    match &a[4].data {
        RRData::TXT(x) => assert_eq!(*x, vec![4, 97, 98, 99, 100]),
        x => panic!("Wrong rdata {:?}", x),
    }
    match &a[5].data {
        RRData::MX {
            preference,
            exchange,
        } => {
            assert_eq!(*preference, 10);
            assert_eq!(*exchange, target);
        }
        x => panic!("Wrong rdata {:?}", x),
    }
    assert_eq!(packet.nameservers.len(), 1);
    match &packet.nameservers[0].data {
        RRData::CNAME(x) => assert_eq!(*x, target),
        x => panic!("Wrong rdata {:?}", x),
    }
}

#[test]
fn counts_match_appended_records() {
    // However the sections are filled, the counts parsed back out equal
    // the number of records appended to each.
    let mut bld = Builder::new_response(7, false, true);
    bld.set_max_size(None);
    let n = Name::from_str("c.local").unwrap();
    bld.add_question(&n, QueryType::A, QueryClass::IN);
    bld.add_question(&n, QueryType::AAAA, QueryClass::IN);
    for ttl in 0..3u32 {
        bld.add_answer(&n, QueryClass::IN, ttl, &RRData::TXT(vec![0]));
    }
    bld.add_nameserver(&n, QueryClass::IN, 9, &RRData::NS(n.clone()));
    for _ in 0..4 {
        bld.add_additional(
            &n,
            QueryClass::IN,
            1,
            &RRData::A(V4Addr {
                octets: [127, 0, 0, 1],
            }),
        );
    }
    assert!(!bld.is_empty());
    let bytes = bld.build().unwrap();
    assert_eq!(Header::question_count(&bytes), 2);
    assert_eq!(Header::answer_count(&bytes), 3);
    assert_eq!(Header::nameserver_count(&bytes), 1);
    assert_eq!(Header::additional_count(&bytes), 4);
    let packet = Packet::parse(&bytes).unwrap();
    assert_eq!(packet.questions.len(), 2);
    assert_eq!(packet.answers.len(), 3);
    assert_eq!(packet.nameservers.len(), 1);
}

#[test]
fn truncation_sets_flag_only_with_a_cap() {
    let long_label = "x".repeat(60);
    let mut parts: Vec<String> = Vec::new();
    for _ in 0..12 {
        parts.push(long_label.clone());
    }
    let big_name = Name::from_str(&parts.join(".")).unwrap();
    // With the query's 512-byte cap the message overflows: the bytes
    // come back tagged truncated and carry the truncated flag.
    let mut capped = Builder::new_query(1, false);
    capped.add_question(&big_name, QueryType::A, QueryClass::IN);
    let bytes = match capped.build() {
        Err(b) => b,
        Ok(_) => panic!("expected the size cap to truncate"),
    };
    let parsed = Packet::parse(&bytes).unwrap();
    assert!(parsed.header.truncated);
    // The same content with the cap lifted never sets the flag.
    let mut uncapped = Builder::new_query(1, false);
    uncapped.set_max_size(None);
    uncapped.add_question(&big_name, QueryType::A, QueryClass::IN);
    let bytes = uncapped.build().unwrap();
    let parsed = Packet::parse(&bytes).unwrap();
    assert!(!parsed.header.truncated);
}

#[test]
fn builder_is_empty_reflects_sections() {
    let mut bld = Builder::new_response(1, false, true);
    assert!(bld.is_empty());
    bld.move_to(Section::Answers);
    assert!(bld.is_empty());
    bld.add_answer(
        &Name::from_str("a.local").unwrap(),
        QueryClass::IN,
        60,
        &RRData::TXT(vec![0]),
    );
    assert!(!bld.is_empty());
}

#[test]
fn parse_rejects_malformed_headers() {
    assert_eq!(Packet::parse(b"\x00\x01\x02").unwrap_err(), Error::HeaderTooShort);
    // reserved flag bits set
    let reserved = b"\x00\x00\x00\x70\x00\x00\x00\x00\x00\x00\x00\x00";
    assert_eq!(
        Packet::parse(reserved).unwrap_err(),
        Error::ReservedBitsAreNonZero
    );
}

#[test]
fn parse_rejects_malformed_names_and_fields() {
    // question name runs past the end of the datagram
    let eof = b"\x00\x00\x00\x00\x00\x01\x00\x00\x00\x00\x00\x00\x0bshort";
    assert_eq!(Packet::parse(eof).unwrap_err(), Error::UnexpectedEOF);
    // label tag 0b10 is undefined
    let badtag = b"\x00\x00\x00\x00\x00\x01\x00\x00\x00\x00\x00\x00\x80a\x00\x00\x01\x00\x01";
    assert_eq!(Packet::parse(badtag).unwrap_err(), Error::UnknownLabelFormat);
    // a label byte outside ASCII
    let nonascii = b"\x00\x00\x00\x00\x00\x01\x00\x00\x00\x00\x00\x00\x02a\xff\x00\x00\x01\x00\x01";
    assert_eq!(Packet::parse(nonascii).unwrap_err(), Error::LabelIsNotAscii);
    // unknown query type code 3
    let badqt = b"\x00\x00\x00\x00\x00\x01\x00\x00\x00\x00\x00\x00\x01a\x00\x00\x03\x00\x01";
    assert_eq!(
        Packet::parse(badqt).unwrap_err(),
        Error::InvalidQueryType(3)
    );
    // unknown query class code 5
    let badqc = b"\x00\x00\x00\x00\x00\x01\x00\x00\x00\x00\x00\x00\x01a\x00\x00\x01\x00\x05";
    assert_eq!(
        Packet::parse(badqc).unwrap_err(),
        Error::InvalidQueryClass(5)
    );
    // record with unknown class code 5
    let badcls = b"\x00\x00\x00\x00\x00\x00\x00\x01\x00\x00\x00\x00\
                   \x01a\x00\x00\x01\x00\x05\x00\x00\x00\x00\x00\x04\x01\x02\x03\x04";
    assert_eq!(Packet::parse(badcls).unwrap_err(), Error::InvalidClass(5));
    // record with unknown type code 3
    let badtype = b"\x00\x00\x00\x00\x00\x00\x00\x01\x00\x00\x00\x00\
                    \x01a\x00\x00\x03\x00\x01\x00\x00\x00\x00\x00\x04\x01\x02\x03\x04";
    assert_eq!(Packet::parse(badtype).unwrap_err(), Error::InvalidType(3));
    // A record with the wrong RDATA size
    let badlen = b"\x00\x00\x00\x00\x00\x00\x00\x01\x00\x00\x00\x00\
                   \x01a\x00\x00\x01\x00\x01\x00\x00\x00\x00\x00\x05\x01\x02\x03\x04\x05";
    assert_eq!(
        Packet::parse(badlen).unwrap_err(),
        Error::WrongRdataLength
    );
}

#[test]
fn compression_pointer_out_of_bounds_is_an_error() {
    // a question name that is a pointer to offset 300, past the end
    let ptr = b"\x00\x00\x00\x00\x00\x01\x00\x00\x00\x00\x00\x00\xc1\x2c\x00\x01\x00\x01";
    assert_eq!(Packet::parse(ptr).unwrap_err(), Error::UnexpectedEOF);
}

#[test]
fn compression_pointer_after_labels_is_an_error() {
    // one good label, then a pointer past the end of the datagram
    let ptr = b"\x00\x00\x00\x00\x00\x01\x00\x00\x00\x00\x00\x00\x03abc\xc1\x2c\x00\x01\x00\x01";
    assert_eq!(Packet::parse(ptr).unwrap_err(), Error::UnexpectedEOF);
}

#[test]
fn compression_pointer_cycle_is_an_error() {
    // a question name that is a pointer to itself: the chain makes no
    // backward progress and must be rejected, not followed forever
    let ptr = b"\x00\x00\x00\x00\x00\x01\x00\x00\x00\x00\x00\x00\xc0\x0c\x00\x01\x00\x01";
    assert_eq!(Packet::parse(ptr).unwrap_err(), Error::UnexpectedEOF);
}

#[test]
fn name_text_forms() {
    let n = Name::from_str("example.com").unwrap();
    assert_eq!(&n.to_string()[..], "example.com");
    assert_eq!(n, Name::from_str("example.com").unwrap());
    assert_ne!(n, Name::from_str("example.org").unwrap());
    assert!(Name::from_str("").is_err());
    assert!(Name::from_str("a..b").is_err());
    assert!(Name::from_str(&"y".repeat(64)).is_err());
    let scanned = Name::scan(b"\x07example\x03com\x00", 0, 13).unwrap();
    assert_eq!(scanned.0, n);
    assert_eq!(scanned.1, 13);
}
