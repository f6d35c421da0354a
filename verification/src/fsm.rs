//! The responder engine's decisions: which answer and additional records
//! a question earns, how an inbound datagram becomes outbound responses,
//! and the unsolicited announce/withdraw messages. The surrounding I/O —
//! sockets, timers, the poll loop — stays outside; everything here maps
//! plain values to plain values.

use vstd::prelude::*;

use crate::builder::{lemma_builder_header_counts, section_rank, Builder, Section};
use crate::enums::{Class, QueryClass, QueryType};
use crate::header::Header;
use crate::name::{wf_name, Name};
use crate::parser::spec_parse_packet;
use crate::rrdata::{rrdata_bytes, wf_rrdatav, RRData, RRDataV, V4Addr, V6Addr};
use crate::services::{
    spec_all_types, spec_find_by_name, spec_find_by_type, wf_servicedatav, EntryV, ServiceData,
    ServicesInner,
};
use crate::structs::{Packet, Question, QuestionV, RecordV};
use crate::DEFAULT_TTL;

verus! {

/// The two address families an engine can serve.
#[derive(Debug, Clone, Copy, PartialEq, Eq, Structural)]
pub enum Family {
    Inet,
    Inet6,
}

/// Where a finished response datagram should be sent.
#[derive(Debug, Clone, Copy, PartialEq, Eq, Structural)]
pub enum Destination {
    /// Back to the querying socket address, as its qu bit asked.
    Unicast,
    /// To the mDNS group of the engine's address family.
    Multicast,
}

/// A host address of either family.
#[derive(Debug, Clone, Copy)]
pub enum HostAddr {
    V4(V4Addr),
    V6(V6Addr),
}

/// The mathematical shape of a host address.
pub enum HostAddrV {
    V4(Seq<u8>),
    V6(Seq<u16>),
}

impl View for HostAddr {
    type V = HostAddrV;

    open spec fn view(&self) -> HostAddrV {
        match self {
            HostAddr::V4(a) => HostAddrV::V4(a@),
            HostAddr::V6(a) => HostAddrV::V6(a@),
        }
    }
}

/// One address reported for a network interface.
#[derive(Debug, Clone, Copy)]
pub struct IfaceAddr {
    pub addr: HostAddr,
    pub loopback: bool,
}

/// The mathematical shape of an interface address.
pub struct IfaceAddrV {
    pub addr: HostAddrV,
    pub loopback: bool,
}

impl View for IfaceAddr {
    type V = IfaceAddrV;

    open spec fn view(&self) -> IfaceAddrV {
        IfaceAddrV { addr: self.addr@, loopback: self.loopback }
    }
}

/// An out-of-band instruction to a running engine.
#[derive(Debug, Clone)]
pub enum Command {
    /// Announce (or with TTL zero withdraw) a service unprompted.
    SendUnsolicited { svc: ServiceData, ttl: u32, include_ip: bool },
    /// Stop the engine.
    Shutdown,
}

/// The address payload an interface address contributes on a family, if
/// any: loopback interfaces never answer, a non-empty allow-list keeps
/// only its members, and only the matching family's addresses are used.
pub open spec fn spec_iface_record(
    a: IfaceAddrV,
    allowed: Seq<HostAddrV>,
    fam: Family,
) -> Seq<RRDataV> {
    if a.loopback {
        Seq::empty()
    } else if allowed.len() > 0 && !allowed.contains(a.addr) {
        Seq::empty()
    } else {
        match (a.addr, fam) {
            (HostAddrV::V4(o), Family::Inet) => seq![RRDataV::A(o)],
            (HostAddrV::V6(g), Family::Inet6) => seq![RRDataV::AAAA(g)],
            _ => Seq::empty(),
        }
    }
}

/// The address payloads to answer with, in interface order.
pub open spec fn spec_ip_records(
    ifaces: Seq<IfaceAddrV>,
    allowed: Seq<HostAddrV>,
    fam: Family,
) -> Seq<RRDataV>
    decreases ifaces.len(),
{
    if ifaces.len() == 0 {
        Seq::empty()
    } else {
        spec_ip_records(ifaces.drop_last(), allowed, fam) + spec_iface_record(
            ifaces.last(),
            allowed,
            fam,
        )
    }
}

/// True when two addresses hold the same bytes.
fn addr_eq(a: &HostAddr, b: &HostAddr) -> (r: bool)
    ensures
        r == (a@ == b@),
{
    match (a, b) {
        (HostAddr::V4(x), HostAddr::V4(y)) => {
            let r = x.octets[0] == y.octets[0] && x.octets[1] == y.octets[1] && x.octets[2]
                == y.octets[2] && x.octets[3] == y.octets[3];
            proof {
                if r {
                    assert(x.octets@ =~= y.octets@);
                }
            }
            r
        },
        (HostAddr::V6(x), HostAddr::V6(y)) => {
            let r = x.segments[0] == y.segments[0] && x.segments[1] == y.segments[1] && x.segments[2]
                == y.segments[2] && x.segments[3] == y.segments[3] && x.segments[4]
                == y.segments[4] && x.segments[5] == y.segments[5] && x.segments[6]
                == y.segments[6] && x.segments[7] == y.segments[7];
            proof {
                if r {
                    assert(x.segments@ =~= y.segments@);
                }
            }
            r
        },
        _ => false,
    }
}

/// True when the allow-list holds this address.
fn allowed_contains(allowed: &Vec<HostAddr>, a: &HostAddr) -> (r: bool)
    ensures
        r == allowed@.map_values(|x: HostAddr| x@).contains(a@),
{
    let n = allowed.len();
    let mut i: usize = 0;
    while i < n
        invariant
            i <= n,
            n == allowed@.len(),
            forall|j: int| 0 <= j < i ==> (#[trigger] allowed@[j])@ != a@,
        decreases n - i,
    {
        if addr_eq(&allowed[i], a) {
            proof {
                assert(allowed@.map_values(|x: HostAddr| x@)[i as int] == a@);
            }
            return true;
        }
        i += 1;
    }
    proof {
        let m = allowed@.map_values(|x: HostAddr| x@);
        if m.contains(a@) {
            let w = choose|w: int| 0 <= w < m.len() && #[trigger] m[w] == a@;
            assert(allowed@[w]@ == a@);
        }
    }
    false
}

/// Turns the interface list into the address payloads this family
/// answers with: loopbacks dropped, the allow-list applied, one A or
/// AAAA payload per surviving address of the family.
pub fn ip_records(ifaces: &Vec<IfaceAddr>, allowed: &Vec<HostAddr>, fam: Family) -> (r: Vec<
    RRData,
>)
    ensures
        r@.map_values(|d: RRData| d@) == spec_ip_records(
            ifaces@.map_values(|a: IfaceAddr| a@),
            allowed@.map_values(|x: HostAddr| x@),
            fam,
        ),
        forall|i: int|
            0 <= i < r@.len() ==> wf_rrdatav(#[trigger] r@[i]@) && rrdata_bytes(r@[i]@).len()
                <= 65535,
{
    let ghost ifv = ifaces@.map_values(|a: IfaceAddr| a@);
    let ghost alv = allowed@.map_values(|x: HostAddr| x@);
    let n = ifaces.len();
    let mut out: Vec<RRData> = Vec::new();
    let mut i: usize = 0;
    proof {
        assert(ifv.subrange(0, 0) =~= Seq::<IfaceAddrV>::empty());
        assert(out@.map_values(|d: RRData| d@) =~= spec_ip_records(ifv.subrange(0, 0), alv, fam));
    }
    while i < n
        invariant
            i <= n,
            n == ifaces@.len(),
            ifv == ifaces@.map_values(|a: IfaceAddr| a@),
            alv == allowed@.map_values(|x: HostAddr| x@),
            out@.map_values(|d: RRData| d@) == spec_ip_records(ifv.subrange(0, i as int), alv, fam),
            forall|j: int|
                0 <= j < out@.len() ==> wf_rrdatav(#[trigger] out@[j]@) && rrdata_bytes(
                    out@[j]@,
                ).len() <= 65535,
        decreases n - i,
    {
        let ghost pre = ifv.subrange(0, i as int);
        let ghost pre2 = ifv.subrange(0, i + 1);
        proof {
            assert(pre2.drop_last() =~= pre);
            assert(pre2.last() == ifv[i as int]);
        }
        let ghost out_pre = out@;
        let a = &ifaces[i];
        if !a.loopback && (allowed.len() == 0 || allowed_contains(allowed, &a.addr)) {
            match (&a.addr, fam) {
                (HostAddr::V4(o), Family::Inet) => {
                    out.push(RRData::A(*o));
                    proof {
                        assert(out@.map_values(|d: RRData| d@) =~= out_pre.map_values(
                            |d: RRData| d@,
                        ).push(RRDataV::A(o@)));
                    }
                },
                (HostAddr::V6(g), Family::Inet6) => {
                    out.push(RRData::AAAA(*g));
                    proof {
                        assert(out@.map_values(|d: RRData| d@) =~= out_pre.map_values(
                            |d: RRData| d@,
                        ).push(RRDataV::AAAA(g@)));
                    }
                },
                _ => {
                    proof {
                        assert(spec_iface_record(ifv[i as int], alv, fam) =~= Seq::<
                            RRDataV,
                        >::empty());
                        assert(out@.map_values(|d: RRData| d@) + spec_iface_record(
                            ifv[i as int],
                            alv,
                            fam,
                        ) =~= out@.map_values(|d: RRData| d@));
                    }
                },
            }
        } else {
            proof {
                assert(spec_iface_record(ifv[i as int], alv, fam) =~= Seq::<RRDataV>::empty());
                assert(out@.map_values(|d: RRData| d@) + spec_iface_record(
                    ifv[i as int],
                    alv,
                    fam,
                ) =~= out@.map_values(|d: RRData| d@));
            }
        }
        i += 1;
    }
    proof {
        assert(ifv.subrange(0, n as int) =~= ifv);
    }
    out
}

/// The expanded encoding of the service-type enumeration name of
/// RFC 6763: `_services._dns-sd._udp.local`.
pub open spec fn spec_enum_name() -> Seq<u8> {
    seq![
        9u8, 95u8, 115u8, 101u8, 114u8, 118u8, 105u8, 99u8, 101u8, 115u8,
        7u8, 95u8, 100u8, 110u8, 115u8, 45u8, 115u8, 100u8,
        4u8, 95u8, 117u8, 100u8, 112u8,
        5u8, 108u8, 111u8, 99u8, 97u8, 108u8,
        0u8,
    ]
}

/// The enumeration name is a well-formed encoding.
pub proof fn lemma_enum_name_wf()
    ensures
        wf_name(spec_enum_name()),
{
    let s = spec_enum_name();
    assert(s.subrange(29, 30) =~= seq![0u8]);
    assert(wf_name(seq![0u8]));
    assert(s.subrange(23, 30).subrange(6, 7) =~= s.subrange(29, 30));
    assert(wf_name(s.subrange(23, 30)));
    assert(s.subrange(18, 30).subrange(5, 12) =~= s.subrange(23, 30));
    assert(wf_name(s.subrange(18, 30)));
    assert(s.subrange(10, 30).subrange(8, 20) =~= s.subrange(18, 30));
    assert(wf_name(s.subrange(10, 30)));
    assert(s.subrange(10, 30) =~= s.subrange(s[0] + 1, s.len() as int));
    assert(wf_name(s));
}

/// The service-type enumeration name as a `Name` value.
pub fn service_enum_name() -> (r: Name)
    ensures
        r@ == spec_enum_name(),
        r.wf(),
{
    let v: Vec<u8> = vec![
        9u8, 95u8, 115u8, 101u8, 114u8, 118u8, 105u8, 99u8, 101u8, 115u8,
        7u8, 95u8, 100u8, 110u8, 115u8, 45u8, 115u8, 100u8,
        4u8, 95u8, 117u8, 100u8, 112u8,
        5u8, 108u8, 111u8, 99u8, 97u8, 108u8,
        0u8,
    ];
    proof {
        assert(v@ =~= spec_enum_name());
        lemma_enum_name_wf();
    }
    Name::from_bytes(v)
}

/// One address answer record per payload, all owned by the host name.
pub open spec fn addr_records(hostname: Seq<u8>, ttl: u32, addrs: Seq<RRDataV>) -> Seq<RecordV> {
    addrs.map_values(|d: RRDataV| RecordV { name: hostname, cls: Class::IN, ttl, data: d })
}

/// One PTR answer per distinct registered service type, under the
/// enumeration name.
pub open spec fn enum_answers(svcs: Seq<EntryV>, ttl: u32) -> Seq<RecordV> {
    spec_all_types(svcs).map_values(
        |t: Seq<u8>| RecordV { name: spec_enum_name(), cls: Class::IN, ttl, data: RRDataV::PTR(t) },
    )
}

/// One PTR answer per service of the queried type, pointing the type at
/// the instance name.
pub open spec fn ptr_answer_records(ds: Seq<crate::services::ServiceDataV>, ttl: u32) -> Seq<
    RecordV,
> {
    ds.map_values(
        |d: crate::services::ServiceDataV| RecordV {
            name: d.typ,
            cls: Class::IN,
            ttl,
            data: RRDataV::PTR(d.name),
        },
    )
}

/// The SRV record of one service instance.
pub open spec fn srv_record(
    d: crate::services::ServiceDataV,
    hostname: Seq<u8>,
    ttl: u32,
) -> RecordV {
    RecordV {
        name: d.name,
        cls: Class::IN,
        ttl,
        data: RRDataV::SRV { priority: 0, weight: 0, port: d.port, target: hostname },
    }
}

/// The TXT record of one service instance.
pub open spec fn txt_record(d: crate::services::ServiceDataV, ttl: u32) -> RecordV {
    RecordV { name: d.name, cls: Class::IN, ttl, data: RRDataV::TXT(d.txt) }
}

/// SRV and TXT records for a run of service instances, in order.
pub open spec fn srv_txt_records(
    ds: Seq<crate::services::ServiceDataV>,
    hostname: Seq<u8>,
    ttl: u32,
) -> Seq<RecordV>
    decreases ds.len(),
{
    if ds.len() == 0 {
        Seq::empty()
    } else {
        srv_txt_records(ds.drop_last(), hostname, ttl) + seq![
            srv_record(ds.last(), hostname, ttl),
            txt_record(ds.last(), ttl),
        ]
    }
}

/// The answer section a question earns, per the answering policy:
/// address records for the host's own name, service-type enumeration,
/// PTR for a queried service type, SRV and TXT for a queried instance,
/// and for the wildcard query type the union of them all.
pub open spec fn expected_answers(
    q: QuestionV,
    svcs: Seq<EntryV>,
    hostname: Seq<u8>,
    ttl: u32,
    addrs: Seq<RRDataV>,
) -> Seq<RecordV> {
    match q.qtype {
        QueryType::A => if q.qname == hostname {
            addr_records(hostname, ttl, addrs)
        } else {
            Seq::empty()
        },
        QueryType::AAAA => if q.qname == hostname {
            addr_records(hostname, ttl, addrs)
        } else {
            Seq::empty()
        },
        QueryType::All => (
        if q.qname == hostname {
            addr_records(hostname, ttl, addrs)
        } else {
            Seq::empty()
        }) + (
        if q.qname == spec_enum_name() {
            enum_answers(svcs, ttl)
        } else {
            Seq::empty()
        }) + ptr_answer_records(spec_find_by_type(svcs, q.qname), ttl) + (
        match spec_find_by_name(svcs, q.qname) {
            Some(d) => seq![srv_record(d, hostname, ttl), txt_record(d, ttl)],
            None => Seq::empty(),
        }),
        QueryType::PTR => (
        if q.qname == spec_enum_name() {
            enum_answers(svcs, ttl)
        } else {
            Seq::empty()
        }) + ptr_answer_records(spec_find_by_type(svcs, q.qname), ttl),
        QueryType::SRV => match spec_find_by_name(svcs, q.qname) {
            Some(d) => seq![srv_record(d, hostname, ttl)],
            None => Seq::empty(),
        },
        QueryType::TXT => match spec_find_by_name(svcs, q.qname) {
            Some(d) => seq![txt_record(d, ttl)],
            None => Seq::empty(),
        },
        _ => Seq::empty(),
    }
}

/// The additional section a question earns: SRV and TXT for each
/// instance answered by PTR, the host's address records when any
/// instance or the queried instance was involved.
pub open spec fn expected_additional(
    q: QuestionV,
    svcs: Seq<EntryV>,
    hostname: Seq<u8>,
    ttl: u32,
    addrs: Seq<RRDataV>,
) -> Seq<RecordV> {
    match q.qtype {
        QueryType::All => srv_txt_records(spec_find_by_type(svcs, q.qname), hostname, ttl) + (
        if spec_find_by_type(svcs, q.qname).len() > 0 || spec_find_by_name(svcs, q.qname) is Some {
            addr_records(hostname, ttl, addrs)
        } else {
            Seq::empty()
        }),
        QueryType::PTR => srv_txt_records(spec_find_by_type(svcs, q.qname), hostname, ttl) + (
        if spec_find_by_type(svcs, q.qname).len() > 0 {
            addr_records(hostname, ttl, addrs)
        } else {
            Seq::empty()
        }),
        QueryType::SRV => match spec_find_by_name(svcs, q.qname) {
            Some(_) => addr_records(hostname, ttl, addrs),
            None => Seq::empty(),
        },
        _ => Seq::empty(),
    }
}

/// Well-formed address payload list: what `ip_records` yields.
pub open spec fn wf_addr_list(addrs: Seq<RRDataV>) -> bool {
    forall|i: int|
        0 <= i < addrs.len() ==> wf_rrdatav(#[trigger] addrs[i]) && rrdata_bytes(addrs[i]).len()
            <= 65535
}


/// Appends one answer record per address payload, owned by the host.
fn add_ip_answers(builder: &mut Builder, hostname: &Name, ttl: u32, addrs: &Vec<RRData>)
    requires
        old(builder).wf(),
        old(builder).spec_section() == Section::Answers,
        hostname.wf(),
        ttl <= 0x7FFFFFFF,
        wf_addr_list(addrs@.map_values(|d: RRData| d@)),
        old(builder).spec_answers().len() + addrs@.len() <= 65535,
    ensures
        final(builder).wf(),
        final(builder).spec_section() == Section::Answers,
        final(builder).spec_answers() == old(builder).spec_answers() + addr_records(
            hostname@,
            ttl,
            addrs@.map_values(|d: RRData| d@),
        ),
        final(builder).spec_questions() == old(builder).spec_questions(),
        final(builder).spec_nameservers() == old(builder).spec_nameservers(),
        final(builder).spec_additional() == old(builder).spec_additional(),
        final(builder).spec_max_size() == old(builder).spec_max_size(),
        final(builder).spec_header() == (Header {
            answers: (old(builder).spec_answers().len() + addrs@.len()) as u16,
            ..old(builder).spec_header()
        }),
{
    let ghost av = addrs@.map_values(|d: RRData| d@);
    let ghost base = old(builder).spec_answers();
    let ghost h0 = old(builder).spec_header();
    let ghost q0 = old(builder).spec_questions();
    let ghost n0 = old(builder).spec_nameservers();
    let ghost d0 = old(builder).spec_additional();
    let ghost m0 = old(builder).spec_max_size();
    let n = addrs.len();
    let mut i: usize = 0;
    proof {
        assert(av.subrange(0, 0) =~= Seq::<RRDataV>::empty());
        assert(base + addr_records(hostname@, ttl, av.subrange(0, 0)) =~= base);
        lemma_builder_header_counts(*old(builder));
        assert(h0 == Header { answers: (base.len() + 0) as u16, ..h0 });
    }
    while i < n
        invariant
            i <= n,
            n == addrs@.len(),
            av == addrs@.map_values(|d: RRData| d@),
            builder.wf(),
            builder.spec_section() == Section::Answers,
            hostname.wf(),
            ttl <= 0x7FFFFFFF,
            wf_addr_list(av),
            base.len() + n <= 65535,
            builder.spec_answers() == base + addr_records(hostname@, ttl, av.subrange(0, i as int)),
            builder.spec_answers().len() == base.len() + i,
            builder.spec_questions() == q0,
            builder.spec_nameservers() == n0,
            builder.spec_additional() == d0,
            builder.spec_max_size() == m0,
            builder.spec_header() == (Header { answers: (base.len() + i) as u16, ..h0 }),
        decreases n - i,
    {
        let ghost ans_pre = builder.spec_answers();
        builder.add_answer(hostname, QueryClass::IN, ttl, &addrs[i]);
        proof {
            let rec = RecordV { name: hostname@, cls: Class::IN, ttl, data: av[i as int] };
            assert(addr_records(hostname@, ttl, av.subrange(0, i + 1)) =~= addr_records(
                hostname@,
                ttl,
                av.subrange(0, i as int),
            ).push(rec));
            assert(builder.spec_answers() =~= base + addr_records(
                hostname@,
                ttl,
                av.subrange(0, i + 1),
            ));
        }
        i += 1;
    }
    proof {
        assert(av.subrange(0, n as int) =~= av);
    }
}

/// Appends one additional record per address payload, owned by the host.
fn add_ip_additionals(builder: &mut Builder, hostname: &Name, ttl: u32, addrs: &Vec<RRData>)
    requires
        old(builder).wf(),
        old(builder).spec_section() == Section::Additional,
        hostname.wf(),
        ttl <= 0x7FFFFFFF,
        wf_addr_list(addrs@.map_values(|d: RRData| d@)),
        old(builder).spec_additional().len() + addrs@.len() <= 65535,
    ensures
        final(builder).wf(),
        final(builder).spec_section() == Section::Additional,
        final(builder).spec_additional() == old(builder).spec_additional() + addr_records(
            hostname@,
            ttl,
            addrs@.map_values(|d: RRData| d@),
        ),
        final(builder).spec_questions() == old(builder).spec_questions(),
        final(builder).spec_answers() == old(builder).spec_answers(),
        final(builder).spec_nameservers() == old(builder).spec_nameservers(),
        final(builder).spec_max_size() == old(builder).spec_max_size(),
        final(builder).spec_header() == (Header {
            additional: (old(builder).spec_additional().len() + addrs@.len()) as u16,
            ..old(builder).spec_header()
        }),
{
    let ghost av = addrs@.map_values(|d: RRData| d@);
    let ghost base = old(builder).spec_additional();
    let ghost h0 = old(builder).spec_header();
    let ghost q0 = old(builder).spec_questions();
    let ghost n0 = old(builder).spec_nameservers();
    let ghost a0 = old(builder).spec_answers();
    let ghost m0 = old(builder).spec_max_size();
    let n = addrs.len();
    let mut i: usize = 0;
    proof {
        assert(av.subrange(0, 0) =~= Seq::<RRDataV>::empty());
        assert(base + addr_records(hostname@, ttl, av.subrange(0, 0)) =~= base);
        lemma_builder_header_counts(*old(builder));
        assert(h0 == Header { additional: (base.len() + 0) as u16, ..h0 });
    }
    while i < n
        invariant
            i <= n,
            n == addrs@.len(),
            av == addrs@.map_values(|d: RRData| d@),
            builder.wf(),
            builder.spec_section() == Section::Additional,
            hostname.wf(),
            ttl <= 0x7FFFFFFF,
            wf_addr_list(av),
            base.len() + n <= 65535,
            builder.spec_additional() == base + addr_records(
                hostname@,
                ttl,
                av.subrange(0, i as int),
            ),
            builder.spec_additional().len() == base.len() + i,
            builder.spec_questions() == q0,
            builder.spec_nameservers() == n0,
            builder.spec_answers() == a0,
            builder.spec_max_size() == m0,
            builder.spec_header() == (Header { additional: (base.len() + i) as u16, ..h0 }),
        decreases n - i,
    {
        builder.add_additional(hostname, QueryClass::IN, ttl, &addrs[i]);
        proof {
            let rec = RecordV { name: hostname@, cls: Class::IN, ttl, data: av[i as int] };
            assert(addr_records(hostname@, ttl, av.subrange(0, i + 1)) =~= addr_records(
                hostname@,
                ttl,
                av.subrange(0, i as int),
            ).push(rec));
            assert(builder.spec_additional() =~= base + addr_records(
                hostname@,
                ttl,
                av.subrange(0, i + 1),
            ));
        }
        i += 1;
    }
    proof {
        assert(av.subrange(0, n as int) =~= av);
    }
}

/// Appends one PTR answer per given service type name, under the
/// enumeration name.
fn add_enum_answers(builder: &mut Builder, types: &Vec<Name>, ttl: u32)
    requires
        old(builder).wf(),
        old(builder).spec_section() == Section::Answers,
        ttl <= 0x7FFFFFFF,
        forall|i: int| 0 <= i < types@.len() ==> (#[trigger] types@[i]).wf() && types@[i]@.len() <= 65535,
        old(builder).spec_answers().len() + types@.len() <= 65535,
    ensures
        final(builder).wf(),
        final(builder).spec_section() == Section::Answers,
        final(builder).spec_answers() == old(builder).spec_answers() + types@.map_values(
            |t: Name| RecordV {
                name: spec_enum_name(),
                cls: Class::IN,
                ttl,
                data: RRDataV::PTR(t@),
            },
        ),
        final(builder).spec_questions() == old(builder).spec_questions(),
        final(builder).spec_nameservers() == old(builder).spec_nameservers(),
        final(builder).spec_additional() == old(builder).spec_additional(),
        final(builder).spec_max_size() == old(builder).spec_max_size(),
        final(builder).spec_header() == (Header {
            answers: (old(builder).spec_answers().len() + types@.len()) as u16,
            ..old(builder).spec_header()
        }),
{
    let ghost recs = types@.map_values(
        |t: Name| RecordV { name: spec_enum_name(), cls: Class::IN, ttl, data: RRDataV::PTR(t@) },
    );
    let ghost base = old(builder).spec_answers();
    let ghost h0 = old(builder).spec_header();
    let ghost q0 = old(builder).spec_questions();
    let ghost n0 = old(builder).spec_nameservers();
    let ghost d0 = old(builder).spec_additional();
    let ghost m0 = old(builder).spec_max_size();
    let enum_name = service_enum_name();
    let n = types.len();
    let mut i: usize = 0;
    proof {
        assert(base + recs.subrange(0, 0) =~= base);
        lemma_builder_header_counts(*old(builder));
        assert(h0 == Header { answers: (base.len() + 0) as u16, ..h0 });
    }
    while i < n
        invariant
            i <= n,
            n == types@.len(),
            recs == types@.map_values(
                |t: Name| RecordV {
                    name: spec_enum_name(),
                    cls: Class::IN,
                    ttl,
                    data: RRDataV::PTR(t@),
                },
            ),
            builder.wf(),
            builder.spec_section() == Section::Answers,
            enum_name@ == spec_enum_name(),
            enum_name.wf(),
            ttl <= 0x7FFFFFFF,
            forall|j: int|
                0 <= j < types@.len() ==> (#[trigger] types@[j]).wf() && types@[j]@.len() <= 65535,
            base.len() + n <= 65535,
            builder.spec_answers() == base + recs.subrange(0, i as int),
            builder.spec_answers().len() == base.len() + i,
            builder.spec_questions() == q0,
            builder.spec_nameservers() == n0,
            builder.spec_additional() == d0,
            builder.spec_max_size() == m0,
            builder.spec_header() == (Header { answers: (base.len() + i) as u16, ..h0 }),
        decreases n - i,
    {
        let rr = RRData::PTR(types[i].clone());
        builder.add_answer(&enum_name, QueryClass::IN, ttl, &rr);
        proof {
            assert(recs.subrange(0, i + 1) =~= recs.subrange(0, i as int).push(recs[i as int]));
            assert(builder.spec_answers() =~= base + recs.subrange(0, i + 1));
        }
        i += 1;
    }
    proof {
        assert(recs.subrange(0, n as int) =~= recs);
    }
}

/// Appends one PTR answer per matching service, pointing its type at
/// its instance name.
fn add_ptr_answers(builder: &mut Builder, matches: &Vec<ServiceData>, ttl: u32)
    requires
        old(builder).wf(),
        old(builder).spec_section() == Section::Answers,
        ttl <= 0x7FFFFFFF,
        forall|i: int| 0 <= i < matches@.len() ==> wf_servicedatav(#[trigger] matches@[i]@),
        old(builder).spec_answers().len() + matches@.len() <= 65535,
    ensures
        final(builder).wf(),
        final(builder).spec_section() == Section::Answers,
        final(builder).spec_answers() == old(builder).spec_answers() + ptr_answer_records(
            matches@.map_values(|d: ServiceData| d@),
            ttl,
        ),
        final(builder).spec_questions() == old(builder).spec_questions(),
        final(builder).spec_nameservers() == old(builder).spec_nameservers(),
        final(builder).spec_additional() == old(builder).spec_additional(),
        final(builder).spec_max_size() == old(builder).spec_max_size(),
        final(builder).spec_header() == (Header {
            answers: (old(builder).spec_answers().len() + matches@.len()) as u16,
            ..old(builder).spec_header()
        }),
{
    let ghost mv = matches@.map_values(|d: ServiceData| d@);
    let ghost recs = ptr_answer_records(mv, ttl);
    let ghost base = old(builder).spec_answers();
    let ghost h0 = old(builder).spec_header();
    let ghost q0 = old(builder).spec_questions();
    let ghost n0 = old(builder).spec_nameservers();
    let ghost d0 = old(builder).spec_additional();
    let ghost m0 = old(builder).spec_max_size();
    let n = matches.len();
    let mut i: usize = 0;
    proof {
        assert(base + recs.subrange(0, 0) =~= base);
        lemma_builder_header_counts(*old(builder));
        assert(h0 == Header { answers: (base.len() + 0) as u16, ..h0 });
    }
    while i < n
        invariant
            i <= n,
            n == matches@.len(),
            mv == matches@.map_values(|d: ServiceData| d@),
            recs == ptr_answer_records(mv, ttl),
            builder.wf(),
            builder.spec_section() == Section::Answers,
            ttl <= 0x7FFFFFFF,
            forall|j: int| 0 <= j < matches@.len() ==> wf_servicedatav(#[trigger] matches@[j]@),
            base.len() + n <= 65535,
            builder.spec_answers() == base + recs.subrange(0, i as int),
            builder.spec_answers().len() == base.len() + i,
            builder.spec_questions() == q0,
            builder.spec_nameservers() == n0,
            builder.spec_additional() == d0,
            builder.spec_max_size() == m0,
            builder.spec_header() == (Header { answers: (base.len() + i) as u16, ..h0 }),
        decreases n - i,
    {
        let rr = matches[i].ptr_rr();
        builder.add_answer(&matches[i].typ, QueryClass::IN, ttl, &rr);
        proof {
            assert(recs.subrange(0, i + 1) =~= recs.subrange(0, i as int).push(recs[i as int]));
            assert(builder.spec_answers() =~= base + recs.subrange(0, i + 1));
        }
        i += 1;
    }
    proof {
        assert(recs.subrange(0, n as int) =~= recs);
    }
}

/// Appends SRV and TXT additional records for each matching service.
fn add_srv_txt_additionals(builder: &mut Builder, matches: &Vec<ServiceData>, hostname: &Name, ttl: u32)
    requires
        old(builder).wf(),
        old(builder).spec_section() == Section::Additional,
        hostname.wf(),
        hostname@.len() <= 65529,
        ttl <= 0x7FFFFFFF,
        forall|i: int| 0 <= i < matches@.len() ==> wf_servicedatav(#[trigger] matches@[i]@),
        old(builder).spec_additional().len() + 2 * matches@.len() <= 65535,
    ensures
        final(builder).wf(),
        final(builder).spec_section() == Section::Additional,
        final(builder).spec_additional() == old(builder).spec_additional() + srv_txt_records(
            matches@.map_values(|d: ServiceData| d@),
            hostname@,
            ttl,
        ),
        final(builder).spec_questions() == old(builder).spec_questions(),
        final(builder).spec_answers() == old(builder).spec_answers(),
        final(builder).spec_nameservers() == old(builder).spec_nameservers(),
        final(builder).spec_max_size() == old(builder).spec_max_size(),
        final(builder).spec_header() == (Header {
            additional: (old(builder).spec_additional().len() + 2 * matches@.len()) as u16,
            ..old(builder).spec_header()
        }),
{
    let ghost mv = matches@.map_values(|d: ServiceData| d@);
    let ghost base = old(builder).spec_additional();
    let ghost h0 = old(builder).spec_header();
    let ghost q0 = old(builder).spec_questions();
    let ghost n0 = old(builder).spec_nameservers();
    let ghost a0 = old(builder).spec_answers();
    let ghost m0 = old(builder).spec_max_size();
    let n = matches.len();
    let mut i: usize = 0;
    proof {
        assert(mv.subrange(0, 0) =~= Seq::<crate::services::ServiceDataV>::empty());
        assert(base + srv_txt_records(mv.subrange(0, 0), hostname@, ttl) =~= base);
        lemma_builder_header_counts(*old(builder));
        assert(h0 == Header { additional: (base.len() + 0) as u16, ..h0 });
        lemma_srv_txt_len(mv, hostname@, ttl);
    }
    while i < n
        invariant
            i <= n,
            n == matches@.len(),
            mv == matches@.map_values(|d: ServiceData| d@),
            builder.wf(),
            builder.spec_section() == Section::Additional,
            hostname.wf(),
            hostname@.len() <= 65529,
            ttl <= 0x7FFFFFFF,
            forall|j: int| 0 <= j < matches@.len() ==> wf_servicedatav(#[trigger] matches@[j]@),
            base.len() + 2 * n <= 65535,
            builder.spec_additional() == base + srv_txt_records(
                mv.subrange(0, i as int),
                hostname@,
                ttl,
            ),
            builder.spec_additional().len() == base.len() + 2 * i,
            builder.spec_questions() == q0,
            builder.spec_nameservers() == n0,
            builder.spec_answers() == a0,
            builder.spec_max_size() == m0,
            builder.spec_header() == (Header { additional: (base.len() + 2 * i) as u16, ..h0 }),
        decreases n - i,
    {
        let ghost pre = mv.subrange(0, i as int);
        let ghost pre2 = mv.subrange(0, i + 1);
        proof {
            assert(pre2.drop_last() =~= pre);
            assert(pre2.last() == mv[i as int]);
        }
        let srv = matches[i].srv_rr(hostname);
        builder.add_additional(&matches[i].name, QueryClass::IN, ttl, &srv);
        let txt = matches[i].txt_rr();
        builder.add_additional(&matches[i].name, QueryClass::IN, ttl, &txt);
        proof {
            assert(srv_txt_records(pre2, hostname@, ttl) =~= srv_txt_records(
                pre,
                hostname@,
                ttl,
            ).push(srv_record(mv[i as int], hostname@, ttl)).push(txt_record(mv[i as int], ttl)));
            assert(builder.spec_additional() =~= base + srv_txt_records(pre2, hostname@, ttl));
        }
        i += 1;
    }
    proof {
        assert(mv.subrange(0, n as int) =~= mv);
    }
}

/// SRV and TXT come two per service.
pub proof fn lemma_srv_txt_len(ds: Seq<crate::services::ServiceDataV>, hostname: Seq<u8>, ttl: u32)
    ensures
        srv_txt_records(ds, hostname, ttl).len() == 2 * ds.len(),
    decreases ds.len(),
{
    if ds.len() > 0 {
        lemma_srv_txt_len(ds.drop_last(), hostname, ttl);
    }
}

/// Each entry contributes at most one distinct type.
pub proof fn lemma_all_types_len(s: Seq<EntryV>)
    ensures
        spec_all_types(s).len() <= s.len(),
    decreases s.len(),
{
    if s.len() > 0 {
        lemma_all_types_len(s.drop_last());
    }
}

/// A type can match at most every entry.
pub proof fn lemma_find_by_type_len(s: Seq<EntryV>, ty: Seq<u8>)
    ensures
        spec_find_by_type(s, ty).len() <= s.len(),
    decreases s.len(),
{
    if s.len() > 0 {
        lemma_find_by_type_len(s.drop_last(), ty);
    }
}


/// Appends the enumeration answers when the question asks for the
/// service-type enumeration name (RFC 6763): one PTR per distinct
/// registered service type.
pub fn handle_service_type_enumeration(
    question: &Question,
    services: &ServicesInner,
    builder: &mut Builder,
)
    requires
        services.wf(),
        old(builder).wf(),
        old(builder).spec_section() == Section::Answers,
        old(builder).spec_answers().len() + (if question@.qname == spec_enum_name() {
            enum_answers(services.spec_services(), DEFAULT_TTL).len() as int
        } else {
            0int
        }) <= 65535,
    ensures
        final(builder).wf(),
        final(builder).spec_section() == Section::Answers,
        final(builder).spec_answers() == old(builder).spec_answers() + (
        if question@.qname == spec_enum_name() {
            enum_answers(services.spec_services(), DEFAULT_TTL)
        } else {
            Seq::empty()
        }),
        final(builder).spec_questions() == old(builder).spec_questions(),
        final(builder).spec_nameservers() == old(builder).spec_nameservers(),
        final(builder).spec_additional() == old(builder).spec_additional(),
        final(builder).spec_max_size() == old(builder).spec_max_size(),
        final(builder).spec_header() == (Header {
            answers: (old(builder).spec_answers().len() + (
            if question@.qname == spec_enum_name() {
                enum_answers(services.spec_services(), DEFAULT_TTL).len() as int
            } else {
                0int
            })) as u16,
            ..old(builder).spec_header()
        }),
{
    let ghost svcs = services.spec_services();
    let enum_name = service_enum_name();
    proof {
        lemma_builder_header_counts(*old(builder));
    }
    if question.qname == enum_name {
        let types = services.all_types();
        add_enum_answers(builder, &types, DEFAULT_TTL);
        proof {
            assert(types@.map_values(
                |t: Name| RecordV {
                    name: spec_enum_name(),
                    cls: Class::IN,
                    ttl: DEFAULT_TTL,
                    data: RRDataV::PTR(t@),
                },
            ) =~= enum_answers(svcs, DEFAULT_TTL));
        }
    } else {
        proof {
            assert(old(builder).spec_answers() + Seq::<RecordV>::empty() =~= old(
                builder,
            ).spec_answers());
            assert(old(builder).spec_header() == Header {
                answers: (old(builder).spec_answers().len() + 0) as u16,
                ..old(builder).spec_header()
            });
        }
    }
}

/// The answers and additional records a question earns stay within what
/// the registry size and the address list allow.
pub proof fn lemma_expected_lens(
    q: QuestionV,
    svcs: Seq<EntryV>,
    hostname: Seq<u8>,
    ttl: u32,
    addrs: Seq<RRDataV>,
)
    ensures
        expected_answers(q, svcs, hostname, ttl, addrs).len() <= 2 * svcs.len() + addrs.len() + 2,
        expected_additional(q, svcs, hostname, ttl, addrs).len() <= 2 * svcs.len() + addrs.len(),
{
    lemma_all_types_len(svcs);
    lemma_find_by_type_len(svcs, q.qname);
    lemma_srv_txt_len(spec_find_by_type(svcs, q.qname), hostname, ttl);
}

/// Answers one question into the given response builder, as the
/// answering policy demands: the answer section grows by exactly
/// `expected_answers`, the additional section by exactly
/// `expected_additional`, and the builder ends up in the additional
/// section.
#[verifier::rlimit(100)]
pub fn handle_question(
    services: &ServicesInner,
    addrs: &Vec<RRData>,
    question: &Question,
    builder: &mut Builder,
)
    requires
        services.wf(),
        old(builder).wf(),
        section_rank(old(builder).spec_section()) <= 1,
        wf_addr_list(addrs@.map_values(|d: RRData| d@)),
        old(builder).spec_answers().len() + expected_answers(
            question@,
            services.spec_services(),
            services.spec_hostname(),
            DEFAULT_TTL,
            addrs@.map_values(|d: RRData| d@),
        ).len() <= 65535,
        old(builder).spec_additional().len() + expected_additional(
            question@,
            services.spec_services(),
            services.spec_hostname(),
            DEFAULT_TTL,
            addrs@.map_values(|d: RRData| d@),
        ).len() <= 65535,
    ensures
        final(builder).wf(),
        final(builder).spec_section() == Section::Additional,
        final(builder).spec_answers() == old(builder).spec_answers() + expected_answers(
            question@,
            services.spec_services(),
            services.spec_hostname(),
            DEFAULT_TTL,
            addrs@.map_values(|d: RRData| d@),
        ),
        final(builder).spec_additional() == old(builder).spec_additional() + expected_additional(
            question@,
            services.spec_services(),
            services.spec_hostname(),
            DEFAULT_TTL,
            addrs@.map_values(|d: RRData| d@),
        ),
        final(builder).spec_questions() == old(builder).spec_questions(),
        final(builder).spec_nameservers() == old(builder).spec_nameservers(),
        final(builder).spec_max_size() == old(builder).spec_max_size(),
        final(builder).spec_header() == (Header {
            answers: (old(builder).spec_answers().len() + expected_answers(
                question@,
                services.spec_services(),
                services.spec_hostname(),
                DEFAULT_TTL,
                addrs@.map_values(|d: RRData| d@),
            ).len()) as u16,
            additional: (old(builder).spec_additional().len() + expected_additional(
                question@,
                services.spec_services(),
                services.spec_hostname(),
                DEFAULT_TTL,
                addrs@.map_values(|d: RRData| d@),
            ).len()) as u16,
            ..old(builder).spec_header()
        }),
{
    let ghost svcs = services.spec_services();
    let ghost hn = services.spec_hostname();
    let ghost av = addrs@.map_values(|d: RRData| d@);
    let ghost q = question@;
    let ghost base_a = old(builder).spec_answers();
    let ghost base_d = old(builder).spec_additional();
    let ghost h0 = old(builder).spec_header();
    builder.move_to(Section::Answers);
    proof {
        lemma_builder_header_counts(*old(builder));
    }
    let hostname = services.get_hostname();
    match question.qtype {
        QueryType::A | QueryType::AAAA => {
            if question.qname == *hostname {
                add_ip_answers(builder, hostname, DEFAULT_TTL, addrs);
            } else {
                proof {
                    assert(base_a + Seq::<RecordV>::empty() =~= base_a);
                }
            }
            builder.move_to(Section::Additional);
            proof {
                assert(base_d + Seq::<RecordV>::empty() =~= base_d);
                assert(h0 == Header {
                    answers: h0.answers,
                    additional: h0.additional,
                    ..h0
                });
            }
        },
        QueryType::All => {
            let ghost e_addr: Seq<RecordV> = if q.qname == hn {
                addr_records(hn, DEFAULT_TTL, av)
            } else {
                Seq::empty()
            };
            let ghost e_enum: Seq<RecordV> = if q.qname == spec_enum_name() {
                enum_answers(svcs, DEFAULT_TTL)
            } else {
                Seq::empty()
            };
            let ghost e_ptr = ptr_answer_records(spec_find_by_type(svcs, q.qname), DEFAULT_TTL);
            let ghost e_st: Seq<RecordV> = match spec_find_by_name(svcs, q.qname) {
                Some(d) => seq![
                    srv_record(d, hn, DEFAULT_TTL),
                    txt_record(d, DEFAULT_TTL),
                ],
                None => Seq::empty(),
            };
            proof {
                assert(expected_answers(q, svcs, hn, DEFAULT_TTL, av) == e_addr + e_enum + e_ptr
                    + e_st);
            }
            if question.qname == *hostname {
                add_ip_answers(builder, hostname, DEFAULT_TTL, addrs);
            } else {
                proof {
                    assert(base_a + e_addr =~= base_a);
                }
            }
            handle_service_type_enumeration(question, services, builder);
            let matches = services.find_by_type(&question.qname);
            add_ptr_answers(builder, &matches, DEFAULT_TTL);
            let found = services.find_by_name(&question.qname);
            match &found {
                Some(svc) => {
                    let srv = svc.srv_rr(hostname);
                    builder.add_answer(&svc.name, QueryClass::IN, DEFAULT_TTL, &srv);
                    let txt = svc.txt_rr();
                    builder.add_answer(&svc.name, QueryClass::IN, DEFAULT_TTL, &txt);
                },
                None => {},
            }
            proof {
                assert(builder.spec_answers() =~= base_a + (e_addr + e_enum + e_ptr + e_st));
                lemma_srv_txt_len(matches@.map_values(|d: ServiceData| d@), hn, DEFAULT_TTL);
            }
            builder.move_to(Section::Additional);
            add_srv_txt_additionals(builder, &matches, hostname, DEFAULT_TTL);
            if matches.len() > 0 || found.is_some() {
                add_ip_additionals(builder, hostname, DEFAULT_TTL, addrs);
            } else {
                proof {
                    assert(builder.spec_additional() + Seq::<RecordV>::empty() =~= builder
                        .spec_additional());
                }
            }
            proof {
                assert(builder.spec_additional() =~= base_d + expected_additional(
                    q,
                    svcs,
                    hn,
                    DEFAULT_TTL,
                    av,
                ));
            }
        },
        QueryType::PTR => {
            let ghost e_enum: Seq<RecordV> = if q.qname == spec_enum_name() {
                enum_answers(svcs, DEFAULT_TTL)
            } else {
                Seq::empty()
            };
            let ghost e_ptr = ptr_answer_records(spec_find_by_type(svcs, q.qname), DEFAULT_TTL);
            proof {
                assert(expected_answers(q, svcs, hn, DEFAULT_TTL, av) == e_enum + e_ptr);
            }
            handle_service_type_enumeration(question, services, builder);
            let matches = services.find_by_type(&question.qname);
            add_ptr_answers(builder, &matches, DEFAULT_TTL);
            proof {
                assert(builder.spec_answers() =~= base_a + (e_enum + e_ptr));
                lemma_srv_txt_len(matches@.map_values(|d: ServiceData| d@), hn, DEFAULT_TTL);
            }
            builder.move_to(Section::Additional);
            add_srv_txt_additionals(builder, &matches, hostname, DEFAULT_TTL);
            if matches.len() > 0 {
                add_ip_additionals(builder, hostname, DEFAULT_TTL, addrs);
            } else {
                proof {
                    assert(builder.spec_additional() + Seq::<RecordV>::empty() =~= builder
                        .spec_additional());
                }
            }
            proof {
                assert(builder.spec_additional() =~= base_d + expected_additional(
                    q,
                    svcs,
                    hn,
                    DEFAULT_TTL,
                    av,
                ));
            }
        },
        QueryType::SRV => {
            let found = services.find_by_name(&question.qname);
            match &found {
                Some(svc) => {
                    let srv = svc.srv_rr(hostname);
                    builder.add_answer(&svc.name, QueryClass::IN, DEFAULT_TTL, &srv);
                    proof {
                        assert(builder.spec_answers() =~= base_a + expected_answers(
                            q,
                            svcs,
                            hn,
                            DEFAULT_TTL,
                            av,
                        ));
                    }
                    builder.move_to(Section::Additional);
                    add_ip_additionals(builder, hostname, DEFAULT_TTL, addrs);
                },
                None => {
                    proof {
                        assert(base_a + Seq::<RecordV>::empty() =~= base_a);
                        assert(base_d + Seq::<RecordV>::empty() =~= base_d);
                    }
                    builder.move_to(Section::Additional);
                },
            }
        },
        QueryType::TXT => {
            let found = services.find_by_name(&question.qname);
            match &found {
                Some(svc) => {
                    let txt = svc.txt_rr();
                    builder.add_answer(&svc.name, QueryClass::IN, DEFAULT_TTL, &txt);
                    proof {
                        assert(builder.spec_answers() =~= base_a + expected_answers(
                            q,
                            svcs,
                            hn,
                            DEFAULT_TTL,
                            av,
                        ));
                    }
                },
                None => {
                    proof {
                        assert(base_a + Seq::<RecordV>::empty() =~= base_a);
                    }
                },
            }
            proof {
                assert(base_d + Seq::<RecordV>::empty() =~= base_d);
            }
            builder.move_to(Section::Additional);
        },
        _ => {
            proof {
                assert(base_a + Seq::<RecordV>::empty() =~= base_a);
                assert(base_d + Seq::<RecordV>::empty() =~= base_d);
            }
            builder.move_to(Section::Additional);
        },
    }
}


/// The PTR record announcing an instance under its service type.
pub open spec fn ptr_announce_record(d: crate::services::ServiceDataV, ttl: u32) -> RecordV {
    RecordV { name: d.typ, cls: Class::IN, ttl, data: RRDataV::PTR(d.name) }
}

/// The answer section of an unsolicited announcement: PTR, SRV and TXT
/// for the service, plus the host's address records when asked for.
pub open spec fn announce_records(
    d: crate::services::ServiceDataV,
    hostname: Seq<u8>,
    ttl: u32,
    addrs_included: Seq<RRDataV>,
) -> Seq<RecordV> {
    seq![
        ptr_announce_record(d, ttl),
        srv_record(d, hostname, ttl),
        txt_record(d, ttl),
    ] + addr_records(hostname, ttl, addrs_included)
}

/// The header of a response this engine sends: authoritative, standard
/// query opcode, no recursion, the given transaction id and counts.
pub open spec fn spec_response_header(id: u16, na: int, nd: int) -> Header {
    Header {
        id,
        query: false,
        opcode: crate::enums::Opcode::StandardQuery,
        authoritative: true,
        truncated: false,
        recursion_desired: false,
        recursion_available: false,
        response_code: crate::enums::ResponseCode::NoError,
        questions: 0,
        answers: na as u16,
        nameservers: 0,
        additional: nd as u16,
    }
}

/// Builds the unsolicited announcement (or, with TTL zero, the goodbye)
/// for one service: a response-shaped datagram with transaction id zero
/// whose answers are exactly `announce_records`.
pub fn build_unsolicited(
    services: &ServicesInner,
    svc: &ServiceData,
    ttl: u32,
    include_ip: bool,
    addrs: &Vec<RRData>,
) -> (r: Vec<u8>)
    requires
        services.wf(),
        svc.wf(),
        ttl <= 0x7FFFFFFF,
        wf_addr_list(addrs@.map_values(|d: RRData| d@)),
        3 + addrs@.len() <= 65535,
    ensures
        ({
            let recs = announce_records(
                svc@,
                services.spec_hostname(),
                ttl,
                if include_ip {
                    addrs@.map_values(|d: RRData| d@)
                } else {
                    Seq::empty()
                },
            );
            &&& r@ == crate::builder::enc_packet(
                spec_response_header(0, recs.len() as int, 0),
                Seq::empty(),
                recs,
                Seq::empty(),
                Seq::empty(),
            )
            &&& spec_parse_packet(r@) == Ok::<crate::structs::PacketV, crate::error::Error>(
                crate::structs::PacketV {
                    header: spec_response_header(0, recs.len() as int, 0),
                    questions: Seq::empty(),
                    answers: recs,
                    nameservers: Seq::empty(),
                    additional: Seq::empty(),
                },
            )
        }),
{
    let ghost hn = services.spec_hostname();
    let ghost av = addrs@.map_values(|d: RRData| d@);
    let ghost avi: Seq<RRDataV> = if include_ip {
        av
    } else {
        Seq::empty()
    };
    let hostname = services.get_hostname();
    let mut builder = Builder::new_response(0, false, true);
    builder.set_max_size(None);
    builder.move_to(Section::Answers);
    let ptr = svc.ptr_rr();
    builder.add_answer(&svc.typ, QueryClass::IN, ttl, &ptr);
    let srv = svc.srv_rr(hostname);
    builder.add_answer(&svc.name, QueryClass::IN, ttl, &srv);
    let txt = svc.txt_rr();
    builder.add_answer(&svc.name, QueryClass::IN, ttl, &txt);
    if include_ip {
        add_ip_answers(&mut builder, hostname, ttl, addrs);
    }
    proof {
        if !include_ip {
            assert(addr_records(hn, ttl, avi) =~= Seq::<RecordV>::empty());
        }
        assert(builder.spec_answers() =~= announce_records(svc@, hn, ttl, avi));
        assert(builder.spec_questions() =~= Seq::<QuestionV>::empty());
        assert(builder.spec_nameservers() =~= Seq::<RecordV>::empty());
        assert(builder.spec_additional() =~= Seq::<RecordV>::empty());
        lemma_builder_header_counts(builder);
        assert(builder.spec_header() == spec_response_header(
            0,
            announce_records(svc@, hn, ttl, avi).len() as int,
            0,
        ));
    }
    match builder.build() {
        Ok(v) => v,
        Err(v) => v,
    }
}

/// What one question contributes to the outbound queue: nothing unless
/// its class is IN or the wildcard, nothing when both earned sections
/// are empty, and otherwise a finished response datagram addressed by
/// the question's unicast-request bit.
pub open spec fn spec_response(
    id: u16,
    q: QuestionV,
    svcs: Seq<EntryV>,
    hostname: Seq<u8>,
    addrs: Seq<RRDataV>,
) -> Option<(Seq<u8>, Destination)> {
    if q.qclass != QueryClass::IN && q.qclass != QueryClass::Any {
        None
    } else {
        let ans = expected_answers(q, svcs, hostname, DEFAULT_TTL, addrs);
        let adds = expected_additional(q, svcs, hostname, DEFAULT_TTL, addrs);
        if ans.len() == 0 && adds.len() == 0 {
            None
        } else {
            Some(
                (
                    crate::builder::enc_packet(
                        spec_response_header(id, ans.len() as int, adds.len() as int),
                        Seq::empty(),
                        ans,
                        Seq::empty(),
                        adds,
                    ),
                    if q.qu {
                        Destination::Unicast
                    } else {
                        Destination::Multicast
                    },
                ),
            )
        }
    }
}

/// The outbound queue a run of questions earns, in order.
pub open spec fn spec_responses(
    id: u16,
    qs: Seq<QuestionV>,
    svcs: Seq<EntryV>,
    hostname: Seq<u8>,
    addrs: Seq<RRDataV>,
) -> Seq<(Seq<u8>, Destination)>
    decreases qs.len(),
{
    if qs.len() == 0 {
        Seq::empty()
    } else {
        spec_responses(id, qs.drop_last(), svcs, hostname, addrs) + (
        match spec_response(id, qs.last(), svcs, hostname, addrs) {
            Some(x) => seq![x],
            None => Seq::empty(),
        })
    }
}

/// What an inbound datagram produces: nothing if it does not parse, is
/// not a query, or arrived truncated; otherwise one response per
/// question that earns one.
pub open spec fn spec_handle_packet(
    data: Seq<u8>,
    svcs: Seq<EntryV>,
    hostname: Seq<u8>,
    addrs: Seq<RRDataV>,
) -> Seq<(Seq<u8>, Destination)> {
    match spec_parse_packet(data) {
        Err(_) => Seq::empty(),
        Ok(p) => if !p.header.query || p.header.truncated {
            Seq::empty()
        } else {
            spec_responses(p.header.id, p.questions, svcs, hostname, addrs)
        },
    }
}

/// Turns one inbound datagram into the responses to send, as
/// `spec_handle_packet` describes. Malformed input earns nothing and
/// harms nothing.
#[verifier::rlimit(100)]
pub fn handle_packet(services: &ServicesInner, addrs: &Vec<RRData>, data: &[u8]) -> (out: Vec<
    (Vec<u8>, Destination),
>)
    requires
        services.wf(),
        wf_addr_list(addrs@.map_values(|d: RRData| d@)),
        2 * services.spec_services().len() + addrs@.len() + 2 <= 65535,
    ensures
        out@.map_values(|p: (Vec<u8>, Destination)| (p.0@, p.1)) == spec_handle_packet(
            data@,
            services.spec_services(),
            services.spec_hostname(),
            addrs@.map_values(|d: RRData| d@),
        ),
{
    let ghost svcs = services.spec_services();
    let ghost hn = services.spec_hostname();
    let ghost av = addrs@.map_values(|d: RRData| d@);
    let mut out: Vec<(Vec<u8>, Destination)> = Vec::new();
    let packet = match Packet::parse(data) {
        Ok(p) => p,
        Err(_) => {
            proof {
                assert(out@.map_values(|p: (Vec<u8>, Destination)| (p.0@, p.1)) =~= Seq::<
                    (Seq<u8>, Destination),
                >::empty());
            }
            return out;
        },
    };
    if !packet.header.query || packet.header.truncated {
        proof {
            assert(out@.map_values(|p: (Vec<u8>, Destination)| (p.0@, p.1)) =~= Seq::<
                (Seq<u8>, Destination),
            >::empty());
        }
        return out;
    }
    let ghost qsv = packet@.questions;
    let id = packet.header.id;
    let nq = packet.questions.len();
    let mut i: usize = 0;
    proof {
        assert(qsv.subrange(0, 0) =~= Seq::<QuestionV>::empty());
        assert(out@.map_values(|p: (Vec<u8>, Destination)| (p.0@, p.1)) =~= spec_responses(
            id,
            qsv.subrange(0, 0),
            svcs,
            hn,
            av,
        ));
    }
    while i < nq
        invariant
            i <= nq,
            nq == packet.questions@.len(),
            qsv == packet@.questions,
            services.wf(),
            svcs == services.spec_services(),
            hn == services.spec_hostname(),
            av == addrs@.map_values(|d: RRData| d@),
            wf_addr_list(av),
            2 * svcs.len() + av.len() + 2 <= 65535,
            out@.map_values(|p: (Vec<u8>, Destination)| (p.0@, p.1)) == spec_responses(
                id,
                qsv.subrange(0, i as int),
                svcs,
                hn,
                av,
            ),
        decreases nq - i,
    {
        let ghost pre = qsv.subrange(0, i as int);
        let ghost pre2 = qsv.subrange(0, i + 1);
        proof {
            assert(pre2.drop_last() =~= pre);
            assert(pre2.last() == qsv[i as int]);
            assert(qsv[i as int] == packet.questions@[i as int]@);
        }
        let ghost out_pre = out@;
        let question = &packet.questions[i];
        if question.qclass == QueryClass::IN || question.qclass == QueryClass::Any {
            let ghost ans = expected_answers(question@, svcs, hn, DEFAULT_TTL, av);
            let ghost adds = expected_additional(question@, svcs, hn, DEFAULT_TTL, av);
            let mut b = Builder::new_response(id, false, true);
            b.set_max_size(None);
            proof {
                lemma_expected_lens(question@, svcs, hn, DEFAULT_TTL, av);
            }
            handle_question(services, addrs, question, &mut b);
            if !b.is_empty() {
                proof {
                    assert(b.spec_answers() =~= ans);
                    assert(b.spec_additional() =~= adds);
                    lemma_builder_header_counts(b);
                    assert(b.spec_header() == spec_response_header(
                        id,
                        ans.len() as int,
                        adds.len() as int,
                    ));
                    assert(b.spec_questions() =~= Seq::<QuestionV>::empty());
                    assert(b.spec_nameservers() =~= Seq::<RecordV>::empty());
                }
                let v = match b.build() {
                    Ok(v) => v,
                    Err(v) => v,
                };
                let dest = if question.qu {
                    Destination::Unicast
                } else {
                    Destination::Multicast
                };
                out.push((v, dest));
                proof {
                    assert(spec_response(id, qsv[i as int], svcs, hn, av) == Some(
                        (v@, dest),
                    ));
                    assert(out@.map_values(|p: (Vec<u8>, Destination)| (p.0@, p.1))
                        =~= out_pre.map_values(|p: (Vec<u8>, Destination)| (p.0@, p.1)).push(
                        (v@, dest),
                    ));
                    assert(out@.map_values(|p: (Vec<u8>, Destination)| (p.0@, p.1))
                        =~= spec_responses(id, pre2, svcs, hn, av));
                }
            } else {
                proof {
                    assert(ans.len() == 0 && adds.len() == 0);
                    assert(spec_response(id, qsv[i as int], svcs, hn, av) is None);
                    assert(out@.map_values(|p: (Vec<u8>, Destination)| (p.0@, p.1))
                        =~= spec_responses(id, pre2, svcs, hn, av));
                }
            }
        } else {
            proof {
                assert(spec_response(id, qsv[i as int], svcs, hn, av) is None);
                assert(out@.map_values(|p: (Vec<u8>, Destination)| (p.0@, p.1))
                    =~= spec_responses(id, pre2, svcs, hn, av));
            }
        }
        i += 1;
    }
    proof {
        assert(qsv.subrange(0, nq as int) =~= qsv);
    }
    out
}

} // verus!
