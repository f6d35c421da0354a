//! The registry of locally advertised services: an insertion-ordered
//! store keyed by random 64-bit identifiers, with lookup by instance
//! name and by service type.

use vstd::prelude::*;
use vstd::assert_by_contradiction;
use vstd::seq_lib::*;
use vstd::set_lib::{lemma_int_range, lemma_len_subset, set_int_range};
use vstd::slice::slice_to_vec;
use vstd::string::StringSliceAdditionalSpecFns;

use crate::error::Error;
use crate::name::{spec_parse_text, wf_name, Name};
use crate::rrdata::{RRData, RRDataV};

verus! {

/// One advertised service instance: its fully qualified instance name,
/// its service type name, the port it listens on, and its pre-encoded
/// TXT payload (length-prefixed segments).
#[derive(Debug)]
pub struct ServiceData {
    pub name: Name,
    pub typ: Name,
    pub port: u16,
    pub txt: Vec<u8>,
}

/// The mathematical shape of a service instance.
pub struct ServiceDataV {
    pub name: Seq<u8>,
    pub typ: Seq<u8>,
    pub port: u16,
    pub txt: Seq<u8>,
}

impl View for ServiceData {
    type V = ServiceDataV;

    open spec fn view(&self) -> ServiceDataV {
        ServiceDataV { name: self.name@, typ: self.typ@, port: self.port, txt: self.txt@ }
    }
}

/// Well-formed service: its names are well-formed and every payload it
/// will be turned into fits a record's 16-bit RDATA length field.
pub open spec fn wf_servicedatav(d: ServiceDataV) -> bool {
    &&& wf_name(d.name)
    &&& wf_name(d.typ)
    &&& d.name.len() <= 65535
    &&& d.typ.len() <= 65535
    &&& d.txt.len() <= 65535
}

impl Clone for ServiceData {
    /// A clone carries the same names, port and TXT payload.
    fn clone(&self) -> (r: ServiceData)
        ensures
            r@ == self@,
    {
        ServiceData {
            name: self.name.clone(),
            typ: self.typ.clone(),
            port: self.port,
            txt: slice_to_vec(self.txt.as_slice()),
        }
    }
}

impl ServiceData {
    /// Well-formed: see `wf_servicedatav`.
    pub open spec fn wf(&self) -> bool {
        wf_servicedatav(self@)
    }

    /// The PTR payload announcing this instance under its service type.
    pub fn ptr_rr(&self) -> (r: RRData)
        ensures
            r@ == RRDataV::PTR(self@.name),
    {
        RRData::PTR(self.name.clone())
    }

    /// The SRV payload directing this instance's traffic to the host.
    pub fn srv_rr(&self, hostname: &Name) -> (r: RRData)
        ensures
            r@ == (RRDataV::SRV {
                priority: 0,
                weight: 0,
                port: self@.port,
                target: hostname@,
            }),
    {
        RRData::SRV { priority: 0, weight: 0, port: self.port, target: hostname.clone() }
    }

    /// The TXT payload carrying this instance's attributes.
    pub fn txt_rr(&self) -> (r: RRData)
        ensures
            r@ == RRDataV::TXT(self@.txt),
    {
        RRData::TXT(slice_to_vec(self.txt.as_slice()))
    }
}

/// One registry entry: a service under its identifier.
struct ServiceEntry {
    id: u64,
    data: ServiceData,
}

/// The mathematical shape of a registry entry.
pub struct EntryV {
    pub id: u64,
    pub data: ServiceDataV,
}

impl View for ServiceEntry {
    type V = EntryV;

    closed spec fn view(&self) -> EntryV {
        EntryV { id: self.id, data: self.data@ }
    }
}

/// True when some entry carries the identifier.
pub open spec fn has_id(s: Seq<EntryV>, id: u64) -> bool {
    exists|i: int| 0 <= i < s.len() && (#[trigger] s[i]).id == id
}

/// The first service registered under an instance name, if any.
pub open spec fn spec_find_by_name(s: Seq<EntryV>, nm: Seq<u8>) -> Option<ServiceDataV>
    decreases s.len(),
{
    if s.len() == 0 {
        None
    } else if s[0].data.name == nm {
        Some(s[0].data)
    } else {
        spec_find_by_name(s.subrange(1, s.len() as int), nm)
    }
}

/// The services of a given type, in insertion order.
pub open spec fn spec_find_by_type(s: Seq<EntryV>, ty: Seq<u8>) -> Seq<ServiceDataV>
    decreases s.len(),
{
    if s.len() == 0 {
        Seq::empty()
    } else {
        let rest = spec_find_by_type(s.drop_last(), ty);
        if s.last().data.typ == ty {
            rest.push(s.last().data)
        } else {
            rest
        }
    }
}

/// The distinct service-type names, in order of first registration.
pub open spec fn spec_all_types(s: Seq<EntryV>) -> Seq<Seq<u8>>
    decreases s.len(),
{
    if s.len() == 0 {
        Seq::empty()
    } else {
        let rest = spec_all_types(s.drop_last());
        if rest.contains(s.last().data.typ) {
            rest
        } else {
            rest.push(s.last().data.typ)
        }
    }
}

/// Relies on rand::random: draws a fresh 64-bit identifier; nothing is
/// promised of which value comes back.
#[verifier::external_body]
fn random_id() -> u64 {
    rand::random::<u64>()
}

/// The registry: the host's name plus the advertised services in
/// insertion order, each under a unique identifier.
pub struct ServicesInner {
    hostname: Name,
    services: Vec<ServiceEntry>,
}

impl ServicesInner {
    /// The host name all SRV records point at.
    pub closed spec fn spec_hostname(self) -> Seq<u8> {
        self.hostname@
    }

    /// The registered services, in insertion order.
    pub closed spec fn spec_services(self) -> Seq<EntryV> {
        self.services@.map_values(|e: ServiceEntry| e@)
    }

    /// The registry's invariant: a well-formed bounded host name,
    /// well-formed services, and pairwise distinct identifiers.
    pub closed spec fn wf(self) -> bool {
        &&& wf_name(self.hostname@)
        &&& self.hostname@.len() <= 65529
        &&& (forall|i: int|
            0 <= i < self.spec_services().len() ==> wf_servicedatav(
                (#[trigger] self.spec_services()[i]).data,
            ))
        &&& (forall|i: int, j: int|
            0 <= i < j < self.spec_services().len() ==> (#[trigger] self.spec_services()[i]).id != (
            #[trigger] self.spec_services()[j]).id)
    }

    /// Builds an empty registry for a host name given in text form.
    /// It succeeds exactly when the text encodes as a name (dot-free
    /// ASCII labels of 1 to 63 bytes) that also leaves room for the
    /// fixed part of an SRV payload; the stored host name is that
    /// encoding, and no service is registered yet.
    pub fn new(hostname: &str) -> (r: Result<ServicesInner, Error>)
        ensures
            match r {
                Ok(s) => {
                    &&& spec_parse_text(hostname.spec_bytes()) == Ok::<Seq<u8>, Error>(
                        s.spec_hostname(),
                    )
                    &&& s.spec_hostname().len() <= 65529
                    &&& s.wf()
                    &&& s.spec_services() == Seq::<EntryV>::empty()
                },
                Err(e) => match spec_parse_text(hostname.spec_bytes()) {
                    Err(e1) => e == e1,
                    Ok(nb) => nb.len() > 65529 && e == Error::UnknownLabelFormat,
                },
            },
    {
        let name = match Name::from_str(hostname) {
            Ok(n) => n,
            Err(e) => {
                return Err(e);
            },
        };
        if name.encoded_len() > 65529 {
            return Err(Error::UnknownLabelFormat);
        }
        let r = ServicesInner { hostname: name, services: Vec::new() };
        proof {
            assert(r.spec_services() =~= Seq::<EntryV>::empty());
        }
        Ok(r)
    }

    /// The host name all SRV records point at.
    pub fn get_hostname(&self) -> (r: &Name)
        requires
            self.wf(),
        ensures
            r@ == self.spec_hostname(),
            r.wf(),
            r@.len() <= 65529,
    {
        &self.hostname
    }

    /// How many services are currently registered.
    pub fn service_count(&self) -> (n: usize)
        ensures
            n == self.spec_services().len(),
    {
        self.services.len()
    }

    /// True when some entry carries the identifier.
    fn contains_id(&self, id: u64) -> (r: bool)
        ensures
            r == has_id(self.spec_services(), id),
    {
        let n = self.services.len();
        let mut i: usize = 0;
        while i < n
            invariant
                i <= n,
                n == self.services@.len(),
                forall|j: int| 0 <= j < i ==> (#[trigger] self.spec_services()[j]).id != id,
            decreases n - i,
        {
            if self.services[i].id == id {
                proof {
                    assert(self.spec_services()[i as int].id == id);
                }
                return true;
            }
            i += 1;
        }
        false
    }

    /// An identifier no current entry carries: among the candidates
    /// `0 ..= len` at least one must be free.
    fn fresh_id_scan(&self) -> (id: u64)
        requires
            self.wf(),
        ensures
            !has_id(self.spec_services(), id),
    {
        let n = self.services.len();
        let bound = n as u64;
        let mut c: u64 = 0;
        while c < bound
            invariant
                c <= bound,
                bound == self.services@.len(),
                forall|x: u64| x < c ==> has_id(self.spec_services(), x),
            decreases bound - c,
        {
            if !self.contains_id(c) {
                return c;
            }
            c += 1;
        }
        if !self.contains_id(bound) {
            return bound;
        }
        proof {
            assert(self.spec_services().len() == n);
            lemma_fresh_id_exists(self.spec_services());
        }
        0
    }

    /// Adds a service under a fresh random identifier and returns it.
    pub fn register(&mut self, svc: ServiceData) -> (id: u64)
        requires
            old(self).wf(),
            old(self).spec_services().len() < 65535,
            wf_servicedatav(svc@),
        ensures
            final(self).wf(),
            final(self).spec_hostname() == old(self).spec_hostname(),
            final(self).spec_services() == old(self).spec_services().push(
                EntryV { id, data: svc@ },
            ),
            !has_id(old(self).spec_services(), id),
    {
        let mut id = random_id();
        let mut tries: u32 = 0;
        while tries < 64 && self.contains_id(id)
            invariant
                self == old(self),
            decreases 64 - tries,
        {
            id = random_id();
            tries += 1;
        }
        if self.contains_id(id) {
            id = self.fresh_id_scan();
        }
        let ghost s0 = self.spec_services();
        self.services.push(ServiceEntry { id, data: svc });
        proof {
            assert(self.spec_services() =~= s0.push(
                EntryV { id, data: svc@ },
            ));
            assert forall|i: int, j: int|
                0 <= i < j < self.spec_services().len() implies (
            #[trigger] self.spec_services()[i]).id != (#[trigger] self.spec_services()[j]).id by {
                if j == s0.len() as int {
                    assert(!has_id(s0, id));
                    assert(s0[i].id != id);
                }
            }
        }
        id
    }

    /// Removes the service registered under `id` and hands it back, so
    /// the caller can announce its withdrawal. The identifier must be a
    /// registered one: unregistering twice is a caller error.
    pub fn unregister(&mut self, id: u64) -> (r: ServiceData)
        requires
            old(self).wf(),
            has_id(old(self).spec_services(), id),
        ensures
            final(self).wf(),
            final(self).spec_hostname() == old(self).spec_hostname(),
            ({
                let s0 = old(self).spec_services();
                let i = choose|i: int| 0 <= i < s0.len() && (#[trigger] s0[i]).id == id;
                &&& final(self).spec_services() == s0.remove(i)
                &&& r@ == s0[i].data
            }),
    {
        let ghost s0 = self.spec_services();
        let n = self.services.len();
        let mut i: usize = 0;
        while i < n
            invariant
                i <= n,
                self == old(self),
                self.wf(),
                s0 == self.spec_services(),
                has_id(s0, id),
                n == self.services@.len(),
                forall|j: int| 0 <= j < i ==> (#[trigger] self.spec_services()[j]).id != id,
            decreases n - i,
        {
            if self.services[i].id == id {
                let ghost w = choose|w: int| 0 <= w < s0.len() && (#[trigger] s0[w]).id == id;
                proof {
                    assert(s0[i as int].id == id);
                    if w < i as int {
                        assert(s0[w].id != s0[i as int].id);
                    }
                    if w > i as int {
                        assert(s0[i as int].id != s0[w].id);
                    }
                    assert(w == i as int);
                }
                let entry = self.services.remove(i);
                proof {
                    assert(self.spec_services() =~= s0.remove(i as int));
                    assert forall|a: int, b: int|
                        0 <= a < b < self.spec_services().len() implies (
                    #[trigger] self.spec_services()[a]).id != (
                    #[trigger] self.spec_services()[b]).id by {
                        let sa = if a < i as int {
                            a
                        } else {
                            a + 1
                        };
                        let sb = if b < i as int {
                            b
                        } else {
                            b + 1
                        };
                        assert(self.spec_services()[a] == s0[sa]);
                        assert(self.spec_services()[b] == s0[sb]);
                    }
                }
                return entry.data;
            }
            i += 1;
        }
        proof {
            assert(false);
        }
        let entry = self.services.remove(0);
        entry.data
    }

    /// The first service registered under an instance name, if any.
    /// When two live services share an instance name (which the
    /// registry model does not foresee, but does not forbid), the
    /// earliest registrant answers.
    pub fn find_by_name(&self, name: &Name) -> (r: Option<ServiceData>)
        requires
            self.wf(),
        ensures
            match r {
                Some(d) => spec_find_by_name(self.spec_services(), name@) == Some(d@)
                    && wf_servicedatav(d@),
                None => spec_find_by_name(self.spec_services(), name@) is None,
            },
    {
        let ghost s = self.spec_services();
        let n = self.services.len();
        let mut i: usize = 0;
        proof {
            assert(s.subrange(0, s.len() as int) =~= s);
        }
        while i < n
            invariant
                i <= n,
                self.wf(),
                s == self.spec_services(),
                n == self.services@.len(),
                spec_find_by_name(s, name@) == spec_find_by_name(
                    s.subrange(i as int, s.len() as int),
                    name@,
                ),
            decreases n - i,
        {
            let ghost suf = s.subrange(i as int, s.len() as int);
            if self.services[i].data.name == *name {
                proof {
                    assert(suf[0] == s[i as int]);
                    assert(suf[0].data.name == name@);
                }
                return Some(self.services[i].data.clone());
            }
            proof {
                assert(suf[0] == s[i as int]);
                assert(suf[0].data.name != name@);
                assert(suf.subrange(1, suf.len() as int) =~= s.subrange(
                    i + 1,
                    s.len() as int,
                ));
            }
            i += 1;
        }
        proof {
            assert(s.subrange(n as int, s.len() as int) =~= Seq::<EntryV>::empty());
        }
        None
    }

    /// The services of a given type, cloned out in insertion order.
    pub fn find_by_type(&self, ty: &Name) -> (r: Vec<ServiceData>)
        requires
            self.wf(),
        ensures
            r@.map_values(|d: ServiceData| d@) == spec_find_by_type(self.spec_services(), ty@),
            forall|i: int| 0 <= i < r@.len() ==> wf_servicedatav(#[trigger] r@[i]@),
    {
        let ghost s = self.spec_services();
        let n = self.services.len();
        let mut out: Vec<ServiceData> = Vec::new();
        let mut i: usize = 0;
        proof {
            assert(s.subrange(0, 0) =~= Seq::<EntryV>::empty());
            assert(out@.map_values(|d: ServiceData| d@) =~= spec_find_by_type(
                s.subrange(0, 0),
                ty@,
            ));
        }
        while i < n
            invariant
                i <= n,
                self.wf(),
                s == self.spec_services(),
                n == self.services@.len(),
                out@.map_values(|d: ServiceData| d@) == spec_find_by_type(
                    s.subrange(0, i as int),
                    ty@,
                ),
                forall|j: int| 0 <= j < out@.len() ==> wf_servicedatav(#[trigger] out@[j]@),
            decreases n - i,
        {
            let ghost pre = s.subrange(0, i as int);
            let ghost pre2 = s.subrange(0, i + 1);
            proof {
                assert(pre2.drop_last() =~= pre);
                assert(pre2.last() == s[i as int]);
            }
            let ghost out_pre = out@;
            if self.services[i].data.typ == *ty {
                out.push(self.services[i].data.clone());
                proof {
                    assert(out@.map_values(|d: ServiceData| d@) =~= out_pre.map_values(
                        |d: ServiceData| d@,
                    ).push(out@[out_pre.len() as int]@));
                }
            }
            i += 1;
        }
        proof {
            assert(s.subrange(0, n as int) =~= s);
        }
        out
    }

    /// The distinct registered service-type names, in order of first
    /// registration.
    pub fn all_types(&self) -> (r: Vec<Name>)
        requires
            self.wf(),
        ensures
            r@.map_values(|n: Name| n@) == spec_all_types(self.spec_services()),
            forall|i: int| 0 <= i < r@.len() ==> (#[trigger] r@[i]).wf() && r@[i]@.len() <= 65535,
    {
        let ghost s = self.spec_services();
        let n = self.services.len();
        let mut out: Vec<Name> = Vec::new();
        let mut i: usize = 0;
        proof {
            assert(s.subrange(0, 0) =~= Seq::<EntryV>::empty());
            assert(out@.map_values(|n: Name| n@) =~= spec_all_types(s.subrange(0, 0)));
        }
        while i < n
            invariant
                i <= n,
                self.wf(),
                s == self.spec_services(),
                n == self.services@.len(),
                out@.map_values(|n: Name| n@) == spec_all_types(s.subrange(0, i as int)),
                forall|j: int|
                    0 <= j < out@.len() ==> (#[trigger] out@[j]).wf() && out@[j]@.len() <= 65535,
            decreases n - i,
        {
            let ghost pre = s.subrange(0, i as int);
            let ghost pre2 = s.subrange(0, i + 1);
            proof {
                assert(pre2.drop_last() =~= pre);
                assert(pre2.last() == s[i as int]);
            }
            let ghost out_pre = out@;
            let seen = contains_name(&out, &self.services[i].data.typ);
            proof {
                assert(seen == spec_all_types(pre).contains(s[i as int].data.typ));
            }
            if !seen {
                out.push(self.services[i].data.typ.clone());
                proof {
                    assert(out@.map_values(|n: Name| n@) =~= out_pre.map_values(
                        |n: Name| n@,
                    ).push(out@[out_pre.len() as int]@));
                }
            }
            i += 1;
        }
        proof {
            assert(s.subrange(0, n as int) =~= s);
        }
        out
    }
}

/// True when the list already holds a name with this expanded encoding.
fn contains_name(v: &Vec<Name>, nm: &Name) -> (r: bool)
    ensures
        r == v@.map_values(|n: Name| n@).contains(nm@),
{
    let n = v.len();
    let mut i: usize = 0;
    while i < n
        invariant
            i <= n,
            n == v@.len(),
            forall|j: int| 0 <= j < i ==> (#[trigger] v@[j])@ != nm@,
        decreases n - i,
    {
        if v[i] == *nm {
            proof {
                assert(v@.map_values(|n: Name| n@)[i as int] == nm@);
            }
            return true;
        }
        i += 1;
    }
    proof {
        if v@.map_values(|n: Name| n@).contains(nm@) {
            let m = v@.map_values(|n: Name| n@);
            let w = choose|w: int| 0 <= w < m.len() && #[trigger] m[w] == nm@;
            assert(v@[w]@ == nm@);
        }
    }
    false
}

/// Among the candidate identifiers `0 ..= len` at least one is free:
/// otherwise `len + 1` distinct values would sit among `len` entries.
proof fn lemma_fresh_id_exists(s: Seq<EntryV>)
    requires
        s.len() <= 0xFFFF_FFFF_FFFF_FFFFu64,
    ensures
        exists|x: u64| x <= s.len() && !(#[trigger] has_id(s, x)),
{
    assert_by_contradiction!(exists|x: u64| x <= s.len() && !(#[trigger] has_id(s, x)), {
        let ids = s.map_values(|e: EntryV| e.id as int);
        let range = set_int_range(0, s.len() as int + 1);
        assert forall|x: int| range.contains(x) implies ids.to_set().contains(x) by {
            let xu = x as u64;
            assert(xu <= s.len() && !has_id(s, xu) ==> false);
            assert(has_id(s, xu));
            let i = choose|i: int| 0 <= i < s.len() && (#[trigger] s[i]).id == xu;
            assert(ids[i] == x);
            assert(ids.contains(x));
        }
        ids.lemma_cardinality_of_set();
        lemma_len_subset(range, ids.to_set());
        lemma_int_range(0, s.len() as int + 1);
    });
}



/// Lookup by name after one registration: earlier registrants keep
/// their answers, and a fresh name answers the new service.
pub proof fn lemma_find_by_name_push(s: Seq<EntryV>, e: EntryV, nm: Seq<u8>)
    ensures
        spec_find_by_name(s.push(e), nm) == (match spec_find_by_name(s, nm) {
            Some(d) => Some(d),
            None => if e.data.name == nm {
                Some(e.data)
            } else {
                None
            },
        }),
    decreases s.len(),
{
    if s.len() == 0 {
        assert(spec_find_by_name(s, nm) is None);
        assert(s.push(e)[0] == e);
        if e.data.name != nm {
            assert(s.push(e).subrange(1, 1) =~= Seq::<EntryV>::empty());
            assert(spec_find_by_name(Seq::<EntryV>::empty(), nm) is None);
            assert(spec_find_by_name(s.push(e), nm) is None);
        } else {
            assert(spec_find_by_name(s.push(e), nm) == Some(e.data));
        }
    } else {
        let tail = s.subrange(1, s.len() as int);
        lemma_find_by_name_push(tail, e, nm);
        assert(s.push(e)[0] == s[0]);
        assert(s.push(e).subrange(1, s.push(e).len() as int) =~= tail.push(e));
        if s[0].data.name == nm {
            assert(spec_find_by_name(s.push(e), nm) == Some(s[0].data));
            assert(spec_find_by_name(s, nm) == Some(s[0].data));
        } else {
            assert(spec_find_by_name(s.push(e), nm) == spec_find_by_name(tail.push(e), nm));
            assert(spec_find_by_name(s, nm) == spec_find_by_name(tail, nm));
        }
    }
}

/// Registry consistency, lookup by instance name: when registered
/// instance names are pairwise distinct, lookup answers a service
/// exactly when one entry carries that name, and then answers that
/// entry's service.
pub proof fn lemma_find_by_name_exact(s: Seq<EntryV>, nm: Seq<u8>)
    requires
        forall|i: int, j: int|
            0 <= i < j < s.len() ==> (#[trigger] s[i]).data.name != (#[trigger] s[j]).data.name,
    ensures
        match spec_find_by_name(s, nm) {
            Some(d) => exists|i: int|
                0 <= i < s.len() && (#[trigger] s[i]).data == d && d.name == nm,
            None => forall|i: int| 0 <= i < s.len() ==> (#[trigger] s[i]).data.name != nm,
        },
    decreases s.len(),
{
    if s.len() == 0 {
    } else if s[0].data.name == nm {
        assert(s[0].data == s[0].data && s[0].data.name == nm);
    } else {
        let tail = s.subrange(1, s.len() as int);
        assert(forall|i: int, j: int|
            0 <= i < j < tail.len() ==> (#[trigger] tail[i]).data.name != (
            #[trigger] tail[j]).data.name) by {
            assert(forall|i: int| 0 <= i < tail.len() ==> tail[i] == s[i + 1]);
        }
        lemma_find_by_name_exact(tail, nm);
        match spec_find_by_name(tail, nm) {
            Some(d) => {
                let w = choose|w: int|
                    0 <= w < tail.len() && (#[trigger] tail[w]).data == d && d.name == nm;
                assert(s[w + 1].data == d);
            },
            None => {
                assert(forall|i: int| 0 <= i < s.len() ==> (#[trigger] s[i]).data.name != nm) by {
                    assert(forall|i: int| 1 <= i < s.len() ==> s[i] == tail[i - 1]);
                }
            },
        }
    }
}

/// Registry consistency, lookup by service type: the lookup's results
/// are exactly the services registered under that type.
pub proof fn lemma_find_by_type_exact(s: Seq<EntryV>, ty: Seq<u8>, d: ServiceDataV)
    ensures
        spec_find_by_type(s, ty).contains(d) <==> exists|i: int|
            0 <= i < s.len() && (#[trigger] s[i]).data == d && d.typ == ty,
    decreases s.len(),
{
    if s.len() == 0 {
    } else {
        let rest = spec_find_by_type(s.drop_last(), ty);
        lemma_find_by_type_exact(s.drop_last(), ty, d);
        if spec_find_by_type(s, ty).contains(d) {
            if s.last().data.typ == ty && s.last().data == d {
                assert(s[s.len() - 1].data == d && d.typ == ty);
            } else {
                assert(rest.contains(d)) by {
                    let w = choose|w: int|
                        0 <= w < spec_find_by_type(s, ty).len() && #[trigger] spec_find_by_type(
                            s,
                            ty,
                        )[w] == d;
                    if s.last().data.typ == ty {
                        assert(spec_find_by_type(s, ty) == rest.push(s.last().data));
                        assert(w < rest.len());
                        assert(rest[w] == d);
                    }
                }
                let w = choose|w: int|
                    0 <= w < s.drop_last().len() && (#[trigger] s.drop_last()[w]).data == d
                        && d.typ == ty;
                assert(s[w].data == d);
            }
        }
        if exists|i: int| 0 <= i < s.len() && (#[trigger] s[i]).data == d && d.typ == ty {
            let w = choose|i: int|
                0 <= i < s.len() && (#[trigger] s[i]).data == d && d.typ == ty;
            if w == s.len() - 1 {
                assert(spec_find_by_type(s, ty) == rest.push(d));
                assert(spec_find_by_type(s, ty)[rest.len() as int] == d);
            } else {
                assert(s.drop_last()[w] == s[w]);
                assert(rest.contains(d));
                let v = choose|v: int| 0 <= v < rest.len() && #[trigger] rest[v] == d;
                if s.last().data.typ == ty {
                    assert(spec_find_by_type(s, ty)[v] == d);
                } else {
                    assert(spec_find_by_type(s, ty)[v] == d);
                }
            }
        }
    }
}

} // verus!
