//! The typed payload of a resource record: the record types service
//! discovery needs, plus an opaque carrier for everything else, each with
//! its exact wire encoding.

use vstd::prelude::*;
use vstd::slice::{slice_to_vec, slice_subrange};

use crate::bytes::{be16_at, be16_bytes, be32_bytes, read_u16_be, push_u16_be};
use crate::enums::Type;
use crate::error::Error;
use crate::name::{spec_scan, Name};

verus! {

/// An IPv4 address, as the four bytes of its A record.
#[derive(Debug, Clone, Copy)]
pub struct V4Addr {
    pub octets: [u8; 4],
}

impl View for V4Addr {
    type V = Seq<u8>;

    open spec fn view(&self) -> Seq<u8> {
        self.octets@
    }
}

/// An IPv6 address, as the eight 16-bit groups of its AAAA record.
#[derive(Debug, Clone, Copy)]
pub struct V6Addr {
    pub segments: [u16; 8],
}

impl View for V6Addr {
    type V = Seq<u16>;

    open spec fn view(&self) -> Seq<u16> {
        self.segments@
    }
}

/// The data carried by a resource record.
#[derive(Debug)]
pub enum RRData {
    CNAME(Name),
    NS(Name),
    PTR(Name),
    A(V4Addr),
    AAAA(V6Addr),
    SRV { priority: u16, weight: u16, port: u16, target: Name },
    MX { preference: u16, exchange: Name },
    TXT(Vec<u8>),
    /// Any record type that is carried without interpretation.
    Unknown { typ: Type, data: Vec<u8> },
}

/// The mathematical shape of record data: names and byte runs as plain
/// sequences.
pub enum RRDataV {
    CNAME(Seq<u8>),
    NS(Seq<u8>),
    PTR(Seq<u8>),
    A(Seq<u8>),
    AAAA(Seq<u16>),
    SRV { priority: u16, weight: u16, port: u16, target: Seq<u8> },
    MX { preference: u16, exchange: Seq<u8> },
    TXT(Seq<u8>),
    Unknown { typ: Type, data: Seq<u8> },
}

impl View for RRData {
    type V = RRDataV;

    open spec fn view(&self) -> RRDataV {
        match self {
            RRData::CNAME(n) => RRDataV::CNAME(n@),
            RRData::NS(n) => RRDataV::NS(n@),
            RRData::PTR(n) => RRDataV::PTR(n@),
            RRData::A(a) => RRDataV::A(a@),
            RRData::AAAA(a) => RRDataV::AAAA(a@),
            RRData::SRV { priority, weight, port, target } => RRDataV::SRV {
                priority: *priority,
                weight: *weight,
                port: *port,
                target: target@,
            },
            RRData::MX { preference, exchange } => RRDataV::MX {
                preference: *preference,
                exchange: exchange@,
            },
            RRData::TXT(d) => RRDataV::TXT(d@),
            RRData::Unknown { typ, data } => RRDataV::Unknown { typ: *typ, data: data@ },
        }
    }
}

/// The record type a payload belongs to.
pub open spec fn rrdata_typ(d: RRDataV) -> Type {
    match d {
        RRDataV::CNAME(_) => Type::CNAME,
        RRDataV::NS(_) => Type::NS,
        RRDataV::PTR(_) => Type::PTR,
        RRDataV::A(_) => Type::A,
        RRDataV::AAAA(_) => Type::AAAA,
        RRDataV::SRV { .. } => Type::SRV,
        RRDataV::MX { .. } => Type::MX,
        RRDataV::TXT(_) => Type::TXT,
        RRDataV::Unknown { typ, .. } => typ,
    }
}

/// The byte run of eight 16-bit groups in big-endian order.
pub open spec fn v6_bytes(segs: Seq<u16>) -> Seq<u8> {
    Seq::new(
        segs.len() * 2,
        |i: int|
            if i % 2 == 0 {
                (segs[i / 2] / 256) as u8
            } else {
                (segs[i / 2] % 256) as u8
            },
    )
}

/// The RDATA bytes of a payload.
pub open spec fn rrdata_bytes(d: RRDataV) -> Seq<u8> {
    match d {
        RRDataV::CNAME(n) => n,
        RRDataV::NS(n) => n,
        RRDataV::PTR(n) => n,
        RRDataV::A(o) => o,
        RRDataV::AAAA(s) => v6_bytes(s),
        RRDataV::SRV { priority, weight, port, target } => be16_bytes(priority) + be16_bytes(
            weight,
        ) + be16_bytes(port) + target,
        RRDataV::MX { preference, exchange } => be16_bytes(preference) + exchange,
        RRDataV::TXT(d) => d,
        RRDataV::Unknown { data, .. } => data,
    }
}

/// Well-formed payload: names are well-formed, addresses have their fixed
/// sizes, and an opaque payload does not masquerade as a decoded type.
pub open spec fn wf_rrdatav(d: RRDataV) -> bool {
    match d {
        RRDataV::CNAME(n) => crate::name::wf_name(n),
        RRDataV::NS(n) => crate::name::wf_name(n),
        RRDataV::PTR(n) => crate::name::wf_name(n),
        RRDataV::A(o) => o.len() == 4,
        RRDataV::AAAA(s) => s.len() == 8,
        RRDataV::SRV { target, .. } => crate::name::wf_name(target),
        RRDataV::MX { exchange, .. } => crate::name::wf_name(exchange),
        RRDataV::TXT(_) => true,
        RRDataV::Unknown { typ, .. } => typ != Type::A && typ != Type::AAAA && typ != Type::CNAME
            && typ != Type::NS && typ != Type::PTR && typ != Type::MX && typ != Type::SRV && typ
            != Type::TXT,
    }
}

/// The payload read from the RDATA field `data[start .. start + rdlen]`,
/// declared as type `typ`. Fixed-size types must fill their exact size,
/// names are decoded with compression resolved against the whole
/// datagram, and unrecognised types keep their bytes untouched.
pub open spec fn spec_parse_rrdata(data: Seq<u8>, typ: Type, start: int, rdlen: int) -> Result<
    RRDataV,
    Error,
> {
    match typ {
        Type::A => {
            if rdlen != 4 {
                Err(Error::WrongRdataLength)
            } else {
                Ok(RRDataV::A(data.subrange(start, start + 4)))
            }
        },
        Type::AAAA => {
            if rdlen != 16 {
                Err(Error::WrongRdataLength)
            } else {
                Ok(
                    RRDataV::AAAA(
                        Seq::new(8, |j: int| be16_at(data, start + 2 * j) as u16),
                    ),
                )
            }
        },
        Type::CNAME => match spec_scan(data, start, start + rdlen, start) {
            Ok((nm, _)) => Ok(RRDataV::CNAME(nm)),
            Err(e) => Err(e),
        },
        Type::NS => match spec_scan(data, start, start + rdlen, start) {
            Ok((nm, _)) => Ok(RRDataV::NS(nm)),
            Err(e) => Err(e),
        },
        Type::PTR => match spec_scan(data, start, start + rdlen, start) {
            Ok((nm, _)) => Ok(RRDataV::PTR(nm)),
            Err(e) => Err(e),
        },
        Type::MX => {
            if rdlen < 3 {
                Err(Error::WrongRdataLength)
            } else {
                match spec_scan(data, start + 2, start + rdlen, start + 2) {
                    Ok((nm, _)) => Ok(
                        RRDataV::MX { preference: be16_at(data, start) as u16, exchange: nm },
                    ),
                    Err(e) => Err(e),
                }
            }
        },
        Type::SRV => {
            if rdlen < 7 {
                Err(Error::WrongRdataLength)
            } else {
                match spec_scan(data, start + 6, start + rdlen, start + 6) {
                    Ok((nm, _)) => Ok(
                        RRDataV::SRV {
                            priority: be16_at(data, start) as u16,
                            weight: be16_at(data, start + 2) as u16,
                            port: be16_at(data, start + 4) as u16,
                            target: nm,
                        },
                    ),
                    Err(e) => Err(e),
                }
            }
        },
        Type::TXT => Ok(RRDataV::TXT(data.subrange(start, start + rdlen))),
        _ => Ok(RRDataV::Unknown { typ, data: data.subrange(start, start + rdlen) }),
    }
}

impl RRData {
    /// Well-formed: see `wf_rrdatav`.
    pub open spec fn wf(&self) -> bool {
        wf_rrdatav(self@)
    }

    /// The record type this payload belongs to.
    pub fn typ(&self) -> (t: Type)
        ensures
            t == rrdata_typ(self@),
    {
        match self {
            RRData::CNAME(..) => Type::CNAME,
            RRData::NS(..) => Type::NS,
            RRData::PTR(..) => Type::PTR,
            RRData::A(..) => Type::A,
            RRData::AAAA(..) => Type::AAAA,
            RRData::SRV { .. } => Type::SRV,
            RRData::MX { .. } => Type::MX,
            RRData::TXT(..) => Type::TXT,
            RRData::Unknown { typ, .. } => *typ,
        }
    }

    /// Appends the RDATA bytes to a buffer.
    pub fn write_to(&self, buf: &mut Vec<u8>)
        ensures
            final(buf)@ == old(buf)@ + rrdata_bytes(self@),
    {
        match self {
            RRData::CNAME(n) => n.write_to(buf),
            RRData::NS(n) => n.write_to(buf),
            RRData::PTR(n) => n.write_to(buf),
            RRData::A(a) => {
                let ghost buf0 = old(buf)@;
                buf.push(a.octets[0]);
                buf.push(a.octets[1]);
                buf.push(a.octets[2]);
                buf.push(a.octets[3]);
                proof {
                    assert(buf@ =~= buf0 + a@);
                }
            },
            RRData::AAAA(a) => {
                let ghost buf0 = old(buf)@;
                push_u16_be(buf, a.segments[0]);
                push_u16_be(buf, a.segments[1]);
                push_u16_be(buf, a.segments[2]);
                push_u16_be(buf, a.segments[3]);
                push_u16_be(buf, a.segments[4]);
                push_u16_be(buf, a.segments[5]);
                push_u16_be(buf, a.segments[6]);
                push_u16_be(buf, a.segments[7]);
                proof {
                    assert(buf@ =~= buf0 + v6_bytes(a@));
                }
            },
            RRData::SRV { priority, weight, port, target } => {
                let ghost buf0 = old(buf)@;
                push_u16_be(buf, *priority);
                push_u16_be(buf, *weight);
                push_u16_be(buf, *port);
                target.write_to(buf);
                proof {
                    assert(buf@ =~= buf0 + rrdata_bytes(self@));
                }
            },
            RRData::MX { preference, exchange } => {
                let ghost buf0 = old(buf)@;
                push_u16_be(buf, *preference);
                exchange.write_to(buf);
                proof {
                    assert(buf@ =~= buf0 + rrdata_bytes(self@));
                }
            },
            RRData::TXT(d) => {
                let ghost buf0 = old(buf)@;
                push_bytes(buf, d);
                proof {
                    assert(buf@ =~= buf0 + rrdata_bytes(self@));
                }
            },
            RRData::Unknown { data, .. } => {
                let ghost buf0 = old(buf)@;
                push_bytes(buf, data);
                proof {
                    assert(buf@ =~= buf0 + rrdata_bytes(self@));
                }
            },
        }
    }

    /// Decodes the RDATA field `data[start .. start + rdlen]` declared as
    /// type `typ`, as `spec_parse_rrdata` describes.
    pub fn parse(typ: Type, data: &[u8], start: usize, rdlen: usize) -> (r: Result<RRData, Error>)
        requires
            start + rdlen <= data@.len(),
        ensures
            match r {
                Ok(d) => spec_parse_rrdata(data@, typ, start as int, rdlen as int) == Ok::<
                    RRDataV,
                    Error,
                >(d@) && d.wf(),
                Err(e) => spec_parse_rrdata(data@, typ, start as int, rdlen as int) == Err::<
                    RRDataV,
                    Error,
                >(e),
            },
    {
        let len = data.len();
        assert(start + rdlen <= len);
        match typ {
            Type::A => {
                if rdlen != 4 {
                    return Err(Error::WrongRdataLength);
                }
                let a = V4Addr {
                    octets: [data[start], data[start + 1], data[start + 2], data[start + 3]],
                };
                proof {
                    assert(a@ =~= data@.subrange(start as int, start as int + 4));
                }
                Ok(RRData::A(a))
            },
            Type::AAAA => {
                if rdlen != 16 {
                    return Err(Error::WrongRdataLength);
                }
                let a = V6Addr {
                    segments: [
                        read_u16_be(data, start),
                        read_u16_be(data, start + 2),
                        read_u16_be(data, start + 4),
                        read_u16_be(data, start + 6),
                        read_u16_be(data, start + 8),
                        read_u16_be(data, start + 10),
                        read_u16_be(data, start + 12),
                        read_u16_be(data, start + 14),
                    ],
                };
                proof {
                    assert(a@ =~= Seq::new(
                        8,
                        |j: int| be16_at(data@, start + 2 * j) as u16,
                    ));
                }
                Ok(RRData::AAAA(a))
            },
            Type::CNAME => {
                match Name::scan(data, start, start + rdlen) {
                    Ok((nm, _)) => Ok(RRData::CNAME(nm)),
                    Err(e) => Err(e),
                }
            },
            Type::NS => {
                match Name::scan(data, start, start + rdlen) {
                    Ok((nm, _)) => Ok(RRData::NS(nm)),
                    Err(e) => Err(e),
                }
            },
            Type::PTR => {
                match Name::scan(data, start, start + rdlen) {
                    Ok((nm, _)) => Ok(RRData::PTR(nm)),
                    Err(e) => Err(e),
                }
            },
            Type::MX => {
                if rdlen < 3 {
                    return Err(Error::WrongRdataLength);
                }
                match Name::scan(data, start + 2, start + rdlen) {
                    Ok((nm, _)) => Ok(
                        RRData::MX { preference: read_u16_be(data, start), exchange: nm },
                    ),
                    Err(e) => Err(e),
                }
            },
            Type::SRV => {
                if rdlen < 7 {
                    return Err(Error::WrongRdataLength);
                }
                match Name::scan(data, start + 6, start + rdlen) {
                    Ok((nm, _)) => Ok(
                        RRData::SRV {
                            priority: read_u16_be(data, start),
                            weight: read_u16_be(data, start + 2),
                            port: read_u16_be(data, start + 4),
                            target: nm,
                        },
                    ),
                    Err(e) => Err(e),
                }
            },
            Type::TXT => {
                let d = slice_to_vec(slice_subrange(data, start, start + rdlen));
                Ok(RRData::TXT(d))
            },
            _ => {
                let d = slice_to_vec(slice_subrange(data, start, start + rdlen));
                Ok(RRData::Unknown { typ, data: d })
            },
        }
    }
}

/// Appends every byte of `src` to `buf`.
pub fn push_bytes(buf: &mut Vec<u8>, src: &Vec<u8>)
    ensures
        final(buf)@ == old(buf)@ + src@,
{
    let ghost buf0 = old(buf)@;
    let n = src.len();
    let mut i: usize = 0;
    while i < n
        invariant
            i <= n,
            n == src@.len(),
            buf@ == buf0 + src@.subrange(0, i as int),
        decreases n - i,
    {
        buf.push(src[i]);
        i += 1;
        proof {
            assert(buf@ =~= buf0 + src@.subrange(0, i as int));
        }
    }
    proof {
        assert(buf@ =~= buf0 + src@);
    }
}

} // verus!
