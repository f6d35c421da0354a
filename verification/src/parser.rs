//! Decoding a whole datagram: header, question section, answer and
//! nameserver sections. The additional section is left to the consumer,
//! which builds additional records from its own policy.

use vstd::prelude::*;

use crate::bytes::{be16_at, be32_at, read_u16_be, read_u32_be};
use crate::enums::{Class, QueryClass, QueryType, Type};
use crate::error::Error;
use crate::header::Header;
use crate::name::{spec_scan, Name};
use crate::rrdata::{spec_parse_rrdata, RRData};
use crate::structs::{
    wf_questionv, wf_recordv, Packet, PacketV, Question, QuestionV, RecordV, ResourceRecord,
};

verus! {

/// One question read at `pos`: name, type code, and class word with its
/// unicast-request bit split off.
pub open spec fn spec_parse_question(data: Seq<u8>, pos: int) -> Result<(QuestionV, int), Error> {
    match spec_scan(data, pos, data.len() as int, pos) {
        Ok((nm, n)) => {
            let o = pos + n;
            if o + 4 > data.len() {
                Err(Error::UnexpectedEOF)
            } else {
                let tcode = be16_at(data, o) as u16;
                let ccode = be16_at(data, o + 2) as u16;
                match QueryType::spec_from_code(tcode) {
                    Some(qt) => match QueryClass::spec_from_code(ccode & 0x7FFF) {
                        Some(qc) => Ok(
                            (
                                QuestionV {
                                    qname: nm,
                                    qtype: qt,
                                    qclass: qc,
                                    qu: ccode & 0x8000 != 0,
                                },
                                n + 4,
                            ),
                        ),
                        None => Err(Error::InvalidQueryClass((ccode & 0x7FFF) as u16)),
                    },
                    None => Err(Error::InvalidQueryType(tcode)),
                }
            }
        },
        Err(e) => Err(e),
    }
}

/// One resource record read at `pos`: name, type, class (its cache-flush
/// bit masked off), TTL clamped to the non-negative signed range, and the
/// RDATA field, which must lie inside the datagram.
pub open spec fn spec_parse_record(data: Seq<u8>, pos: int) -> Result<(RecordV, int), Error> {
    match spec_scan(data, pos, data.len() as int, pos) {
        Ok((nm, n)) => {
            let o = pos + n;
            if o + 10 > data.len() {
                Err(Error::UnexpectedEOF)
            } else {
                let tcode = be16_at(data, o) as u16;
                match Type::spec_from_code(tcode) {
                    None => Err(Error::InvalidType(tcode)),
                    Some(t) => {
                        let ccode = (be16_at(data, o + 2) as u16) & 0x7FFF;
                        match Class::spec_from_code(ccode) {
                            None => Err(Error::InvalidClass(ccode)),
                            Some(cls) => {
                                let raw = be32_at(data, o + 4) as u32;
                                let ttl: u32 = if raw > 0x7FFFFFFF {
                                    0u32
                                } else {
                                    raw
                                };
                                let rdlen = be16_at(data, o + 8);
                                if o + 10 + rdlen > data.len() {
                                    Err(Error::UnexpectedEOF)
                                } else {
                                    match spec_parse_rrdata(data, t, o + 10, rdlen) {
                                        Ok(d) => Ok(
                                            (
                                                RecordV { name: nm, cls, ttl, data: d },
                                                n + 10 + rdlen,
                                            ),
                                        ),
                                        Err(e) => Err(e),
                                    }
                                }
                            },
                        }
                    },
                }
            }
        },
        Err(e) => Err(e),
    }
}

/// `n` questions read one after another from `pos`.
pub open spec fn spec_parse_questions(data: Seq<u8>, pos: int, n: int) -> Result<
    (Seq<QuestionV>, int),
    Error,
>
    decreases n,
{
    if n <= 0 {
        Ok((Seq::empty(), 0))
    } else {
        match spec_parse_question(data, pos) {
            Ok((q, c)) => match spec_parse_questions(data, pos + c, n - 1) {
                Ok((qs, c2)) => Ok((seq![q] + qs, c + c2)),
                Err(e) => Err(e),
            },
            Err(e) => Err(e),
        }
    }
}

/// `n` resource records read one after another from `pos`.
pub open spec fn spec_parse_records(data: Seq<u8>, pos: int, n: int) -> Result<
    (Seq<RecordV>, int),
    Error,
>
    decreases n,
{
    if n <= 0 {
        Ok((Seq::empty(), 0))
    } else {
        match spec_parse_record(data, pos) {
            Ok((r, c)) => match spec_parse_records(data, pos + c, n - 1) {
                Ok((rs, c2)) => Ok((seq![r] + rs, c + c2)),
                Err(e) => Err(e),
            },
            Err(e) => Err(e),
        }
    }
}

/// The whole datagram: header, then as many questions, answers and
/// nameserver records as the header counts claim; what follows is left
/// untouched and the additional section comes back empty.
pub open spec fn spec_parse_packet(data: Seq<u8>) -> Result<PacketV, Error> {
    match Header::spec_parse(data) {
        Err(e) => Err(e),
        Ok(h) => match spec_parse_questions(data, 12, h.questions as int) {
            Err(e) => Err(e),
            Ok((qs, c1)) => match spec_parse_records(data, 12 + c1, h.answers as int) {
                Err(e) => Err(e),
                Ok((ans, c2)) => match spec_parse_records(data, 12 + c1 + c2, h.nameservers as int) {
                    Err(e) => Err(e),
                    Ok((ns, _)) => Ok(
                        PacketV {
                            header: h,
                            questions: qs,
                            answers: ans,
                            nameservers: ns,
                            additional: Seq::empty(),
                        },
                    ),
                },
            },
        },
    }
}

/// Well-formed message: every name, payload and TTL in it is.
pub open spec fn wf_packetv(p: PacketV) -> bool {
    &&& forall|i: int| 0 <= i < p.questions.len() ==> wf_questionv(#[trigger] p.questions[i])
    &&& forall|i: int| 0 <= i < p.answers.len() ==> wf_recordv(#[trigger] p.answers[i])
    &&& forall|i: int| 0 <= i < p.nameservers.len() ==> wf_recordv(#[trigger] p.nameservers[i])
    &&& forall|i: int| 0 <= i < p.additional.len() ==> wf_recordv(#[trigger] p.additional[i])
}

/// Reads one question at `pos`.
fn parse_question(data: &[u8], pos: usize) -> (r: Result<(Question, usize), Error>)
    ensures
        match r {
            Ok((q, c)) => {
                &&& spec_parse_question(data@, pos as int) == Ok::<(QuestionV, int), Error>(
                    (q@, c as int),
                )
                &&& wf_questionv(q@)
                &&& 1 <= c
                &&& pos + c <= data@.len()
            },
            Err(e) => spec_parse_question(data@, pos as int) == Err::<(QuestionV, int), Error>(e),
        },
{
    let len = data.len();
    let (nm, n) = match Name::scan(data, pos, len) {
        Ok(x) => x,
        Err(e) => {
            return Err(e);
        },
    };
    let o = pos + n;
    if len - o < 4 {
        return Err(Error::UnexpectedEOF);
    }
    let tcode = read_u16_be(data, o);
    proof {
        assert(0 <= be16_at(data@, o as int) <= 65535);
        assert(0 <= be16_at(data@, o + 2) <= 65535);
    }
    let qt = match QueryType::parse(tcode) {
        Ok(t) => t,
        Err(e) => {
            return Err(e);
        },
    };
    let ccode = read_u16_be(data, o + 2);
    let qc = match QueryClass::parse(ccode & 0x7FFF) {
        Ok(c) => c,
        Err(e) => {
            return Err(e);
        },
    };
    Ok((Question { qname: nm, qtype: qt, qclass: qc, qu: ccode & 0x8000 != 0 }, n + 4))
}

/// Reads one resource record at `pos`.
fn parse_record(data: &[u8], pos: usize) -> (r: Result<(ResourceRecord, usize), Error>)
    ensures
        match r {
            Ok((rec, c)) => {
                &&& spec_parse_record(data@, pos as int) == Ok::<(RecordV, int), Error>(
                    (rec@, c as int),
                )
                &&& wf_recordv(rec@)
                &&& 1 <= c
                &&& pos + c <= data@.len()
            },
            Err(e) => spec_parse_record(data@, pos as int) == Err::<(RecordV, int), Error>(e),
        },
{
    let len = data.len();
    let (nm, n) = match Name::scan(data, pos, len) {
        Ok(x) => x,
        Err(e) => {
            return Err(e);
        },
    };
    let o = pos + n;
    if len - o < 10 {
        return Err(Error::UnexpectedEOF);
    }
    proof {
        assert(0 <= be16_at(data@, o as int) <= 65535);
        assert(0 <= be16_at(data@, o + 2) <= 65535);
        assert(0 <= be16_at(data@, o + 8) <= 65535);
        assert(0 <= be32_at(data@, o + 4) < 0x100000000);
    }
    let tcode = read_u16_be(data, o);
    let t = match Type::parse(tcode) {
        Ok(t) => t,
        Err(e) => {
            return Err(e);
        },
    };
    let ccode = read_u16_be(data, o + 2) & 0x7FFF;
    let cls = match Class::parse(ccode) {
        Ok(c) => c,
        Err(e) => {
            return Err(e);
        },
    };
    let raw = read_u32_be(data, o + 4);
    let ttl: u32 = if raw > 0x7FFFFFFF {
        0
    } else {
        raw
    };
    let rdlen = read_u16_be(data, o + 8) as usize;
    if len - (o + 10) < rdlen {
        return Err(Error::UnexpectedEOF);
    }
    let d = match RRData::parse(t, data, o + 10, rdlen) {
        Ok(d) => d,
        Err(e) => {
            return Err(e);
        },
    };
    Ok((ResourceRecord { name: nm, cls, ttl, data: d }, n + 10 + rdlen))
}

/// Reads `count` questions one after another from `pos`.
#[verifier::rlimit(60)]
fn parse_questions(data: &[u8], pos: usize, count: u16) -> (r: Result<
    (Vec<Question>, usize),
    Error,
>)
    requires
        pos <= data@.len(),
    ensures
        match r {
            Ok((v, c)) => {
                &&& spec_parse_questions(data@, pos as int, count as int) == Ok::<
                    (Seq<QuestionV>, int),
                    Error,
                >((v@.map_values(|q: Question| q@), c as int))
                &&& pos + c <= data@.len()
                &&& forall|i: int| 0 <= i < v@.len() ==> wf_questionv(#[trigger] v@[i]@)
            },
            Err(e) => spec_parse_questions(data@, pos as int, count as int) == Err::<
                (Seq<QuestionV>, int),
                Error,
            >(e),
        },
{
    let len = data.len();
    let mut v: Vec<Question> = Vec::new();
    let mut offset = pos;
    let mut i: u16 = 0;
    proof {
        assert(v@.map_values(|q: Question| q@) =~= Seq::<QuestionV>::empty());
        if let Ok((qs, c)) = spec_parse_questions(data@, pos as int, count as int) {
            assert(v@.map_values(|q: Question| q@) + qs =~= qs);
        }
    }
    while i < count
        invariant
            i <= count,
            len == data@.len(),
            pos <= offset <= len,
            forall|j: int| 0 <= j < v@.len() ==> wf_questionv(#[trigger] v@[j]@),
            (match spec_parse_questions(data@, offset as int, count - i) {
                Ok((qs, c)) => spec_parse_questions(data@, pos as int, count as int) == Ok::<
                    (Seq<QuestionV>, int),
                    Error,
                >((v@.map_values(|q: Question| q@) + qs, offset - pos + c)),
                Err(e) => spec_parse_questions(data@, pos as int, count as int) == Err::<
                    (Seq<QuestionV>, int),
                    Error,
                >(e),
            }),
        decreases count - i,
    {
        let ghost v_pre = v@;
        match parse_question(data, offset) {
            Ok((q, c)) => {
                v.push(q);
                proof {
                    assert(v@.map_values(|q: Question| q@) =~= v_pre.map_values(
                        |q: Question| q@,
                    ) + seq![v@[v_pre.len() as int]@]);
                    if let Ok((qs2, c2)) = spec_parse_questions(
                        data@,
                        offset + c,
                        count - i - 1,
                    ) {
                        assert(v_pre.map_values(|q: Question| q@) + (seq![q@] + qs2) =~= v@
                            .map_values(|q: Question| q@) + qs2);
                    }
                }
                offset = offset + c;
                i = i + 1;
            },
            Err(e) => {
                return Err(e);
            },
        }
    }
    proof {
        assert(v@.map_values(|q: Question| q@) + Seq::<QuestionV>::empty() =~= v@.map_values(
            |q: Question| q@,
        ));
    }
    Ok((v, offset - pos))
}

/// Reads `count` resource records one after another from `pos`.
#[verifier::rlimit(60)]
fn parse_records(data: &[u8], pos: usize, count: u16) -> (r: Result<
    (Vec<ResourceRecord>, usize),
    Error,
>)
    requires
        pos <= data@.len(),
    ensures
        match r {
            Ok((v, c)) => {
                &&& spec_parse_records(data@, pos as int, count as int) == Ok::<
                    (Seq<RecordV>, int),
                    Error,
                >((v@.map_values(|x: ResourceRecord| x@), c as int))
                &&& pos + c <= data@.len()
                &&& forall|i: int| 0 <= i < v@.len() ==> wf_recordv(#[trigger] v@[i]@)
            },
            Err(e) => spec_parse_records(data@, pos as int, count as int) == Err::<
                (Seq<RecordV>, int),
                Error,
            >(e),
        },
{
    let len = data.len();
    let mut v: Vec<ResourceRecord> = Vec::new();
    let mut offset = pos;
    let mut i: u16 = 0;
    proof {
        assert(v@.map_values(|x: ResourceRecord| x@) =~= Seq::<RecordV>::empty());
        if let Ok((rs, c)) = spec_parse_records(data@, pos as int, count as int) {
            assert(v@.map_values(|x: ResourceRecord| x@) + rs =~= rs);
        }
    }
    while i < count
        invariant
            i <= count,
            len == data@.len(),
            pos <= offset <= len,
            forall|j: int| 0 <= j < v@.len() ==> wf_recordv(#[trigger] v@[j]@),
            (match spec_parse_records(data@, offset as int, count - i) {
                Ok((rs, c)) => spec_parse_records(data@, pos as int, count as int) == Ok::<
                    (Seq<RecordV>, int),
                    Error,
                >((v@.map_values(|x: ResourceRecord| x@) + rs, offset - pos + c)),
                Err(e) => spec_parse_records(data@, pos as int, count as int) == Err::<
                    (Seq<RecordV>, int),
                    Error,
                >(e),
            }),
        decreases count - i,
    {
        let ghost v_pre = v@;
        match parse_record(data, offset) {
            Ok((rec, c)) => {
                v.push(rec);
                proof {
                    assert(v@.map_values(|x: ResourceRecord| x@) =~= v_pre.map_values(
                        |x: ResourceRecord| x@,
                    ) + seq![v@[v_pre.len() as int]@]);
                    if let Ok((rs2, c2)) = spec_parse_records(data@, offset + c, count - i - 1) {
                        assert(v_pre.map_values(|x: ResourceRecord| x@) + (seq![rec@] + rs2)
                            =~= v@.map_values(|x: ResourceRecord| x@) + rs2);
                    }
                }
                offset = offset + c;
                i = i + 1;
            },
            Err(e) => {
                return Err(e);
            },
        }
    }
    proof {
        assert(v@.map_values(|x: ResourceRecord| x@) + Seq::<RecordV>::empty() =~= v@.map_values(
            |x: ResourceRecord| x@,
        ));
    }
    Ok((v, offset - pos))
}

impl Packet {
    /// Decodes a whole datagram, as `spec_parse_packet` describes: any
    /// malformed content — a short header, reserved bits, a bad name, a
    /// field past the end — comes back as the matching error, never a
    /// panic or an out-of-bounds read.
    pub fn parse(data: &[u8]) -> (r: Result<Packet, Error>)
        ensures
            match r {
                Ok(p) => spec_parse_packet(data@) == Ok::<PacketV, Error>(p@) && wf_packetv(p@)
                    && p@.additional.len() == 0,
                Err(e) => spec_parse_packet(data@) == Err::<PacketV, Error>(e),
            },
    {
        let len = data.len();
        let header = match Header::parse(data) {
            Ok(h) => h,
            Err(e) => {
                return Err(e);
            },
        };
        assert(len >= 12);
        let (questions, c1) = match parse_questions(data, 12, header.questions) {
            Ok(x) => x,
            Err(e) => {
                return Err(e);
            },
        };
        let (answers, c2) = match parse_records(data, 12 + c1, header.answers) {
            Ok(x) => x,
            Err(e) => {
                return Err(e);
            },
        };
        let (nameservers, _c3) = match parse_records(data, 12 + c1 + c2, header.nameservers) {
            Ok(x) => x,
            Err(e) => {
                return Err(e);
            },
        };
        let p = Packet { header, questions, answers, nameservers, additional: Vec::new() };
        proof {
            assert(p@.additional =~= Seq::<RecordV>::empty());
        }
        Ok(p)
    }
}

} // verus!
