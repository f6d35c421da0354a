//! The codec's round trip: a message encoded by the builder parses back
//! to exactly the questions and records that went in.

use vstd::prelude::*;

use crate::builder::{
    enc_packet, enc_question, enc_questions, enc_record, enc_records, wf_enc_recordv,
};
use crate::bytes::{be16_at, be32_at, lemma_be16_roundtrip, lemma_be32_roundtrip};
use crate::error::Error;
use crate::header::Header;
use crate::name::lemma_scan_literal;
use crate::parser::{
    spec_parse_packet, spec_parse_question, spec_parse_questions, spec_parse_record,
    spec_parse_records,
};
use crate::rrdata::{rrdata_bytes, rrdata_typ, spec_parse_rrdata, RRDataV};
use crate::structs::{wf_questionv, PacketV, QuestionV, RecordV};

verus! {

/// All bytes of a subrange match: the usual index transfer.
proof fn lemma_subrange_index(data: Seq<u8>, pos: int, e: Seq<u8>)
    requires
        0 <= pos,
        pos + e.len() <= data.len(),
        data.subrange(pos, pos + e.len()) == e,
    ensures
        forall|j: int| 0 <= j < e.len() ==> data[pos + j] == #[trigger] e[j],
{
    assert(forall|j: int|
        0 <= j < e.len() ==> data.subrange(pos, pos + e.len())[j] == #[trigger] e[j]);
}

/// A question written at `pos` parses back to itself.
pub proof fn lemma_enc_question_parses(data: Seq<u8>, pos: int, q: QuestionV)
    requires
        wf_questionv(q),
        !q.qu,
        0 <= pos,
        pos + enc_question(q).len() <= data.len(),
        data.subrange(pos, pos + enc_question(q).len()) == enc_question(q),
    ensures
        spec_parse_question(data, pos) == Ok::<(QuestionV, int), Error>(
            (q, enc_question(q).len() as int),
        ),
{
    let e = enc_question(q);
    let nl = q.qname.len() as int;
    lemma_subrange_index(data, pos, e);
    assert(data.subrange(pos, pos + nl) =~= q.qname);
    lemma_scan_literal(data, pos, data.len() as int, pos, q.qname);
    let o = pos + nl;
    let tc = q.qtype.spec_code();
    let cc = q.qclass.spec_code();
    assert(e[nl] == (tc / 256) as u8 && e[nl + 1] == (tc % 256) as u8);
    assert(e[nl + 2] == (cc / 256) as u8 && e[nl + 3] == (cc % 256) as u8);
    lemma_be16_roundtrip(tc);
    lemma_be16_roundtrip(cc);
    assert(be16_at(data, o) == tc);
    assert(be16_at(data, o + 2) == cc);
    q.qtype.lemma_code_from_code();
    q.qclass.lemma_code_from_code();
    let ccu = cc as u16;
    assert(cc <= 255);
    assert(ccu & 0x7FFF == ccu && ccu & 0x8000 == 0) by (bit_vector)
        requires
            ccu <= 255,
    ;
}

/// An RDATA field written at `rd` parses back to itself under its own
/// record type.
pub proof fn lemma_enc_rdata_parses(data: Seq<u8>, rd: int, d: RRDataV)
    requires
        crate::rrdata::wf_rrdatav(d),
        rrdata_bytes(d).len() <= 65535,
        0 <= rd,
        rd + rrdata_bytes(d).len() <= data.len(),
        data.subrange(rd, rd + rrdata_bytes(d).len()) == rrdata_bytes(d),
    ensures
        spec_parse_rrdata(data, rrdata_typ(d), rd, rrdata_bytes(d).len() as int) == Ok::<
            RRDataV,
            Error,
        >(d),
{
    let b = rrdata_bytes(d);
    let rdlen = b.len() as int;
    lemma_subrange_index(data, rd, b);
    match d {
        RRDataV::CNAME(n) => {
            assert(data.subrange(rd, rd + n.len()) =~= n);
            lemma_scan_literal(data, rd, rd + rdlen, rd, n);
        },
        RRDataV::NS(n) => {
            assert(data.subrange(rd, rd + n.len()) =~= n);
            lemma_scan_literal(data, rd, rd + rdlen, rd, n);
        },
        RRDataV::PTR(n) => {
            assert(data.subrange(rd, rd + n.len()) =~= n);
            lemma_scan_literal(data, rd, rd + rdlen, rd, n);
        },
        RRDataV::A(o) => {
            assert(data.subrange(rd, rd + 4) =~= o);
        },
        RRDataV::AAAA(s) => {
            assert(rdlen == 16);
            assert forall|j: int| 0 <= j < 8 implies be16_at(data, rd + 2 * j) as u16 == s[j] by {
                assert(data[rd + 2 * j] == b[2 * j] && data[rd + 2 * j + 1] == b[2 * j + 1]);
                assert(b[2 * j] == (s[j] / 256) as u8 && b[2 * j + 1] == (s[j] % 256) as u8);
            }
            assert(Seq::new(8, |j: int| be16_at(data, rd + 2 * j) as u16) =~= s);
        },
        RRDataV::SRV { priority, weight, port, target } => {
            lemma_be16_roundtrip(priority);
            lemma_be16_roundtrip(weight);
            lemma_be16_roundtrip(port);
            assert(b[0] == (priority / 256) as u8 && b[1] == (priority % 256) as u8);
            assert(b[2] == (weight / 256) as u8 && b[3] == (weight % 256) as u8);
            assert(b[4] == (port / 256) as u8 && b[5] == (port % 256) as u8);
            assert(be16_at(data, rd) == priority);
            assert(be16_at(data, rd + 2) == weight);
            assert(be16_at(data, rd + 4) == port);
            assert(forall|j: int| 0 <= j < target.len() ==> b[6 + j] == #[trigger] target[j]);
            assert(data.subrange(rd + 6, rd + 6 + target.len()) =~= target);
            lemma_scan_literal(data, rd + 6, rd + rdlen, rd + 6, target);
        },
        RRDataV::MX { preference, exchange } => {
            lemma_be16_roundtrip(preference);
            assert(b[0] == (preference / 256) as u8 && b[1] == (preference % 256) as u8);
            assert(be16_at(data, rd) == preference);
            assert(forall|j: int| 0 <= j < exchange.len() ==> b[2 + j] == #[trigger] exchange[j]);
            assert(data.subrange(rd + 2, rd + 2 + exchange.len()) =~= exchange);
            lemma_scan_literal(data, rd + 2, rd + rdlen, rd + 2, exchange);
        },
        RRDataV::TXT(t) => {
            assert(data.subrange(rd, rd + rdlen) =~= t);
        },
        RRDataV::Unknown { typ, data: t } => {
            assert(data.subrange(rd, rd + rdlen) =~= t);
        },
    }
}

/// A record written at `pos` parses back to itself.
pub proof fn lemma_enc_record_parses(data: Seq<u8>, pos: int, r: RecordV)
    requires
        wf_enc_recordv(r),
        0 <= pos,
        pos + enc_record(r).len() <= data.len(),
        data.subrange(pos, pos + enc_record(r).len()) == enc_record(r),
    ensures
        spec_parse_record(data, pos) == Ok::<(RecordV, int), Error>(
            (r, enc_record(r).len() as int),
        ),
{
    let e = enc_record(r);
    let nl = r.name.len() as int;
    let rdb = rrdata_bytes(r.data);
    let rdlen = rdb.len() as int;
    lemma_subrange_index(data, pos, e);
    assert(data.subrange(pos, pos + nl) =~= r.name);
    lemma_scan_literal(data, pos, data.len() as int, pos, r.name);
    let o = pos + nl;
    let tc = rrdata_typ(r.data).spec_code();
    let cc = r.cls.spec_code();
    assert(e[nl] == (tc / 256) as u8 && e[nl + 1] == (tc % 256) as u8);
    assert(e[nl + 2] == (cc / 256) as u8 && e[nl + 3] == (cc % 256) as u8);
    lemma_be16_roundtrip(tc);
    lemma_be16_roundtrip(cc);
    assert(be16_at(data, o) == tc);
    assert(be16_at(data, o + 2) == cc);
    rrdata_typ(r.data).lemma_code_from_code();
    r.cls.lemma_code_from_code();
    let ccu = cc as u16;
    assert(cc <= 4);
    assert(ccu & 0x7FFF == ccu) by (bit_vector)
        requires
            ccu <= 4,
    ;
    assert(e[nl + 4] == (r.ttl / 0x1000000) as u8);
    assert(e[nl + 5] == ((r.ttl / 0x10000) % 256) as u8);
    assert(e[nl + 6] == ((r.ttl / 0x100) % 256) as u8);
    assert(e[nl + 7] == (r.ttl % 256) as u8);
    lemma_be32_roundtrip(r.ttl);
    assert(be32_at(data, o + 4) == r.ttl);
    let rlu = rdlen as u16;
    assert(e[nl + 8] == (rlu / 256) as u8 && e[nl + 9] == (rlu % 256) as u8);
    lemma_be16_roundtrip(rlu);
    assert(be16_at(data, o + 8) == rdlen);
    let rd = o + 10;
    assert(forall|j: int| 0 <= j < rdlen ==> e[nl + 10 + j] == #[trigger] rdb[j]);
    assert(data.subrange(rd, rd + rdlen) =~= rdb);
    lemma_enc_rdata_parses(data, rd, r.data);
}

/// A run of questions written at `pos` parses back to itself.
pub proof fn lemma_enc_questions_parse(data: Seq<u8>, pos: int, qs: Seq<QuestionV>)
    requires
        forall|i: int| 0 <= i < qs.len() ==> wf_questionv(#[trigger] qs[i]) && !qs[i].qu,
        0 <= pos,
        pos + enc_questions(qs).len() <= data.len(),
        data.subrange(pos, pos + enc_questions(qs).len()) == enc_questions(qs),
    ensures
        spec_parse_questions(data, pos, qs.len() as int) == Ok::<(Seq<QuestionV>, int), Error>(
            (qs, enc_questions(qs).len() as int),
        ),
    decreases qs.len(),
{
    if qs.len() == 0 {
        assert(qs =~= Seq::<QuestionV>::empty());
    } else {
        let e = enc_questions(qs);
        let e0 = enc_question(qs[0]);
        let tail = qs.subrange(1, qs.len() as int);
        let et = enc_questions(tail);
        assert(e == e0 + et);
        lemma_subrange_index(data, pos, e);
        assert(forall|j: int| 0 <= j < e0.len() ==> e[j] == #[trigger] e0[j]);
        assert(data.subrange(pos, pos + e0.len()) =~= e0);
        lemma_enc_question_parses(data, pos, qs[0]);
        assert(forall|j: int| 0 <= j < et.len() ==> e[e0.len() + j] == #[trigger] et[j]);
        assert(data.subrange(pos + e0.len(), pos + e0.len() + et.len()) =~= et);
        lemma_enc_questions_parse(data, pos + e0.len(), tail);
        assert(seq![qs[0]] + tail =~= qs);
    }
}

/// A run of records written at `pos` parses back to itself.
pub proof fn lemma_enc_records_parse(data: Seq<u8>, pos: int, rs: Seq<RecordV>)
    requires
        forall|i: int| 0 <= i < rs.len() ==> wf_enc_recordv(#[trigger] rs[i]),
        0 <= pos,
        pos + enc_records(rs).len() <= data.len(),
        data.subrange(pos, pos + enc_records(rs).len()) == enc_records(rs),
    ensures
        spec_parse_records(data, pos, rs.len() as int) == Ok::<(Seq<RecordV>, int), Error>(
            (rs, enc_records(rs).len() as int),
        ),
    decreases rs.len(),
{
    if rs.len() == 0 {
        assert(rs =~= Seq::<RecordV>::empty());
    } else {
        let e = enc_records(rs);
        let e0 = enc_record(rs[0]);
        let tail = rs.subrange(1, rs.len() as int);
        let et = enc_records(tail);
        assert(e == e0 + et);
        lemma_subrange_index(data, pos, e);
        assert(forall|j: int| 0 <= j < e0.len() ==> e[j] == #[trigger] e0[j]);
        assert(data.subrange(pos, pos + e0.len()) =~= e0);
        lemma_enc_record_parses(data, pos, rs[0]);
        assert(forall|j: int| 0 <= j < et.len() ==> e[e0.len() + j] == #[trigger] et[j]);
        assert(data.subrange(pos + e0.len(), pos + e0.len() + et.len()) =~= et);
        lemma_enc_records_parse(data, pos + e0.len(), tail);
        assert(seq![rs[0]] + tail =~= rs);
    }
}

/// Round trip of the whole codec: a message encoded with correct counts
/// parses back to exactly the same header (counts included), questions,
/// answers and nameserver records; the additional section is left for
/// the consumer and comes back empty.
#[verifier::rlimit(100)]
pub proof fn lemma_packet_roundtrip(
    h: Header,
    qs: Seq<QuestionV>,
    ans: Seq<RecordV>,
    ns: Seq<RecordV>,
    adds: Seq<RecordV>,
    data: Seq<u8>,
)
    requires
        h.wf(),
        h.questions == qs.len(),
        h.answers == ans.len(),
        h.nameservers == ns.len(),
        h.additional == adds.len(),
        forall|i: int| 0 <= i < qs.len() ==> wf_questionv(#[trigger] qs[i]) && !qs[i].qu,
        forall|i: int| 0 <= i < ans.len() ==> wf_enc_recordv(#[trigger] ans[i]),
        forall|i: int| 0 <= i < ns.len() ==> wf_enc_recordv(#[trigger] ns[i]),
        forall|i: int| 0 <= i < adds.len() ==> wf_enc_recordv(#[trigger] adds[i]),
        data == enc_packet(h, qs, ans, ns, adds),
    ensures
        spec_parse_packet(data) == Ok::<PacketV, Error>(
            PacketV {
                header: h,
                questions: qs,
                answers: ans,
                nameservers: ns,
                additional: Seq::empty(),
            },
        ),
{
    let hb = h.spec_bytes();
    let eq = enc_questions(qs);
    let ea = enc_records(ans);
    let en = enc_records(ns);
    let ed = enc_records(adds);
    assert(data.len() == 12 + eq.len() + ea.len() + en.len() + ed.len());
    assert(data.subrange(0, 12) =~= hb);
    crate::header::lemma_header_roundtrip(h, data);
    assert(data.subrange(12, 12 + eq.len() as int) =~= eq);
    lemma_enc_questions_parse(data, 12, qs);
    let p2 = 12 + eq.len() as int;
    assert(data.subrange(p2, p2 + ea.len() as int) =~= ea);
    lemma_enc_records_parse(data, p2, ans);
    let p3 = p2 + ea.len() as int;
    assert(data.subrange(p3, p3 + en.len() as int) =~= en);
    lemma_enc_records_parse(data, p3, ns);
}

} // verus!
