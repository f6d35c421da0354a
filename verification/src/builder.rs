//! Building an outbound message: a section-ordered accumulator over a
//! growing byte buffer. The builder carries a ghost copy of everything
//! appended, and its invariant ties the buffer bytes to that model
//! exactly, so the header counts can never drift from the records
//! actually written.

use vstd::prelude::*;

use crate::bytes::{be16_at, be16_bytes, be32_bytes, push_u16_be, push_u32_be, set_u16_be};
use crate::enums::{Opcode, QueryClass, QueryType, ResponseCode};
use crate::header::Header;
use crate::name::Name;
use crate::rrdata::{rrdata_bytes, rrdata_typ, RRData};
use crate::error::Error;
use crate::parser::spec_parse_packet;
use crate::structs::{wf_questionv, wf_recordv, PacketV, QuestionV, RecordV};

verus! {

/// The four sections of a message, in wire order. The builder moves only
/// forward through them.
#[derive(Debug, PartialEq, Eq, Clone, Copy, Structural)]
pub enum Section {
    Questions,
    Answers,
    Nameservers,
    Additional,
}

/// The position of a section in wire order.
pub open spec fn section_rank(s: Section) -> int {
    match s {
        Section::Questions => 0,
        Section::Answers => 1,
        Section::Nameservers => 2,
        Section::Additional => 3,
    }
}

/// The wire bytes of one question.
pub open spec fn enc_question(q: QuestionV) -> Seq<u8> {
    q.qname + be16_bytes(q.qtype.spec_code()) + be16_bytes(q.qclass.spec_code())
}

/// The wire bytes of one resource record, its RDATA length field filled
/// with the actual payload size.
pub open spec fn enc_record(r: RecordV) -> Seq<u8> {
    r.name + be16_bytes(rrdata_typ(r.data).spec_code()) + be16_bytes(r.cls.spec_code())
        + be32_bytes(r.ttl) + be16_bytes(rrdata_bytes(r.data).len() as u16) + rrdata_bytes(r.data)
}

/// The wire bytes of a run of questions.
pub open spec fn enc_questions(qs: Seq<QuestionV>) -> Seq<u8>
    decreases qs.len(),
{
    if qs.len() == 0 {
        Seq::empty()
    } else {
        enc_question(qs[0]) + enc_questions(qs.subrange(1, qs.len() as int))
    }
}

/// The wire bytes of a run of resource records.
pub open spec fn enc_records(rs: Seq<RecordV>) -> Seq<u8>
    decreases rs.len(),
{
    if rs.len() == 0 {
        Seq::empty()
    } else {
        enc_record(rs[0]) + enc_records(rs.subrange(1, rs.len() as int))
    }
}

/// Appending one question extends the encoding at its tail.
pub proof fn lemma_enc_questions_push(qs: Seq<QuestionV>, q: QuestionV)
    ensures
        enc_questions(qs.push(q)) == enc_questions(qs) + enc_question(q),
    decreases qs.len(),
{
    if qs.len() == 0 {
        assert(qs.push(q)[0] == q);
        assert(qs.push(q).subrange(1, qs.push(q).len() as int) =~= Seq::<QuestionV>::empty());
        assert(enc_questions(Seq::<QuestionV>::empty()) =~= Seq::<u8>::empty());
        assert(enc_questions(qs.push(q)) =~= enc_questions(qs) + enc_question(q));
    } else {
        let tail = qs.subrange(1, qs.len() as int);
        lemma_enc_questions_push(tail, q);
        assert(qs.push(q).subrange(1, qs.push(q).len() as int) =~= tail.push(q));
        assert(qs.push(q)[0] == qs[0]);
        assert(enc_questions(qs.push(q)) =~= enc_questions(qs) + enc_question(q));
    }
}

/// Appending one record extends the encoding at its tail.
pub proof fn lemma_enc_records_push(rs: Seq<RecordV>, r: RecordV)
    ensures
        enc_records(rs.push(r)) == enc_records(rs) + enc_record(r),
    decreases rs.len(),
{
    if rs.len() == 0 {
        assert(rs.push(r)[0] == r);
        assert(rs.push(r).subrange(1, rs.push(r).len() as int) =~= Seq::<RecordV>::empty());
        assert(enc_records(Seq::<RecordV>::empty()) =~= Seq::<u8>::empty());
        assert(enc_records(rs.push(r)) =~= enc_records(rs) + enc_record(r));
    } else {
        let tail = rs.subrange(1, rs.len() as int);
        lemma_enc_records_push(tail, r);
        assert(rs.push(r).subrange(1, rs.push(r).len() as int) =~= tail.push(r));
        assert(rs.push(r)[0] == rs[0]);
        assert(enc_records(rs.push(r)) =~= enc_records(rs) + enc_record(r));
    }
}

/// The whole message: header, then the four sections in wire order.
pub open spec fn enc_packet(
    h: Header,
    qs: Seq<QuestionV>,
    ans: Seq<RecordV>,
    ns: Seq<RecordV>,
    adds: Seq<RecordV>,
) -> Seq<u8> {
    h.spec_bytes() + enc_questions(qs) + enc_records(ans) + enc_records(ns) + enc_records(adds)
}

/// A message under construction.
pub struct Builder {
    buf: Vec<u8>,
    max_size: Option<usize>,
    section: Section,
    base: Ghost<Header>,
    questions: Ghost<Seq<QuestionV>>,
    answers: Ghost<Seq<RecordV>>,
    nameservers: Ghost<Seq<RecordV>>,
    additional: Ghost<Seq<RecordV>>,
}

impl Builder {
    /// The header the buffer currently carries: the base fields chosen at
    /// construction, with the counts of what has been appended since.
    pub closed spec fn spec_header(self) -> Header {
        Header {
            questions: self.questions@.len() as u16,
            answers: self.answers@.len() as u16,
            nameservers: self.nameservers@.len() as u16,
            additional: self.additional@.len() as u16,
            ..self.base@
        }
    }

    /// The questions appended so far.
    pub closed spec fn spec_questions(self) -> Seq<QuestionV> {
        self.questions@
    }

    /// The answer records appended so far.
    pub closed spec fn spec_answers(self) -> Seq<RecordV> {
        self.answers@
    }

    /// The nameserver records appended so far.
    pub closed spec fn spec_nameservers(self) -> Seq<RecordV> {
        self.nameservers@
    }

    /// The additional records appended so far.
    pub closed spec fn spec_additional(self) -> Seq<RecordV> {
        self.additional@
    }

    /// The section the builder stands in.
    pub closed spec fn spec_section(self) -> Section {
        self.section
    }

    /// The configured maximum datagram size, if any.
    pub closed spec fn spec_max_size(self) -> Option<usize> {
        self.max_size
    }

    /// The bytes written so far.
    pub closed spec fn spec_bytes(self) -> Seq<u8> {
        self.buf@
    }

    /// The builder's invariant: the base header is well-formed and not
    /// pre-truncated, every appended entry is well-formed and encodable,
    /// sections not yet reached are empty, the section counts fit their
    /// 16-bit fields, and the buffer holds exactly the encoding of the
    /// model.
    pub closed spec fn wf(self) -> bool {
        &&& self.base@.wf()
        &&& !self.base@.truncated
        &&& self.questions@.len() <= 65535
        &&& self.answers@.len() <= 65535
        &&& self.nameservers@.len() <= 65535
        &&& self.additional@.len() <= 65535
        &&& (forall|i: int|
            0 <= i < self.questions@.len() ==> wf_questionv(#[trigger] self.questions@[i])
                && !self.questions@[i].qu)
        &&& (forall|i: int| 0 <= i < self.answers@.len() ==> wf_enc_recordv(#[trigger] self.answers@[i]))
        &&& (forall|i: int|
            0 <= i < self.nameservers@.len() ==> wf_enc_recordv(#[trigger] self.nameservers@[i]))
        &&& (forall|i: int|
            0 <= i < self.additional@.len() ==> wf_enc_recordv(#[trigger] self.additional@[i]))
        &&& (section_rank(self.section) < 1 ==> self.answers@.len() == 0)
        &&& (section_rank(self.section) < 2 ==> self.nameservers@.len() == 0)
        &&& (section_rank(self.section) < 3 ==> self.additional@.len() == 0)
        &&& self.buf@ == enc_packet(
            self.spec_header(),
            self.questions@,
            self.answers@,
            self.nameservers@,
            self.additional@,
        )
    }

    /// Starts a fresh query message: all sections empty, the standard
    /// query opcode, and a 512-byte size cap.
    pub fn new_query(id: u16, recursion: bool) -> (r: Builder)
        ensures
            r.wf(),
            r.spec_questions() == Seq::<QuestionV>::empty(),
            r.spec_answers() == Seq::<RecordV>::empty(),
            r.spec_nameservers() == Seq::<RecordV>::empty(),
            r.spec_additional() == Seq::<RecordV>::empty(),
            r.spec_section() == Section::Questions,
            r.spec_max_size() == Some(512usize),
            r.spec_header() == (Header {
                id,
                query: true,
                opcode: Opcode::StandardQuery,
                authoritative: false,
                truncated: false,
                recursion_desired: recursion,
                recursion_available: false,
                response_code: ResponseCode::NoError,
                questions: 0,
                answers: 0,
                nameservers: 0,
                additional: 0,
            }),
    {
        Builder::start(id, true, recursion, false, Some(512))
    }

    /// Starts a fresh response message: all sections empty, no size cap
    /// decided yet (a 512-byte cap until `set_max_size` lifts it).
    pub fn new_response(id: u16, recursion: bool, authoritative: bool) -> (r: Builder)
        ensures
            r.wf(),
            r.spec_questions() == Seq::<QuestionV>::empty(),
            r.spec_answers() == Seq::<RecordV>::empty(),
            r.spec_nameservers() == Seq::<RecordV>::empty(),
            r.spec_additional() == Seq::<RecordV>::empty(),
            r.spec_section() == Section::Questions,
            r.spec_max_size() == Some(512usize),
            r.spec_header() == (Header {
                id,
                query: false,
                opcode: Opcode::StandardQuery,
                authoritative,
                truncated: false,
                recursion_desired: recursion,
                recursion_available: false,
                response_code: ResponseCode::NoError,
                questions: 0,
                answers: 0,
                nameservers: 0,
                additional: 0,
            }),
    {
        Builder::start(id, false, recursion, authoritative, Some(512))
    }

    /// Writes the 12-byte header of an empty message.
    fn start(id: u16, query: bool, recursion: bool, authoritative: bool, max_size: Option<usize>)
        -> (r: Builder)
        ensures
            r.wf(),
            r.spec_questions() == Seq::<QuestionV>::empty(),
            r.spec_answers() == Seq::<RecordV>::empty(),
            r.spec_nameservers() == Seq::<RecordV>::empty(),
            r.spec_additional() == Seq::<RecordV>::empty(),
            r.spec_section() == Section::Questions,
            r.spec_max_size() == max_size,
            r.spec_header() == (Header {
                id,
                query,
                opcode: Opcode::StandardQuery,
                authoritative,
                truncated: false,
                recursion_desired: recursion,
                recursion_available: false,
                response_code: ResponseCode::NoError,
                questions: 0,
                answers: 0,
                nameservers: 0,
                additional: 0,
            }),
    {
        let head = Header {
            id,
            query,
            opcode: Opcode::StandardQuery,
            authoritative,
            truncated: false,
            recursion_desired: recursion,
            recursion_available: false,
            response_code: ResponseCode::NoError,
            questions: 0,
            answers: 0,
            nameservers: 0,
            additional: 0,
        };
        let mut buf: Vec<u8> = Vec::new();
        head.write(&mut buf);
        let r = Builder {
            buf,
            max_size,
            section: Section::Questions,
            base: Ghost(head),
            questions: Ghost(Seq::empty()),
            answers: Ghost(Seq::empty()),
            nameservers: Ghost(Seq::empty()),
            additional: Ghost(Seq::empty()),
        };
        proof {
            assert(r.spec_header() == head);
            assert(r.buf@ =~= enc_packet(
                r.spec_header(),
                Seq::empty(),
                Seq::empty(),
                Seq::empty(),
                Seq::empty(),
            ));
        }
        r
    }

    /// Moves forward to a later (or the same) section.
    pub fn move_to(&mut self, next: Section)
        requires
            old(self).wf(),
            section_rank(old(self).spec_section()) <= section_rank(next),
        ensures
            final(self).wf(),
            final(self).spec_section() == next,
            final(self).spec_header() == old(self).spec_header(),
            final(self).spec_questions() == old(self).spec_questions(),
            final(self).spec_answers() == old(self).spec_answers(),
            final(self).spec_nameservers() == old(self).spec_nameservers(),
            final(self).spec_additional() == old(self).spec_additional(),
            final(self).spec_max_size() == old(self).spec_max_size(),
            final(self).spec_bytes() == old(self).spec_bytes(),
    {
        self.section = next;
    }

    /// Chooses or lifts the maximum datagram size checked by `build`.
    pub fn set_max_size(&mut self, max_size: Option<usize>)
        requires
            old(self).wf(),
        ensures
            final(self).wf(),
            final(self).spec_max_size() == max_size,
            final(self).spec_section() == old(self).spec_section(),
            final(self).spec_header() == old(self).spec_header(),
            final(self).spec_questions() == old(self).spec_questions(),
            final(self).spec_answers() == old(self).spec_answers(),
            final(self).spec_nameservers() == old(self).spec_nameservers(),
            final(self).spec_additional() == old(self).spec_additional(),
            final(self).spec_bytes() == old(self).spec_bytes(),
    {
        self.max_size = max_size;
    }

    /// True exactly when nothing has been appended to any section.
    pub fn is_empty(&self) -> (r: bool)
        requires
            self.wf(),
        ensures
            r == (self.spec_questions().len() == 0 && self.spec_answers().len() == 0
                && self.spec_nameservers().len() == 0 && self.spec_additional().len() == 0),
    {
        proof {
            assert(self.buf@.len() >= 12) by {
                assert(self.buf@ == enc_packet(
                    self.spec_header(),
                    self.questions@,
                    self.answers@,
                    self.nameservers@,
                    self.additional@,
                ));
            }
            lemma_counts_in_place(*self);
        }
        Header::question_count(self.buf.as_slice()) == 0 && Header::answer_count(
            self.buf.as_slice(),
        ) == 0 && Header::nameserver_count(self.buf.as_slice()) == 0 && Header::additional_count(
            self.buf.as_slice(),
        ) == 0
    }

    /// Appends one question and counts it.
    #[verifier::rlimit(100)]
    pub fn add_question(&mut self, qname: &Name, qtype: QueryType, qclass: QueryClass)
        requires
            old(self).wf(),
            old(self).spec_section() == Section::Questions,
            qname.wf(),
            old(self).spec_questions().len() < 65535,
        ensures
            final(self).wf(),
            final(self).spec_section() == Section::Questions,
            final(self).spec_questions() == old(self).spec_questions().push(
                QuestionV { qname: qname@, qtype, qclass, qu: false },
            ),
            final(self).spec_answers() == old(self).spec_answers(),
            final(self).spec_nameservers() == old(self).spec_nameservers(),
            final(self).spec_additional() == old(self).spec_additional(),
            final(self).spec_max_size() == old(self).spec_max_size(),
            final(self).spec_header() == (Header {
                questions: (old(self).spec_questions().len() + 1) as u16,
                ..old(self).spec_header()
            }),
    {
        let ghost q = QuestionV { qname: qname@, qtype, qclass, qu: false };
        let ghost h0 = self.spec_header();
        let ghost qs0 = self.questions@;
        let ghost buf0 = self.buf@;
        proof {
            assert(enc_records(self.answers@) =~= Seq::<u8>::empty());
            assert(enc_records(self.nameservers@) =~= Seq::<u8>::empty());
            assert(enc_records(self.additional@) =~= Seq::<u8>::empty());
            assert(buf0 =~= h0.spec_bytes() + enc_questions(qs0));
        }
        qname.write_to(&mut self.buf);
        push_u16_be(&mut self.buf, qtype.code());
        push_u16_be(&mut self.buf, qclass.code());
        proof {
            assert(self.buf@ =~= h0.spec_bytes() + enc_questions(qs0) + enc_question(q));
            assert(self.buf@.len() >= 12);
            assert(forall|j: int| 0 <= j < 12 ==> self.buf@[j] == #[trigger] h0.spec_bytes()[j]);
            assert(be16_at(self.buf@, 4) == h0.questions);
        }
        let _ = Header::inc_questions(&mut self.buf);
        proof {
            self.questions@ = qs0.push(q);
            lemma_enc_questions_push(qs0, q);
            let h1 = self.spec_header();
            assert(h1 == Header { questions: (qs0.len() + 1) as u16, ..h0 });
            assert(h1.spec_flags() == h0.spec_flags());
            let pre = h0.spec_bytes() + enc_questions(qs0) + enc_question(q);
            let hi = be16_bytes((qs0.len() + 1) as u16)[0];
            let lo = be16_bytes((qs0.len() + 1) as u16)[1];
            assert(self.buf@ == pre.update(4, hi).update(5, lo));
            assert(self.buf@ =~= h1.spec_bytes() + enc_questions(qs0.push(q)));
            assert(enc_records(self.answers@) =~= Seq::<u8>::empty());
            assert(enc_records(self.nameservers@) =~= Seq::<u8>::empty());
            assert(enc_records(self.additional@) =~= Seq::<u8>::empty());
            assert(self.buf@ =~= enc_packet(
                h1,
                self.questions@,
                self.answers@,
                self.nameservers@,
                self.additional@,
            ));
        }
    }

    /// Appends one answer record and counts it.
    #[verifier::rlimit(100)]
    pub fn add_answer(&mut self, name: &Name, cls: QueryClass, ttl: u32, data: &RRData)
        requires
            old(self).wf(),
            section_rank(old(self).spec_section()) <= 1,
            name.wf(),
            data.wf(),
            cls.spec_as_class() is Some,
            ttl <= 0x7FFFFFFF,
            rrdata_bytes(data@).len() <= 65535,
            old(self).spec_answers().len() < 65535,
        ensures
            final(self).wf(),
            final(self).spec_section() == Section::Answers,
            final(self).spec_answers() == old(self).spec_answers().push(
                RecordV { name: name@, cls: cls.spec_as_class().unwrap(), ttl, data: data@ },
            ),
            final(self).spec_questions() == old(self).spec_questions(),
            final(self).spec_nameservers() == old(self).spec_nameservers(),
            final(self).spec_additional() == old(self).spec_additional(),
            final(self).spec_max_size() == old(self).spec_max_size(),
            final(self).spec_header() == (Header {
                answers: (old(self).spec_answers().len() + 1) as u16,
                ..old(self).spec_header()
            }),
    {
        let ghost rec = RecordV { name: name@, cls: cls.spec_as_class().unwrap(), ttl, data: data@ };
        let ghost h0 = self.spec_header();
        let ghost qs0 = self.questions@;
        let ghost ans0 = self.answers@;
        self.section = Section::Answers;
        proof {
            assert(enc_records(self.nameservers@) =~= Seq::<u8>::empty());
            assert(enc_records(self.additional@) =~= Seq::<u8>::empty());
            assert(self.buf@ =~= h0.spec_bytes() + enc_questions(qs0) + enc_records(ans0));
        }
        write_rr(&mut self.buf, name, cls, ttl, data);
        proof {
            assert(self.buf@ =~= h0.spec_bytes() + enc_questions(qs0) + enc_records(ans0)
                + enc_record(rec));
            assert(self.buf@.len() >= 12);
            assert(forall|j: int| 0 <= j < 12 ==> self.buf@[j] == #[trigger] h0.spec_bytes()[j]);
            assert(be16_at(self.buf@, 6) == h0.answers);
        }
        let _ = Header::inc_answers(&mut self.buf);
        proof {
            self.answers@ = ans0.push(rec);
            lemma_enc_records_push(ans0, rec);
            let h1 = self.spec_header();
            assert(h1 == Header { answers: (ans0.len() + 1) as u16, ..h0 });
            assert(h1.spec_flags() == h0.spec_flags());
            assert(self.buf@ =~= h1.spec_bytes() + enc_questions(qs0) + enc_records(
                ans0.push(rec),
            ));
            assert(enc_records(self.nameservers@) =~= Seq::<u8>::empty());
            assert(enc_records(self.additional@) =~= Seq::<u8>::empty());
            assert(self.buf@ =~= enc_packet(
                h1,
                self.questions@,
                self.answers@,
                self.nameservers@,
                self.additional@,
            ));
        }
    }

    /// Appends one nameserver record and counts it.
    #[verifier::rlimit(100)]
    pub fn add_nameserver(&mut self, name: &Name, cls: QueryClass, ttl: u32, data: &RRData)
        requires
            old(self).wf(),
            section_rank(old(self).spec_section()) <= 2,
            name.wf(),
            data.wf(),
            cls.spec_as_class() is Some,
            ttl <= 0x7FFFFFFF,
            rrdata_bytes(data@).len() <= 65535,
            old(self).spec_nameservers().len() < 65535,
        ensures
            final(self).wf(),
            final(self).spec_section() == Section::Nameservers,
            final(self).spec_nameservers() == old(self).spec_nameservers().push(
                RecordV { name: name@, cls: cls.spec_as_class().unwrap(), ttl, data: data@ },
            ),
            final(self).spec_questions() == old(self).spec_questions(),
            final(self).spec_answers() == old(self).spec_answers(),
            final(self).spec_additional() == old(self).spec_additional(),
            final(self).spec_max_size() == old(self).spec_max_size(),
            final(self).spec_header() == (Header {
                nameservers: (old(self).spec_nameservers().len() + 1) as u16,
                ..old(self).spec_header()
            }),
    {
        let ghost rec = RecordV { name: name@, cls: cls.spec_as_class().unwrap(), ttl, data: data@ };
        let ghost h0 = self.spec_header();
        let ghost qs0 = self.questions@;
        let ghost ans0 = self.answers@;
        let ghost ns0 = self.nameservers@;
        self.section = Section::Nameservers;
        proof {
            assert(enc_records(self.additional@) =~= Seq::<u8>::empty());
            assert(self.buf@ =~= h0.spec_bytes() + enc_questions(qs0) + enc_records(ans0)
                + enc_records(ns0));
        }
        write_rr(&mut self.buf, name, cls, ttl, data);
        proof {
            assert(self.buf@ =~= h0.spec_bytes() + enc_questions(qs0) + enc_records(ans0)
                + enc_records(ns0) + enc_record(rec));
            assert(self.buf@.len() >= 12);
            assert(forall|j: int| 0 <= j < 12 ==> self.buf@[j] == #[trigger] h0.spec_bytes()[j]);
            assert(be16_at(self.buf@, 8) == h0.nameservers);
        }
        let _ = Header::inc_nameservers(&mut self.buf);
        proof {
            self.nameservers@ = ns0.push(rec);
            lemma_enc_records_push(ns0, rec);
            let h1 = self.spec_header();
            assert(h1 == Header { nameservers: (ns0.len() + 1) as u16, ..h0 });
            assert(h1.spec_flags() == h0.spec_flags());
            assert(self.buf@ =~= h1.spec_bytes() + enc_questions(qs0) + enc_records(ans0)
                + enc_records(ns0.push(rec)));
            assert(enc_records(self.additional@) =~= Seq::<u8>::empty());
            assert(self.buf@ =~= enc_packet(
                h1,
                self.questions@,
                self.answers@,
                self.nameservers@,
                self.additional@,
            ));
        }
    }

    /// Appends one additional record and counts it.
    #[verifier::rlimit(100)]
    pub fn add_additional(&mut self, name: &Name, cls: QueryClass, ttl: u32, data: &RRData)
        requires
            old(self).wf(),
            name.wf(),
            data.wf(),
            cls.spec_as_class() is Some,
            ttl <= 0x7FFFFFFF,
            rrdata_bytes(data@).len() <= 65535,
            old(self).spec_additional().len() < 65535,
        ensures
            final(self).wf(),
            final(self).spec_section() == Section::Additional,
            final(self).spec_additional() == old(self).spec_additional().push(
                RecordV { name: name@, cls: cls.spec_as_class().unwrap(), ttl, data: data@ },
            ),
            final(self).spec_questions() == old(self).spec_questions(),
            final(self).spec_answers() == old(self).spec_answers(),
            final(self).spec_nameservers() == old(self).spec_nameservers(),
            final(self).spec_max_size() == old(self).spec_max_size(),
            final(self).spec_header() == (Header {
                additional: (old(self).spec_additional().len() + 1) as u16,
                ..old(self).spec_header()
            }),
    {
        let ghost rec = RecordV { name: name@, cls: cls.spec_as_class().unwrap(), ttl, data: data@ };
        let ghost h0 = self.spec_header();
        let ghost qs0 = self.questions@;
        let ghost ans0 = self.answers@;
        let ghost ns0 = self.nameservers@;
        let ghost adds0 = self.additional@;
        self.section = Section::Additional;
        proof {
            assert(self.buf@ =~= h0.spec_bytes() + enc_questions(qs0) + enc_records(ans0)
                + enc_records(ns0) + enc_records(adds0));
        }
        write_rr(&mut self.buf, name, cls, ttl, data);
        proof {
            assert(self.buf@ =~= h0.spec_bytes() + enc_questions(qs0) + enc_records(ans0)
                + enc_records(ns0) + enc_records(adds0) + enc_record(rec));
            assert(self.buf@.len() >= 12);
            assert(forall|j: int| 0 <= j < 12 ==> self.buf@[j] == #[trigger] h0.spec_bytes()[j]);
            assert(be16_at(self.buf@, 10) == h0.additional);
        }
        let ghost mid = self.buf@;
        let _ = Header::inc_additional(&mut self.buf);
        proof {
            self.additional@ = adds0.push(rec);
            let h1 = self.spec_header();
            assert(h1 == Header { additional: (adds0.len() + 1) as u16, ..h0 });
            lemma_additional_fixup(h0, h1, qs0, ans0, ns0, adds0, rec, mid, self.buf@);
        }
    }

    /// Finishes the message. With no size cap, or within it, the exact
    /// bytes written come back as `Ok`. Over the cap the same bytes come
    /// back as `Err`, with the header's truncated flag set and nothing
    /// else changed: still a fully well-formed message, and the caller
    /// decides whether to send it.
    pub fn build(self) -> (r: Result<Vec<u8>, Vec<u8>>)
        requires
            self.wf(),
        ensures
            match r {
                Ok(v) => {
                    &&& !(self.spec_max_size() matches Some(m) && self.spec_bytes().len() > m)
                    &&& v@ == self.spec_bytes()
                    &&& v@ == enc_packet(
                        self.spec_header(),
                        self.spec_questions(),
                        self.spec_answers(),
                        self.spec_nameservers(),
                        self.spec_additional(),
                    )
                    &&& spec_parse_packet(v@) == Ok::<PacketV, Error>(
                        PacketV {
                            header: self.spec_header(),
                            questions: self.spec_questions(),
                            answers: self.spec_answers(),
                            nameservers: self.spec_nameservers(),
                            additional: Seq::empty(),
                        },
                    )
                },
                Err(v) => {
                    &&& self.spec_max_size() matches Some(m) && self.spec_bytes().len() > m
                    &&& v@ == self.spec_bytes().update(2, (self.spec_bytes()[2] | 0x02) as u8)
                    &&& v@ == enc_packet(
                        Header { truncated: true, ..self.spec_header() },
                        self.spec_questions(),
                        self.spec_answers(),
                        self.spec_nameservers(),
                        self.spec_additional(),
                    )
                    &&& spec_parse_packet(v@) == Ok::<PacketV, Error>(
                        PacketV {
                            header: Header { truncated: true, ..self.spec_header() },
                            questions: self.spec_questions(),
                            answers: self.spec_answers(),
                            nameservers: self.spec_nameservers(),
                            additional: Seq::empty(),
                        },
                    )
                },
            },
    {
        let over = match self.max_size {
            Some(m) => self.buf.len() > m,
            None => false,
        };
        proof {
            assert(self.buf@.len() >= 12) by {
                assert(self.buf@ == enc_packet(
                    self.spec_header(),
                    self.questions@,
                    self.answers@,
                    self.nameservers@,
                    self.additional@,
                ));
            }
            crate::roundtrip::lemma_packet_roundtrip(
                self.spec_header(),
                self.questions@,
                self.answers@,
                self.nameservers@,
                self.additional@,
                self.buf@,
            );
            lemma_truncate_fixup(
                self.spec_header(),
                self.questions@,
                self.answers@,
                self.nameservers@,
                self.additional@,
                self.buf@,
            );
            crate::roundtrip::lemma_packet_roundtrip(
                Header { truncated: true, ..self.spec_header() },
                self.questions@,
                self.answers@,
                self.nameservers@,
                self.additional@,
                self.buf@.update(2, (self.buf@[2] | 0x02) as u8),
            );
        }
        let Builder { buf: mut b, .. } = self;
        if over {
            Header::set_truncated(&mut b);
            Err(b)
        } else {
            Ok(b)
        }
    }
}

/// Writes one resource record: name, type and class codes, TTL, then the
/// RDATA with its true length patched into the length field.
#[verifier::rlimit(100)]
fn write_rr(buf: &mut Vec<u8>, name: &Name, cls: QueryClass, ttl: u32, data: &RRData)
    requires
        name.wf(),
        cls.spec_as_class() is Some,
        rrdata_bytes(data@).len() <= 65535,
    ensures
        final(buf)@ == old(buf)@ + enc_record(
            RecordV { name: name@, cls: cls.spec_as_class().unwrap(), ttl, data: data@ },
        ),
{
    let ghost rec = RecordV { name: name@, cls: cls.spec_as_class().unwrap(), ttl, data: data@ };
    let ghost buf0 = old(buf)@;
    name.write_to(buf);
    push_u16_be(buf, data.typ().code());
    push_u16_be(buf, cls.code());
    push_u32_be(buf, ttl);
    let size_offset = buf.len();
    push_u16_be(buf, 0);
    let data_offset = buf.len();
    data.write_to(buf);
    let dlen = buf.len() - data_offset;
    proof {
        assert(dlen == rrdata_bytes(data@).len());
        assert(cls.spec_as_class().unwrap().spec_code() == cls.spec_code());
    }
    set_u16_be(buf, size_offset, dlen as u16);
    proof {
        assert(buf@ =~= buf0 + enc_record(rec));
    }
}

/// Well-formed and encodable record: its names and payload are
/// well-formed, its TTL non-negative as a signed value, and its RDATA
/// fits the 16-bit length field.
pub open spec fn wf_enc_recordv(r: RecordV) -> bool {
    &&& wf_recordv(r)
    &&& rrdata_bytes(r.data).len() <= 65535
}

/// The count fields of the written header sit at their fixed offsets.
proof fn lemma_counts_in_place(b: Builder)
    requires
        b.wf(),
    ensures
        b.spec_bytes().len() >= 12,
        be16_at(b.spec_bytes(), 4) == b.spec_questions().len(),
        be16_at(b.spec_bytes(), 6) == b.spec_answers().len(),
        be16_at(b.spec_bytes(), 8) == b.spec_nameservers().len(),
        be16_at(b.spec_bytes(), 10) == b.spec_additional().len(),
{
    let h = b.spec_header();
    let bytes = b.spec_bytes();
    assert(forall|j: int| 0 <= j < 12 ==> bytes[j] == #[trigger] h.spec_bytes()[j]);
    assert(h.questions == b.spec_questions().len());
    assert(be16_at(bytes, 4) == h.questions);
    assert(be16_at(bytes, 6) == h.answers);
    assert(be16_at(bytes, 8) == h.nameservers);
    assert(be16_at(bytes, 10) == h.additional);
}


/// An update inside the left part of a concatenation stays there.
proof fn lemma_update_prefix<T>(a: Seq<T>, b: Seq<T>, i: int, x: T)
    requires
        0 <= i < a.len(),
    ensures
        (a + b).update(i, x) == a.update(i, x) + b,
{
    assert((a + b).update(i, x) =~= a.update(i, x) + b);
}

/// Concatenation of sequences is associative.
proof fn lemma_add_assoc<T>(a: Seq<T>, b: Seq<T>, c: Seq<T>)
    ensures
        (a + b) + c == a + (b + c),
{
    assert((a + b) + c =~= a + (b + c));
}

/// Patching the additional count after appending one record at the tail
/// yields the encoding of the grown message.
proof fn lemma_additional_fixup(
    h0: Header,
    h1: Header,
    qs: Seq<QuestionV>,
    ans: Seq<RecordV>,
    ns: Seq<RecordV>,
    adds: Seq<RecordV>,
    rec: RecordV,
    mid: Seq<u8>,
    fin: Seq<u8>,
)
    requires
        adds.len() < 65535,
        h0.additional == adds.len(),
        h1 == (Header { additional: (adds.len() + 1) as u16, ..h0 }),
        mid == enc_packet(h0, qs, ans, ns, adds) + enc_record(rec),
        fin == mid.update(10, be16_bytes((adds.len() + 1) as u16)[0]).update(
            11,
            be16_bytes((adds.len() + 1) as u16)[1],
        ),
    ensures
        fin == enc_packet(h1, qs, ans, ns, adds.push(rec)),
{
    let hi = be16_bytes((adds.len() + 1) as u16)[0];
    let lo = be16_bytes((adds.len() + 1) as u16)[1];
    let h0b = h0.spec_bytes();
    let q = enc_questions(qs);
    let a = enc_records(ans);
    let n = enc_records(ns);
    let d = enc_records(adds);
    let r = enc_record(rec);
    let p1 = h0b + q;
    let p2 = p1 + a;
    let p3 = p2 + n;
    let p4 = p3 + d;
    assert(h0b.len() == 12);
    lemma_update_prefix(p4, r, 10, hi);
    lemma_update_prefix(p4.update(10, hi), r, 11, lo);
    lemma_update_prefix(p3, d, 10, hi);
    lemma_update_prefix(p3.update(10, hi), d, 11, lo);
    lemma_update_prefix(p2, n, 10, hi);
    lemma_update_prefix(p2.update(10, hi), n, 11, lo);
    lemma_update_prefix(p1, a, 10, hi);
    lemma_update_prefix(p1.update(10, hi), a, 11, lo);
    lemma_update_prefix(h0b, q, 10, hi);
    lemma_update_prefix(h0b.update(10, hi), q, 11, lo);
    assert(h1.spec_flags() == h0.spec_flags());
    assert(h0b.update(10, hi).update(11, lo) =~= h1.spec_bytes());
    lemma_enc_records_push(adds, rec);
    let h1b = h1.spec_bytes();
    lemma_add_assoc(h1b + q + a + n, d, r);
    assert(fin == h1b + q + a + n + (d + r));
    assert(fin == enc_packet(h1, qs, ans, ns, adds.push(rec)));
}


/// Setting the truncated bit in the flag byte of an encoded message
/// yields the encoding of the same message with the truncated header
/// flag set.
proof fn lemma_truncate_fixup(
    h: Header,
    qs: Seq<QuestionV>,
    ans: Seq<RecordV>,
    ns: Seq<RecordV>,
    adds: Seq<RecordV>,
    pre: Seq<u8>,
)
    requires
        h.wf(),
        pre == enc_packet(h, qs, ans, ns, adds),
    ensures
        pre.update(2, (pre[2] | 0x02) as u8) == enc_packet(
            Header { truncated: true, ..h },
            qs,
            ans,
            ns,
            adds,
        ),
{
    let h2 = Header { truncated: true, ..h };
    let f = h.spec_flags();
    let f2 = h2.spec_flags();
    let qb: u16 = if h.query {
        0u16
    } else {
        0x8000u16
    };
    let op: u16 = h.opcode.spec_code();
    let ab: u16 = if h.authoritative {
        0x0400u16
    } else {
        0u16
    };
    let tb: u16 = if h.truncated {
        0x0200u16
    } else {
        0u16
    };
    let rdb: u16 = if h.recursion_desired {
        0x0100u16
    } else {
        0u16
    };
    let rab: u16 = if h.recursion_available {
        0x0080u16
    } else {
        0u16
    };
    let rc: u16 = h.response_code.spec_code() as u16;
    assert(f == qb | (op << 11) | ab | tb | rdb | rab | rc);
    assert(f2 == qb | (op << 11) | ab | 0x0200u16 | rdb | rab | rc);
    assert((qb | (op << 11) | ab | 0x0200u16 | rdb | rab | rc) == (qb | (op << 11) | ab | tb | rdb
        | rab | rc) | 0x0200u16) by (bit_vector)
        requires
            tb == 0 || tb == 0x0200u16,
    ;
    assert(f2 == f | 0x0200u16);
    assert(((f | 0x0200u16) / 256) as u8 == ((f / 256) as u8) | 0x02) by (bit_vector);
    assert((f | 0x0200u16) % 256 == f % 256) by (bit_vector);
    let hb = h.spec_bytes();
    let b2 = (hb[2] | 0x02) as u8;
    assert(hb.update(2, b2) =~= h2.spec_bytes());
    let q = enc_questions(qs);
    let a = enc_records(ans);
    let n = enc_records(ns);
    let d = enc_records(adds);
    lemma_update_prefix(hb + q + a + n, d, 2, b2);
    lemma_update_prefix(hb + q + a, n, 2, b2);
    lemma_update_prefix(hb + q, a, 2, b2);
    lemma_update_prefix(hb, q, 2, b2);
    assert(pre[2] == hb[2]);
    assert(pre.update(2, b2) == enc_packet(h2, qs, ans, ns, adds));
}


/// The header a well-formed builder carries counts its model exactly.
pub proof fn lemma_builder_header_counts(b: Builder)
    requires
        b.wf(),
    ensures
        b.spec_header().questions == b.spec_questions().len(),
        b.spec_header().answers == b.spec_answers().len(),
        b.spec_header().nameservers == b.spec_nameservers().len(),
        b.spec_header().additional == b.spec_additional().len(),
{
}


/// Count invariant: after any sequence of appends, the section counts
/// read back out of the written header are exactly the numbers of
/// questions and records appended to each section.
pub proof fn lemma_count_invariant(b: Builder)
    requires
        b.wf(),
    ensures
        Header::spec_parse(b.spec_bytes()) matches Ok(h) ==> {
            &&& h.questions == b.spec_questions().len()
            &&& h.answers == b.spec_answers().len()
            &&& h.nameservers == b.spec_nameservers().len()
            &&& h.additional == b.spec_additional().len()
        },
        Header::spec_parse(b.spec_bytes()) is Ok,
{
    let hd = b.spec_header();
    assert(b.spec_bytes().subrange(0, 12) =~= hd.spec_bytes());
    assert(b.spec_bytes().len() >= 12);
    crate::header::lemma_header_roundtrip(hd, b.spec_bytes());
    lemma_builder_header_counts(b);
}

} // verus!
