//! The structured form of a message: questions and resource records,
//! with their mathematical views.

use vstd::prelude::*;

use crate::enums::{Class, QueryClass, QueryType};
use crate::header::Header;
use crate::name::{wf_name, Name};
use crate::rrdata::{wf_rrdatav, RRData, RRDataV};

verus! {

/// One entry of a message's question section.
#[derive(Debug)]
pub struct Question {
    pub qname: Name,
    pub qtype: QueryType,
    pub qclass: QueryClass,
    /// The high bit of the wire class field: a unicast reply is asked for.
    pub qu: bool,
}

/// The mathematical shape of a question.
pub struct QuestionV {
    pub qname: Seq<u8>,
    pub qtype: QueryType,
    pub qclass: QueryClass,
    pub qu: bool,
}

impl View for Question {
    type V = QuestionV;

    open spec fn view(&self) -> QuestionV {
        QuestionV { qname: self.qname@, qtype: self.qtype, qclass: self.qclass, qu: self.qu }
    }
}

/// Well-formed question: its name is.
pub open spec fn wf_questionv(q: QuestionV) -> bool {
    wf_name(q.qname)
}

/// One resource record of an answer, nameserver or additional section.
#[derive(Debug)]
pub struct ResourceRecord {
    pub name: Name,
    pub cls: Class,
    pub ttl: u32,
    pub data: RRData,
}

/// The mathematical shape of a resource record.
pub struct RecordV {
    pub name: Seq<u8>,
    pub cls: Class,
    pub ttl: u32,
    pub data: RRDataV,
}

impl View for ResourceRecord {
    type V = RecordV;

    open spec fn view(&self) -> RecordV {
        RecordV { name: self.name@, cls: self.cls, ttl: self.ttl, data: self.data@ }
    }
}

/// Well-formed record: its names are, its payload has its declared
/// shape, and its TTL stays in the non-negative signed range.
pub open spec fn wf_recordv(r: RecordV) -> bool {
    &&& wf_name(r.name)
    &&& wf_rrdatav(r.data)
    &&& r.ttl <= 0x7FFFFFFF
}

/// A whole parsed message.
#[derive(Debug)]
pub struct Packet {
    pub header: Header,
    pub questions: Vec<Question>,
    pub answers: Vec<ResourceRecord>,
    pub nameservers: Vec<ResourceRecord>,
    pub additional: Vec<ResourceRecord>,
}

/// The mathematical shape of a message.
pub struct PacketV {
    pub header: Header,
    pub questions: Seq<QuestionV>,
    pub answers: Seq<RecordV>,
    pub nameservers: Seq<RecordV>,
    pub additional: Seq<RecordV>,
}

impl View for Packet {
    type V = PacketV;

    open spec fn view(&self) -> PacketV {
        PacketV {
            header: self.header,
            questions: self.questions@.map_values(|q: Question| q@),
            answers: self.answers@.map_values(|r: ResourceRecord| r@),
            nameservers: self.nameservers@.map_values(|r: ResourceRecord| r@),
            additional: self.additional@.map_values(|r: ResourceRecord| r@),
        }
    }
}

} // verus!
