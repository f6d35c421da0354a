//! The closed code sets of the DNS wire format: record types, query types,
//! classes, query classes, opcodes and response codes, with the mappings
//! between each value and its wire code.

use vstd::prelude::*;

use crate::error::Error;

verus! {

/// The TYPE of a resource record (RFC 1035, plus AAAA and SRV).
#[derive(Debug, PartialEq, Eq, Clone, Copy, Hash, Structural)]
pub enum Type {
    /// a host address
    A,
    /// an authoritative name server
    NS,
    /// a mail forwarder (obsolete)
    MF,
    /// the canonical name for an alias
    CNAME,
    /// marks the start of a zone of authority
    SOA,
    /// a mailbox domain name
    MB,
    /// a mail group member
    MG,
    /// a mail rename domain name
    MR,
    /// a null record
    NULL,
    /// a well known service description
    WKS,
    /// a domain name pointer
    PTR,
    /// host information
    HINFO,
    /// mailbox or mail list information
    MINFO,
    /// mail exchange
    MX,
    /// text strings
    TXT,
    /// IPv6 host address
    AAAA,
    /// service record
    SRV,
    /// EDNS0 options
    OPT,
}

/// The QTYPE of a question: every record type plus the query-only codes.
#[derive(Debug, PartialEq, Eq, Clone, Copy, Hash, Structural)]
pub enum QueryType {
    /// a host address
    A,
    /// an authoritative name server
    NS,
    /// a mail forwarder (obsolete)
    MF,
    /// the canonical name for an alias
    CNAME,
    /// marks the start of a zone of authority
    SOA,
    /// a mailbox domain name
    MB,
    /// a mail group member
    MG,
    /// a mail rename domain name
    MR,
    /// a null record
    NULL,
    /// a well known service description
    WKS,
    /// a domain name pointer
    PTR,
    /// host information
    HINFO,
    /// mailbox or mail list information
    MINFO,
    /// mail exchange
    MX,
    /// text strings
    TXT,
    /// IPv6 host address
    AAAA,
    /// service record
    SRV,
    /// a request for a transfer of an entire zone
    AXFR,
    /// a request for mailbox-related records
    MAILB,
    /// a request for mail agent records (obsolete)
    MAILA,
    /// a request for all records
    All,
}

/// The CLASS of a resource record.
#[derive(Debug, PartialEq, Eq, Clone, Copy, Hash, Structural)]
pub enum Class {
    /// the Internet
    IN,
    /// the CSNET class (obsolete)
    CS,
    /// the CHAOS class
    CH,
    /// Hesiod
    HS,
}

/// The QCLASS of a question: every class plus the wildcard.
#[derive(Debug, PartialEq, Eq, Clone, Copy, Hash, Structural)]
pub enum QueryClass {
    /// the Internet
    IN,
    /// the CSNET class (obsolete)
    CS,
    /// the CHAOS class
    CH,
    /// Hesiod
    HS,
    /// any class
    Any,
}

/// The OPCODE field of a message header.
#[derive(Debug, PartialEq, Eq, Clone, Copy, Hash, Structural)]
pub enum Opcode {
    StandardQuery,
    InverseQuery,
    ServerStatusRequest,
    Reserved(u16),
}

/// The RCODE field of a message header.
#[derive(Debug, PartialEq, Eq, Clone, Copy, Hash, Structural)]
pub enum ResponseCode {
    NoError,
    FormatError,
    ServerFailure,
    NameError,
    NotImplemented,
    Refused,
    Reserved(u8),
}

impl Type {
    /// The 16-bit wire code of this record type.
    pub open spec fn spec_code(self) -> u16 {
        match self {
            Type::A => 1,
            Type::NS => 2,
            Type::MF => 4,
            Type::CNAME => 5,
            Type::SOA => 6,
            Type::MB => 7,
            Type::MG => 8,
            Type::MR => 9,
            Type::NULL => 10,
            Type::WKS => 11,
            Type::PTR => 12,
            Type::HINFO => 13,
            Type::MINFO => 14,
            Type::MX => 15,
            Type::TXT => 16,
            Type::AAAA => 28,
            Type::SRV => 33,
            Type::OPT => 41,
        }
    }

    /// The record type a wire code stands for, if it is a recognised one.
    pub open spec fn spec_from_code(code: u16) -> Option<Type> {
        match code {
            1u16 => Some(Type::A),
            2u16 => Some(Type::NS),
            4u16 => Some(Type::MF),
            5u16 => Some(Type::CNAME),
            6u16 => Some(Type::SOA),
            7u16 => Some(Type::MB),
            8u16 => Some(Type::MG),
            9u16 => Some(Type::MR),
            10u16 => Some(Type::NULL),
            11u16 => Some(Type::WKS),
            12u16 => Some(Type::PTR),
            13u16 => Some(Type::HINFO),
            14u16 => Some(Type::MINFO),
            15u16 => Some(Type::MX),
            16u16 => Some(Type::TXT),
            28u16 => Some(Type::AAAA),
            33u16 => Some(Type::SRV),
            41u16 => Some(Type::OPT),
            _ => None,
        }
    }

    #[verifier::when_used_as_spec(spec_code)]
    pub fn code(self) -> (c: u16)
        ensures
            c == self.spec_code(),
    {
        match self {
            Type::A => 1,
            Type::NS => 2,
            Type::MF => 4,
            Type::CNAME => 5,
            Type::SOA => 6,
            Type::MB => 7,
            Type::MG => 8,
            Type::MR => 9,
            Type::NULL => 10,
            Type::WKS => 11,
            Type::PTR => 12,
            Type::HINFO => 13,
            Type::MINFO => 14,
            Type::MX => 15,
            Type::TXT => 16,
            Type::AAAA => 28,
            Type::SRV => 33,
            Type::OPT => 41,
        }
    }

    /// Maps a wire code to the record type it stands for, or reports an
    /// unrecognised code.
    pub fn parse(code: u16) -> (r: Result<Type, Error>)
        ensures
            match r {
                Ok(t) => Type::spec_from_code(code) == Some(t),
                Err(e) => Type::spec_from_code(code) is None && e == Error::InvalidType(code),
            },
    {
        match code {
            1 => Ok(Type::A),
            2 => Ok(Type::NS),
            4 => Ok(Type::MF),
            5 => Ok(Type::CNAME),
            6 => Ok(Type::SOA),
            7 => Ok(Type::MB),
            8 => Ok(Type::MG),
            9 => Ok(Type::MR),
            10 => Ok(Type::NULL),
            11 => Ok(Type::WKS),
            12 => Ok(Type::PTR),
            13 => Ok(Type::HINFO),
            14 => Ok(Type::MINFO),
            15 => Ok(Type::MX),
            16 => Ok(Type::TXT),
            28 => Ok(Type::AAAA),
            33 => Ok(Type::SRV),
            41 => Ok(Type::OPT),
            x => Err(Error::InvalidType(x)),
        }
    }

    /// Every recognised wire code maps back to the type that carries it.
    pub proof fn lemma_code_from_code(self)
        ensures
            Type::spec_from_code(self.spec_code()) == Some(self),
    {
    }
}

impl QueryType {
    /// The 16-bit wire code of this query type.
    pub open spec fn spec_code(self) -> u16 {
        match self {
            QueryType::A => 1,
            QueryType::NS => 2,
            QueryType::MF => 4,
            QueryType::CNAME => 5,
            QueryType::SOA => 6,
            QueryType::MB => 7,
            QueryType::MG => 8,
            QueryType::MR => 9,
            QueryType::NULL => 10,
            QueryType::WKS => 11,
            QueryType::PTR => 12,
            QueryType::HINFO => 13,
            QueryType::MINFO => 14,
            QueryType::MX => 15,
            QueryType::TXT => 16,
            QueryType::AAAA => 28,
            QueryType::SRV => 33,
            QueryType::AXFR => 252,
            QueryType::MAILB => 253,
            QueryType::MAILA => 254,
            QueryType::All => 255,
        }
    }

    /// The query type a wire code stands for, if it is a recognised one.
    pub open spec fn spec_from_code(code: u16) -> Option<QueryType> {
        match code {
            1u16 => Some(QueryType::A),
            2u16 => Some(QueryType::NS),
            4u16 => Some(QueryType::MF),
            5u16 => Some(QueryType::CNAME),
            6u16 => Some(QueryType::SOA),
            7u16 => Some(QueryType::MB),
            8u16 => Some(QueryType::MG),
            9u16 => Some(QueryType::MR),
            10u16 => Some(QueryType::NULL),
            11u16 => Some(QueryType::WKS),
            12u16 => Some(QueryType::PTR),
            13u16 => Some(QueryType::HINFO),
            14u16 => Some(QueryType::MINFO),
            15u16 => Some(QueryType::MX),
            16u16 => Some(QueryType::TXT),
            28u16 => Some(QueryType::AAAA),
            33u16 => Some(QueryType::SRV),
            252u16 => Some(QueryType::AXFR),
            253u16 => Some(QueryType::MAILB),
            254u16 => Some(QueryType::MAILA),
            255u16 => Some(QueryType::All),
            _ => None,
        }
    }

    #[verifier::when_used_as_spec(spec_code)]
    pub fn code(self) -> (c: u16)
        ensures
            c == self.spec_code(),
    {
        match self {
            QueryType::A => 1,
            QueryType::NS => 2,
            QueryType::MF => 4,
            QueryType::CNAME => 5,
            QueryType::SOA => 6,
            QueryType::MB => 7,
            QueryType::MG => 8,
            QueryType::MR => 9,
            QueryType::NULL => 10,
            QueryType::WKS => 11,
            QueryType::PTR => 12,
            QueryType::HINFO => 13,
            QueryType::MINFO => 14,
            QueryType::MX => 15,
            QueryType::TXT => 16,
            QueryType::AAAA => 28,
            QueryType::SRV => 33,
            QueryType::AXFR => 252,
            QueryType::MAILB => 253,
            QueryType::MAILA => 254,
            QueryType::All => 255,
        }
    }

    /// Maps a wire code to the query type it stands for, or reports an
    /// unrecognised code.
    pub fn parse(code: u16) -> (r: Result<QueryType, Error>)
        ensures
            match r {
                Ok(t) => QueryType::spec_from_code(code) == Some(t),
                Err(e) => QueryType::spec_from_code(code) is None && e
                    == Error::InvalidQueryType(code),
            },
    {
        match code {
            1 => Ok(QueryType::A),
            2 => Ok(QueryType::NS),
            4 => Ok(QueryType::MF),
            5 => Ok(QueryType::CNAME),
            6 => Ok(QueryType::SOA),
            7 => Ok(QueryType::MB),
            8 => Ok(QueryType::MG),
            9 => Ok(QueryType::MR),
            10 => Ok(QueryType::NULL),
            11 => Ok(QueryType::WKS),
            12 => Ok(QueryType::PTR),
            13 => Ok(QueryType::HINFO),
            14 => Ok(QueryType::MINFO),
            15 => Ok(QueryType::MX),
            16 => Ok(QueryType::TXT),
            28 => Ok(QueryType::AAAA),
            33 => Ok(QueryType::SRV),
            252 => Ok(QueryType::AXFR),
            253 => Ok(QueryType::MAILB),
            254 => Ok(QueryType::MAILA),
            255 => Ok(QueryType::All),
            x => Err(Error::InvalidQueryType(x)),
        }
    }

    /// Every recognised wire code maps back to the query type that
    /// carries it.
    pub proof fn lemma_code_from_code(self)
        ensures
            QueryType::spec_from_code(self.spec_code()) == Some(self),
    {
    }
}

impl Class {
    /// The 16-bit wire code of this class.
    pub open spec fn spec_code(self) -> u16 {
        match self {
            Class::IN => 1,
            Class::CS => 2,
            Class::CH => 3,
            Class::HS => 4,
        }
    }

    /// The class a wire code stands for, if it is a recognised one.
    pub open spec fn spec_from_code(code: u16) -> Option<Class> {
        match code {
            1u16 => Some(Class::IN),
            2u16 => Some(Class::CS),
            3u16 => Some(Class::CH),
            4u16 => Some(Class::HS),
            _ => None,
        }
    }

    #[verifier::when_used_as_spec(spec_code)]
    pub fn code(self) -> (c: u16)
        ensures
            c == self.spec_code(),
    {
        match self {
            Class::IN => 1,
            Class::CS => 2,
            Class::CH => 3,
            Class::HS => 4,
        }
    }

    /// Maps a wire code to the class it stands for, or reports an
    /// unrecognised code.
    pub fn parse(code: u16) -> (r: Result<Class, Error>)
        ensures
            match r {
                Ok(c) => Class::spec_from_code(code) == Some(c),
                Err(e) => Class::spec_from_code(code) is None && e == Error::InvalidClass(code),
            },
    {
        match code {
            1 => Ok(Class::IN),
            2 => Ok(Class::CS),
            3 => Ok(Class::CH),
            4 => Ok(Class::HS),
            x => Err(Error::InvalidClass(x)),
        }
    }

    /// Every recognised wire code maps back to the class that carries it.
    pub proof fn lemma_code_from_code(self)
        ensures
            Class::spec_from_code(self.spec_code()) == Some(self),
    {
    }
}

impl QueryClass {
    /// The 16-bit wire code of this query class.
    pub open spec fn spec_code(self) -> u16 {
        match self {
            QueryClass::IN => 1,
            QueryClass::CS => 2,
            QueryClass::CH => 3,
            QueryClass::HS => 4,
            QueryClass::Any => 255,
        }
    }

    /// The query class a wire code stands for, if it is a recognised one.
    pub open spec fn spec_from_code(code: u16) -> Option<QueryClass> {
        match code {
            1u16 => Some(QueryClass::IN),
            2u16 => Some(QueryClass::CS),
            3u16 => Some(QueryClass::CH),
            4u16 => Some(QueryClass::HS),
            255u16 => Some(QueryClass::Any),
            _ => None,
        }
    }

    #[verifier::when_used_as_spec(spec_code)]
    pub fn code(self) -> (c: u16)
        ensures
            c == self.spec_code(),
    {
        match self {
            QueryClass::IN => 1,
            QueryClass::CS => 2,
            QueryClass::CH => 3,
            QueryClass::HS => 4,
            QueryClass::Any => 255,
        }
    }

    /// The record class carrying the same wire code, if there is one:
    /// the wildcard query class has no record-class counterpart.
    pub open spec fn spec_as_class(self) -> Option<Class> {
        match self {
            QueryClass::IN => Some(Class::IN),
            QueryClass::CS => Some(Class::CS),
            QueryClass::CH => Some(Class::CH),
            QueryClass::HS => Some(Class::HS),
            QueryClass::Any => None,
        }
    }

    /// The record class carrying the same wire code, if there is one.
    pub fn as_class(self) -> (r: Option<Class>)
        ensures
            r == self.spec_as_class(),
            r matches Some(c) ==> c.spec_code() == self.spec_code(),
    {
        match self {
            QueryClass::IN => Some(Class::IN),
            QueryClass::CS => Some(Class::CS),
            QueryClass::CH => Some(Class::CH),
            QueryClass::HS => Some(Class::HS),
            QueryClass::Any => None,
        }
    }

    /// Maps a wire code to the query class it stands for, or reports an
    /// unrecognised code.
    pub fn parse(code: u16) -> (r: Result<QueryClass, Error>)
        ensures
            match r {
                Ok(c) => QueryClass::spec_from_code(code) == Some(c),
                Err(e) => QueryClass::spec_from_code(code) is None && e
                    == Error::InvalidQueryClass(code),
            },
    {
        match code {
            1 => Ok(QueryClass::IN),
            2 => Ok(QueryClass::CS),
            3 => Ok(QueryClass::CH),
            4 => Ok(QueryClass::HS),
            255 => Ok(QueryClass::Any),
            x => Err(Error::InvalidQueryClass(x)),
        }
    }

    /// Every recognised wire code maps back to the query class that
    /// carries it.
    pub proof fn lemma_code_from_code(self)
        ensures
            QueryClass::spec_from_code(self.spec_code()) == Some(self),
    {
    }
}

impl Opcode {
    /// The 4-bit wire code of this opcode.
    pub open spec fn spec_code(self) -> u16 {
        match self {
            Opcode::StandardQuery => 0,
            Opcode::InverseQuery => 1,
            Opcode::ServerStatusRequest => 2,
            Opcode::Reserved(x) => x,
        }
    }

    /// The opcode a wire code stands for; every code has one.
    pub open spec fn spec_from_code(code: u16) -> Opcode {
        match code {
            0u16 => Opcode::StandardQuery,
            1u16 => Opcode::InverseQuery,
            2u16 => Opcode::ServerStatusRequest,
            _ => Opcode::Reserved(code),
        }
    }

    /// True when this opcode is the one its own wire code maps back to:
    /// `Reserved` is only used for codes without a named variant.
    pub open spec fn is_canonical(self) -> bool {
        self == Opcode::spec_from_code(self.spec_code())
    }

    #[verifier::when_used_as_spec(spec_code)]
    pub fn code(self) -> (c: u16)
        ensures
            c == self.spec_code(),
    {
        match self {
            Opcode::StandardQuery => 0,
            Opcode::InverseQuery => 1,
            Opcode::ServerStatusRequest => 2,
            Opcode::Reserved(x) => x,
        }
    }

    /// Maps a wire code to the opcode it stands for.
    pub fn from_code(code: u16) -> (r: Opcode)
        ensures
            r == Opcode::spec_from_code(code),
            r.is_canonical(),
    {
        match code {
            0 => Opcode::StandardQuery,
            1 => Opcode::InverseQuery,
            2 => Opcode::ServerStatusRequest,
            x => Opcode::Reserved(x),
        }
    }
}

impl ResponseCode {
    /// The 4-bit wire code of this response code.
    pub open spec fn spec_code(self) -> u8 {
        match self {
            ResponseCode::NoError => 0,
            ResponseCode::FormatError => 1,
            ResponseCode::ServerFailure => 2,
            ResponseCode::NameError => 3,
            ResponseCode::NotImplemented => 4,
            ResponseCode::Refused => 5,
            ResponseCode::Reserved(x) => x,
        }
    }

    /// The response code a wire code stands for; every code has one.
    pub open spec fn spec_from_code(code: u8) -> ResponseCode {
        match code {
            0u8 => ResponseCode::NoError,
            1u8 => ResponseCode::FormatError,
            2u8 => ResponseCode::ServerFailure,
            3u8 => ResponseCode::NameError,
            4u8 => ResponseCode::NotImplemented,
            5u8 => ResponseCode::Refused,
            _ => ResponseCode::Reserved(code),
        }
    }

    /// True when this response code is the one its own wire code maps back
    /// to: `Reserved` is only used for codes without a named variant.
    pub open spec fn is_canonical(self) -> bool {
        self == ResponseCode::spec_from_code(self.spec_code())
    }

    #[verifier::when_used_as_spec(spec_code)]
    pub fn code(self) -> (c: u8)
        ensures
            c == self.spec_code(),
    {
        match self {
            ResponseCode::NoError => 0,
            ResponseCode::FormatError => 1,
            ResponseCode::ServerFailure => 2,
            ResponseCode::NameError => 3,
            ResponseCode::NotImplemented => 4,
            ResponseCode::Refused => 5,
            ResponseCode::Reserved(x) => x,
        }
    }

    /// Maps a wire code to the response code it stands for.
    pub fn from_code(code: u8) -> (r: ResponseCode)
        ensures
            r == ResponseCode::spec_from_code(code),
            r.is_canonical(),
    {
        match code {
            0 => ResponseCode::NoError,
            1 => ResponseCode::FormatError,
            2 => ResponseCode::ServerFailure,
            3 => ResponseCode::NameError,
            4 => ResponseCode::NotImplemented,
            5 => ResponseCode::Refused,
            x => ResponseCode::Reserved(x),
        }
    }
}

} // verus!
