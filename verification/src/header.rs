//! The fixed 12-byte message header: identifier, flag word, and the four
//! section counts, with the byte layout pinned down exactly.

use vstd::prelude::*;

use crate::bytes::{be16_at, be16_bytes, read_u16_be, set_u16_be, push_u16_be};
use crate::enums::{Opcode, ResponseCode};
use crate::error::Error;

verus! {

/// The parsed header of a message.
#[derive(Debug, PartialEq, Eq, Clone, Copy, Structural)]
pub struct Header {
    pub id: u16,
    pub query: bool,
    pub opcode: Opcode,
    pub authoritative: bool,
    pub truncated: bool,
    pub recursion_desired: bool,
    pub recursion_available: bool,
    pub response_code: ResponseCode,
    pub questions: u16,
    pub answers: u16,
    pub nameservers: u16,
    pub additional: u16,
}

impl Header {
    /// Well-formed: the opcode and response code are the canonical
    /// carriers of their 4-bit wire codes.
    pub open spec fn wf(self) -> bool {
        &&& self.opcode.is_canonical()
        &&& self.opcode.spec_code() <= 15
        &&& self.response_code.is_canonical()
        &&& self.response_code.spec_code() <= 15
    }

    /// The 16-bit flag word of this header.
    pub open spec fn spec_flags(self) -> u16 {
        (if self.query {
            0u16
        } else {
            0x8000u16
        }) | (self.opcode.spec_code() << 11) | (if self.authoritative {
            0x0400u16
        } else {
            0u16
        }) | (if self.truncated {
            0x0200u16
        } else {
            0u16
        }) | (if self.recursion_desired {
            0x0100u16
        } else {
            0u16
        }) | (if self.recursion_available {
            0x0080u16
        } else {
            0u16
        }) | (self.response_code.spec_code() as u16)
    }

    /// The 12 bytes of this header on the wire.
    pub open spec fn spec_bytes(self) -> Seq<u8> {
        seq![
            (self.id / 256) as u8,
            (self.id % 256) as u8,
            (self.spec_flags() / 256) as u8,
            (self.spec_flags() % 256) as u8,
            (self.questions / 256) as u8,
            (self.questions % 256) as u8,
            (self.answers / 256) as u8,
            (self.answers % 256) as u8,
            (self.nameservers / 256) as u8,
            (self.nameservers % 256) as u8,
            (self.additional / 256) as u8,
            (self.additional % 256) as u8,
        ]
    }

    /// The header read from the first 12 bytes of a datagram: too-short
    /// data and non-zero reserved flag bits are rejected; every other
    /// 12-byte prefix decodes.
    pub open spec fn spec_parse(data: Seq<u8>) -> Result<Header, Error> {
        if data.len() < 12 {
            Err(Error::HeaderTooShort)
        } else {
            let flags = be16_at(data, 2) as u16;
            if flags & 0x0070 != 0 {
                Err(Error::ReservedBitsAreNonZero)
            } else {
                Ok(
                    Header {
                        id: be16_at(data, 0) as u16,
                        query: flags & 0x8000 == 0,
                        opcode: Opcode::spec_from_code((flags >> 11) & 0xF),
                        authoritative: flags & 0x0400 != 0,
                        truncated: flags & 0x0200 != 0,
                        recursion_desired: flags & 0x0100 != 0,
                        recursion_available: flags & 0x0080 != 0,
                        response_code: ResponseCode::spec_from_code((flags & 0xF) as u8),
                        questions: be16_at(data, 4) as u16,
                        answers: be16_at(data, 6) as u16,
                        nameservers: be16_at(data, 8) as u16,
                        additional: be16_at(data, 10) as u16,
                    },
                )
            }
        }
    }

    /// Decodes the header of a datagram.
    pub fn parse(data: &[u8]) -> (r: Result<Header, Error>)
        ensures
            r == Header::spec_parse(data@),
    {
        if data.len() < 12 {
            return Err(Error::HeaderTooShort);
        }
        let flags = read_u16_be(data, 2);
        proof {
            assert(0 <= be16_at(data@, 2) <= 65535);
        }
        if flags & 0x0070 != 0 {
            return Err(Error::ReservedBitsAreNonZero);
        }
        let header = Header {
            id: read_u16_be(data, 0),
            query: flags & 0x8000 == 0,
            opcode: Opcode::from_code((flags >> 11) & 0xF),
            authoritative: flags & 0x0400 != 0,
            truncated: flags & 0x0200 != 0,
            recursion_desired: flags & 0x0100 != 0,
            recursion_available: flags & 0x0080 != 0,
            response_code: ResponseCode::from_code((flags & 0xF) as u8),
            questions: read_u16_be(data, 4),
            answers: read_u16_be(data, 6),
            nameservers: read_u16_be(data, 8),
            additional: read_u16_be(data, 10),
        };
        proof {
            assert(0 <= be16_at(data@, 0) <= 65535);
            assert(0 <= be16_at(data@, 4) <= 65535);
            assert(0 <= be16_at(data@, 6) <= 65535);
            assert(0 <= be16_at(data@, 8) <= 65535);
            assert(0 <= be16_at(data@, 10) <= 65535);
        }
        Ok(header)
    }

    /// The flag word, computed at run time.
    pub fn flags_value(&self) -> (f: u16)
        requires
            self.wf(),
        ensures
            f == self.spec_flags(),
    {
        (if self.query {
            0u16
        } else {
            0x8000u16
        }) | (self.opcode.code() << 11) | (if self.authoritative {
            0x0400u16
        } else {
            0u16
        }) | (if self.truncated {
            0x0200u16
        } else {
            0u16
        }) | (if self.recursion_desired {
            0x0100u16
        } else {
            0u16
        }) | (if self.recursion_available {
            0x0080u16
        } else {
            0u16
        }) | (self.response_code.code() as u16)
    }

    /// Appends the 12 header bytes to a buffer.
    pub fn write(&self, buf: &mut Vec<u8>)
        requires
            self.wf(),
        ensures
            final(buf)@ == old(buf)@ + self.spec_bytes(),
    {
        let f = self.flags_value();
        push_u16_be(buf, self.id);
        push_u16_be(buf, f);
        push_u16_be(buf, self.questions);
        push_u16_be(buf, self.answers);
        push_u16_be(buf, self.nameservers);
        push_u16_be(buf, self.additional);
        proof {
            assert(buf@ =~= old(buf)@ + self.spec_bytes());
        }
    }

    /// Sets the truncated flag in an already-written header.
    pub fn set_truncated(buf: &mut Vec<u8>)
        requires
            old(buf)@.len() >= 12,
        ensures
            final(buf)@ == old(buf)@.update(2, (old(buf)@[2] | 0x02) as u8),
    {
        let b = buf[2];
        buf.set(2, b | 0x02);
    }

    /// The question count stored in a written header.
    pub fn question_count(data: &[u8]) -> (r: u16)
        requires
            data@.len() >= 12,
        ensures
            r == be16_at(data@, 4),
    {
        read_u16_be(data, 4)
    }

    /// The answer count stored in a written header.
    pub fn answer_count(data: &[u8]) -> (r: u16)
        requires
            data@.len() >= 12,
        ensures
            r == be16_at(data@, 6),
    {
        read_u16_be(data, 6)
    }

    /// The nameserver count stored in a written header.
    pub fn nameserver_count(data: &[u8]) -> (r: u16)
        requires
            data@.len() >= 12,
        ensures
            r == be16_at(data@, 8),
    {
        read_u16_be(data, 8)
    }

    /// The additional count stored in a written header.
    pub fn additional_count(data: &[u8]) -> (r: u16)
        requires
            data@.len() >= 12,
        ensures
            r == be16_at(data@, 10),
    {
        read_u16_be(data, 10)
    }

    /// Adds one to the question count, refusing to pass 65535.
    pub fn inc_questions(buf: &mut Vec<u8>) -> (r: Option<u16>)
        requires
            old(buf)@.len() >= 12,
        ensures
            inc_count_post(old(buf)@, final(buf)@, 4, r),
    {
        inc_count_at(buf, 4)
    }

    /// Adds one to the answer count, refusing to pass 65535.
    pub fn inc_answers(buf: &mut Vec<u8>) -> (r: Option<u16>)
        requires
            old(buf)@.len() >= 12,
        ensures
            inc_count_post(old(buf)@, final(buf)@, 6, r),
    {
        inc_count_at(buf, 6)
    }

    /// Adds one to the nameserver count, refusing to pass 65535.
    pub fn inc_nameservers(buf: &mut Vec<u8>) -> (r: Option<u16>)
        requires
            old(buf)@.len() >= 12,
        ensures
            inc_count_post(old(buf)@, final(buf)@, 8, r),
    {
        inc_count_at(buf, 8)
    }

    /// Adds one to the additional count, refusing to pass 65535.
    pub fn inc_additional(buf: &mut Vec<u8>) -> (r: Option<u16>)
        requires
            old(buf)@.len() >= 12,
        ensures
            inc_count_post(old(buf)@, final(buf)@, 10, r),
    {
        inc_count_at(buf, 10)
    }

    /// The size of the wire header in bytes.
    pub fn size() -> (n: usize)
        ensures
            n == 12,
    {
        12
    }
}

/// What incrementing the 16-bit count at offset `at` does to the buffer:
/// below 65535 the two count bytes change and the new count comes back,
/// at 65535 nothing changes and nothing comes back.
pub open spec fn inc_count_post(pre: Seq<u8>, post: Seq<u8>, at: int, r: Option<u16>) -> bool {
    let c = be16_at(pre, at);
    match r {
        Some(v) => {
            &&& c < 65535
            &&& v == c + 1
            &&& post == pre.update(at, be16_bytes((c + 1) as u16)[0]).update(
                at + 1,
                be16_bytes((c + 1) as u16)[1],
            )
        },
        None => c == 65535 && post == pre,
    }
}

/// Adds one to the 16-bit big-endian count at offset `at`.
fn inc_count_at(buf: &mut Vec<u8>, at: usize) -> (r: Option<u16>)
    requires
        at + 2 <= old(buf)@.len(),
    ensures
        inc_count_post(old(buf)@, final(buf)@, at as int, r),
{
    let c = read_u16_be(buf.as_slice(), at);
    if c < 65535 {
        set_u16_be(buf, at, c + 1);
        Some(c + 1)
    } else {
        None
    }
}

/// Reading the flag word back out of a written header recovers every
/// field: the reserved bits are zero and each flag, the opcode and the
/// response code sit in their own bits.
pub proof fn lemma_header_roundtrip(h: Header, data: Seq<u8>)
    requires
        h.wf(),
        data.len() >= 12,
        data.subrange(0, 12) == h.spec_bytes(),
    ensures
        Header::spec_parse(data) == Ok::<Header, Error>(h),
{
    let f = h.spec_flags();
    let qb: u16 = if h.query {
        0u16
    } else {
        0x8000u16
    };
    let op: u16 = h.opcode.spec_code();
    let ab: u16 = if h.authoritative {
        0x0400u16
    } else {
        0u16
    };
    let tb: u16 = if h.truncated {
        0x0200u16
    } else {
        0u16
    };
    let rdb: u16 = if h.recursion_desired {
        0x0100u16
    } else {
        0u16
    };
    let rab: u16 = if h.recursion_available {
        0x0080u16
    } else {
        0u16
    };
    let rc: u16 = h.response_code.spec_code() as u16;
    assert(f == qb | (op << 11) | ab | tb | rdb | rab | rc);
    assert((qb | (op << 11) | ab | tb | rdb | rab | rc) & 0x0070 == 0 && ((qb | (op << 11) | ab
        | tb | rdb | rab | rc) & 0x8000 == 0) == (qb == 0) && ((qb | (op << 11) | ab | tb | rdb
        | rab | rc) >> 11) & 0xF == op && ((qb | (op << 11) | ab | tb | rdb | rab | rc) & 0x0400
        != 0) == (ab != 0) && ((qb | (op << 11) | ab | tb | rdb | rab | rc) & 0x0200 != 0) == (tb
        != 0) && ((qb | (op << 11) | ab | tb | rdb | rab | rc) & 0x0100 != 0) == (rdb != 0) && ((qb
        | (op << 11) | ab | tb | rdb | rab | rc) & 0x0080 != 0) == (rab != 0) && (qb | (op << 11)
        | ab | tb | rdb | rab | rc) & 0xF == rc) by (bit_vector)
        requires
            op <= 15,
            rc <= 15,
            qb == 0 || qb == 0x8000u16,
            ab == 0 || ab == 0x0400u16,
            tb == 0 || tb == 0x0200u16,
            rdb == 0 || rdb == 0x0100u16,
            rab == 0 || rab == 0x0080u16,
    ;
    // the flag word read back from bytes 2 and 3 is the one written
    assert(forall|j: int| 0 <= j < 12 ==> data[j] == #[trigger] h.spec_bytes()[j]) by {
        assert(forall|j: int|
            0 <= j < 12 ==> data.subrange(0, 12)[j] == #[trigger] h.spec_bytes()[j]);
    }
    assert(be16_at(data, 2) == f);
    assert(be16_at(data, 0) == h.id);
    assert(be16_at(data, 4) == h.questions);
    assert(be16_at(data, 6) == h.answers);
    assert(be16_at(data, 8) == h.nameservers);
    assert(be16_at(data, 10) == h.additional);
    assert((f & 0xF) as u8 == h.response_code.spec_code());
}

} // verus!
