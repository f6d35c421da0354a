//! A multicast DNS (mDNS / DNS-SD) responder library: a DNS message codec
//! with name compression, a registry of advertised services, and the
//! query-answering rules that turn an incoming question into a response.

use vstd::prelude::*;

pub mod builder;
pub mod bytes;
pub mod enums;
pub mod error;
pub mod fsm;
pub mod header;
pub mod name;
pub mod parser;
pub mod roundtrip;
pub mod rrdata;
pub mod services;
pub mod structs;

use crate::error::Error;
use crate::name::{spec_parse_text, Name};
use crate::rrdata::push_bytes;
use vstd::string::StringSliceAdditionalSpecFns;

verus! {

/// The default TTL for announced mDNS services, in seconds.
pub const DEFAULT_TTL: u32 = 60;

/// The UDP port on which mDNS traffic is exchanged.
pub const MDNS_PORT: u16 = 5353;

/// The TXT segments of the given entries: each prefixed by its own
/// length.
pub open spec fn txt_segments(entries: Seq<Seq<u8>>) -> Seq<u8>
    decreases entries.len(),
{
    if entries.len() == 0 {
        Seq::empty()
    } else {
        txt_segments(entries.drop_last()) + seq![entries.last().len() as u8] + entries.last()
    }
}

/// The TXT payload of a service: its length-prefixed entries, or the
/// single empty segment when there are none.
pub open spec fn spec_encode_txt(entries: Seq<Seq<u8>>) -> Seq<u8> {
    if entries.len() == 0 {
        seq![0u8]
    } else {
        txt_segments(entries)
    }
}

/// Encodes TXT entries into the record payload: each entry length-
/// prefixed, an empty entry list becoming the single empty segment.
/// Entries longer than 255 bytes are a caller contract violation, and
/// the whole payload must fit a record's length field.
pub fn encode_txt(entries: &Vec<Vec<u8>>) -> (r: Vec<u8>)
    requires
        forall|i: int| 0 <= i < entries@.len() ==> (#[trigger] entries@[i])@.len() <= 255,
        spec_encode_txt(entries@.map_values(|e: Vec<u8>| e@)).len() <= 65535,
    ensures
        r@ == spec_encode_txt(entries@.map_values(|e: Vec<u8>| e@)),
        r@.len() <= 65535,
{
    let ghost ev = entries@.map_values(|e: Vec<u8>| e@);
    if entries.len() == 0 {
        let mut r: Vec<u8> = Vec::new();
        r.push(0);
        proof {
            assert(r@ =~= seq![0u8]);
        }
        return r;
    }
    let n = entries.len();
    let mut out: Vec<u8> = Vec::new();
    let mut i: usize = 0;
    proof {
        assert(ev.subrange(0, 0) =~= Seq::<Seq<u8>>::empty());
        assert(out@ =~= txt_segments(ev.subrange(0, 0)));
    }
    while i < n
        invariant
            i <= n,
            n == entries@.len(),
            n > 0,
            ev == entries@.map_values(|e: Vec<u8>| e@),
            forall|j: int| 0 <= j < entries@.len() ==> (#[trigger] entries@[j])@.len() <= 255,
            out@ == txt_segments(ev.subrange(0, i as int)),
        decreases n - i,
    {
        let ghost pre = ev.subrange(0, i as int);
        let ghost pre2 = ev.subrange(0, i + 1);
        proof {
            assert(pre2.drop_last() =~= pre);
            assert(pre2.last() == ev[i as int]);
        }
        let ghost out_pre = out@;
        let entry = &entries[i];
        out.push(entry.len() as u8);
        push_bytes(&mut out, entry);
        proof {
            assert(out@ =~= out_pre + seq![ev[i as int].len() as u8] + ev[i as int]);
            assert(out@ =~= txt_segments(pre2));
        }
        i += 1;
    }
    proof {
        assert(ev.subrange(0, n as int) =~= ev);
    }
    out
}

/// The bytes of the `.local` suffix every advertised name ends with.
pub open spec fn local_suffix() -> Seq<u8> {
    seq![46u8, 108u8, 111u8, 99u8, 97u8, 108u8]
}

/// Appends `.local` to a text.
fn push_local_suffix(v: &mut Vec<u8>)
    ensures
        final(v)@ == old(v)@ + local_suffix(),
{
    v.push(46);
    v.push(108);
    v.push(111);
    v.push(99);
    v.push(97);
    v.push(108);
    proof {
        assert(v@ =~= old(v)@ + local_suffix());
    }
}

/// Composes the advertised names of a service from its plain-text type
/// and instance name: the type becomes `<type>.local`, the instance
/// `<instance>.<type>.local`. Either text failing to encode as a name —
/// or a name outgrowing a record's length field — is reported, the
/// type's problem first.
pub fn compose_service_names(svc_type: &str, svc_name: &str) -> (r: Result<(Name, Name), Error>)
    ensures
        ({
            let tt = svc_type.spec_bytes() + local_suffix();
            let tn = svc_name.spec_bytes() + seq![46u8] + svc_type.spec_bytes() + local_suffix();
            match r {
                Ok((name, typ)) => {
                    &&& spec_parse_text(tn) == Ok::<Seq<u8>, Error>(name@)
                    &&& name.wf()
                    &&& name@.len() <= 65535
                    &&& spec_parse_text(tt) == Ok::<Seq<u8>, Error>(typ@)
                    &&& typ.wf()
                    &&& typ@.len() <= 65535
                },
                Err(e) => match spec_parse_text(tt) {
                    Err(e1) => e == e1,
                    Ok(tb) => if tb.len() > 65535 {
                        e == Error::UnknownLabelFormat
                    } else {
                        match spec_parse_text(tn) {
                            Err(e2) => e == e2,
                            Ok(nb) => nb.len() > 65535 && e == Error::UnknownLabelFormat,
                        }
                    },
                },
            }
        }),
{
    let mut tt: Vec<u8> = svc_type.as_bytes_vec();
    push_local_suffix(&mut tt);
    proof {
        assert(tt@ == svc_type.spec_bytes() + local_suffix());
    }
    let typ = match Name::from_text_bytes(&tt) {
        Ok(n) => n,
        Err(e) => {
            return Err(e);
        },
    };
    if typ.encoded_len() > 65535 {
        return Err(Error::UnknownLabelFormat);
    }
    let mut tn: Vec<u8> = svc_name.as_bytes_vec();
    tn.push(46);
    let tb = svc_type.as_bytes_vec();
    push_bytes(&mut tn, &tb);
    push_local_suffix(&mut tn);
    proof {
        assert(tn@ =~= svc_name.spec_bytes() + seq![46u8] + svc_type.spec_bytes()
            + local_suffix());
    }
    let name = match Name::from_text_bytes(&tn) {
        Ok(n) => n,
        Err(e) => {
            return Err(e);
        },
    };
    if name.encoded_len() > 65535 {
        return Err(Error::UnknownLabelFormat);
    }
    Ok((name, typ))
}

} // verus!
