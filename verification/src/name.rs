//! Domain names: the expanded label encoding, decoding from a datagram
//! (following compression pointers safely), and encoding into a buffer.
//!
//! A name is held in its expanded wire encoding: a run of length-prefixed
//! ASCII labels of 1 to 63 bytes each, closed by a single zero byte. Two
//! names are equal exactly when these encodings are byte-identical, no
//! matter how they were produced.

use vstd::prelude::*;
use vstd::slice::slice_to_vec;
use vstd::string::StringSliceAdditionalSpecFns;

use crate::error::Error;

verus! {

/// True for bytes in the ASCII range.
pub open spec fn is_ascii_byte(b: u8) -> bool {
    b < 128
}

/// Well-formed expanded name encoding: length-prefixed ASCII labels, each
/// 1 to 63 bytes, closed by a single zero byte.
pub open spec fn wf_name(s: Seq<u8>) -> bool
    decreases s.len(),
{
    &&& s.len() > 0
    &&& if s[0] == 0 {
        s.len() == 1
    } else {
        &&& s[0] <= 63
        &&& s.len() > s[0] + 1
        &&& (forall|i: int| 1 <= i <= s[0] ==> is_ascii_byte(#[trigger] s[i]))
        &&& wf_name(s.subrange(s[0] + 1, s.len() as int))
    }
}

/// One name decoded from `data` starting at `pos`, as the parser reads it.
///
/// `end` bounds the label walk until the first compression pointer is
/// taken: it is the extent of the enclosing structure (the RDATA field or
/// the whole datagram). After a jump the walk may range over the whole
/// datagram. `limit` is the bound a jump target must fall strictly below;
/// the walk starts with `limit == pos` and every taken jump lowers it, so
/// a pointer chain that does not make strict backward progress — in
/// particular any cycle — is rejected rather than followed forever.
///
/// A successful result carries the expanded encoding of the name and how
/// many bytes the name occupies at `pos` (up to and including the zero
/// terminator, or the two bytes of the first pointer).
pub open spec fn spec_scan(data: Seq<u8>, pos: int, end: int, limit: int) -> Result<
    (Seq<u8>, int),
    Error,
>
    decreases limit, end - pos,
{
    if pos < 0 || pos >= end || end > data.len() {
        Err(Error::UnexpectedEOF)
    } else {
        let b = data[pos];
        if b == 0 {
            Ok((seq![0u8], 1))
        } else if b & 0xC0 == 0xC0 {
            if pos + 2 > end {
                Err(Error::UnexpectedEOF)
            } else {
                let off = (b & 0x3F) as int * 256 + data[pos + 1] as int;
                if off >= data.len() || off >= limit {
                    Err(Error::UnexpectedEOF)
                } else {
                    match spec_scan(data, off, data.len() as int, off) {
                        Ok((name, _)) => Ok((name, 2)),
                        Err(e) => Err(e),
                    }
                }
            }
        } else if b & 0xC0 == 0 {
            let lend = pos + b + 1;
            if lend >= end {
                Err(Error::UnexpectedEOF)
            } else if exists|i: int| pos + 1 <= i < lend && !is_ascii_byte(#[trigger] data[i]) {
                Err(Error::LabelIsNotAscii)
            } else {
                match spec_scan(data, lend, end, limit) {
                    Ok((rest, n)) => Ok((data.subrange(pos, lend) + rest, b + 1 + n)),
                    Err(e) => Err(e),
                }
            }
        } else {
            Err(Error::UnknownLabelFormat)
        }
    }
}

/// A successful scan yields a well-formed name that occupied at least one
/// byte and stayed within the walk's extent.
pub proof fn lemma_spec_scan_ok(data: Seq<u8>, pos: int, end: int, limit: int)
    ensures
        spec_scan(data, pos, end, limit) matches Ok((name, n)) ==> {
            &&& wf_name(name)
            &&& 1 <= n
            &&& pos + n <= end
        },
    decreases limit, end - pos,
{
    if pos < 0 || pos >= end || end > data.len() {
    } else {
        let b = data[pos];
        if b == 0 {
            assert(wf_name(seq![0u8]));
        } else if b & 0xC0 == 0xC0 {
            if pos + 2 > end {
            } else {
                let off = (b & 0x3F) as int * 256 + data[pos + 1] as int;
                if off >= data.len() || off >= limit {
                } else {
                    lemma_spec_scan_ok(data, off, data.len() as int, off);
                }
            }
        } else if b & 0xC0 == 0 {
            let lend = pos + b + 1;
            if lend >= end {
            } else if exists|i: int| pos + 1 <= i < lend && !is_ascii_byte(#[trigger] data[i]) {
            } else {
                lemma_spec_scan_ok(data, lend, end, limit);
                if let Ok((rest, n)) = spec_scan(data, lend, end, limit) {
                    let whole = data.subrange(pos, lend) + rest;
                    assert(b <= 63) by (bit_vector)
                        requires
                            b & 0xC0 == 0,
                    ;
                    assert(whole[0] == b);
                    assert(whole.subrange(b + 1, whole.len() as int) =~= rest);
                    assert(forall|i: int|
                        1 <= i <= b ==> is_ascii_byte(#[trigger] whole[i]) && whole[i] == data[pos
                            + i]);
                    assert(wf_name(whole));
                }
            }
        } else {
        }
    }
}

/// Scanning at the spot where a well-formed name was written literally
/// (no pointers) recovers exactly that name, whatever the walk's bounds
/// beyond it.
pub proof fn lemma_scan_literal(data: Seq<u8>, pos: int, end: int, limit: int, name: Seq<u8>)
    requires
        wf_name(name),
        0 <= pos,
        pos + name.len() <= end,
        end <= data.len(),
        data.subrange(pos, pos + name.len()) == name,
    ensures
        spec_scan(data, pos, end, limit) == Ok::<(Seq<u8>, int), Error>((name, name.len() as int)),
    decreases name.len(),
{
    let b = name[0];
    assert(data[pos] == name[0]) by {
        assert(data.subrange(pos, pos + name.len())[0] == data[pos]);
    }
    if b == 0 {
        assert(name =~= seq![0u8]);
    } else {
        assert(b <= 63);
        assert(b & 0xC0 == 0 && b & 0xC0 != 0xC0) by (bit_vector)
            requires
                b <= 63 && b != 0,
        ;
        let lend = pos + b + 1;
        assert(lend < end);
        // every byte of the name sits at its place in the datagram
        assert(forall|j: int|
            0 <= j < name.len() ==> data[pos + j] == #[trigger] name[j]) by {
            assert(forall|j: int|
                0 <= j < name.len() ==> data.subrange(pos, pos + name.len())[j] == #[trigger] name[
                    j
                ]);
        }
        assert(forall|i: int| pos + 1 <= i < lend ==> is_ascii_byte(#[trigger] data[i])) by {
            assert(forall|i: int|
                pos + 1 <= i < lend ==> data[i] == name[i - pos] && 1 <= i - pos <= name[0]);
        }
        let rest = name.subrange(b + 1, name.len() as int);
        assert(data.subrange(lend, lend + rest.len()) =~= rest);
        lemma_scan_literal(data, lend, end, limit, rest);
        assert(data.subrange(pos, lend) =~= name.subrange(0, b + 1));
        assert(data.subrange(pos, lend) + rest =~= name);
        assert(b + 1 + rest.len() == name.len());
    }
}

/// True when every byte in `data[start..lend)` is ASCII.
fn label_ascii_ok(data: &[u8], start: usize, lend: usize) -> (r: bool)
    requires
        start <= lend <= data@.len(),
    ensures
        r == (forall|j: int| start <= j < lend ==> is_ascii_byte(#[trigger] data@[j])),
{
    let mut i = start;
    while i < lend
        invariant
            start <= i <= lend,
            lend <= data@.len(),
            forall|j: int| start <= j < i ==> is_ascii_byte(#[trigger] data@[j]),
        decreases lend - i,
    {
        if data[i] >= 128 {
            return false;
        }
        i += 1;
    }
    true
}

/// A domain name, held as its expanded wire encoding.
///
/// Built either by decoding a datagram (`scan`) or from a dot-separated
/// text form (`from_str`); equality and hashing go by the expanded
/// encoding alone.
#[derive(Debug, Hash)]
pub struct Name {
    bytes: Vec<u8>,
}

impl View for Name {
    type V = Seq<u8>;

    closed spec fn view(&self) -> Seq<u8> {
        self.bytes@
    }
}

impl Clone for Name {
    /// A clone carries the same expanded encoding.
    fn clone(&self) -> (r: Name)
        ensures
            r@ == self@,
    {
        Name { bytes: slice_to_vec(self.bytes.as_slice()) }
    }
}

impl PartialEq for Name {
    /// Names are equal exactly when their expanded encodings are.
    fn eq(&self, other: &Name) -> (r: bool) {
        if self.bytes.len() != other.bytes.len() {
            return false;
        }
        let n = self.bytes.len();
        let mut i: usize = 0;
        while i < n
            invariant
                i <= n,
                n == self.bytes@.len(),
                n == other.bytes@.len(),
                forall|j: int| 0 <= j < i ==> self.bytes@[j] == other.bytes@[j],
            decreases n - i,
        {
            if self.bytes[i] != other.bytes[i] {
                return false;
            }
            i += 1;
        }
        proof {
            assert(self.bytes@ =~= other.bytes@);
        }
        true
    }
}

impl Eq for Name {

}

impl vstd::std_specs::cmp::PartialEqSpecImpl for Name {
    open spec fn obeys_eq_spec() -> bool {
        true
    }

    open spec fn eq_spec(&self, other: &Name) -> bool {
        self@ == other@
    }
}

impl Name {
    /// Well-formed: the encoding really is a run of labels closed by zero.
    pub open spec fn wf(&self) -> bool {
        wf_name(self@)
    }

    /// Decodes the name found at `pos` in a datagram.
    ///
    /// `end` is the extent the label walk may use before the first
    /// compression pointer is taken: the end of the enclosing RDATA field,
    /// or of the datagram itself. Pointers are followed through the whole
    /// datagram, each jump strictly backward, so hostile input — a pointer
    /// past the datagram, a chain that loops — is answered with an error,
    /// never a crash or an unbounded walk.
    ///
    /// On success also yields how many bytes the name occupies at `pos`.
    pub fn scan(data: &[u8], pos: usize, end: usize) -> (r: Result<(Name, usize), Error>)
        ensures
            match r {
                Ok((name, n)) => {
                    &&& spec_scan(data@, pos as int, end as int, pos as int) == Ok::<
                        (Seq<u8>, int),
                        Error,
                    >((name@, n as int))
                    &&& name.wf()
                    &&& 1 <= n
                    &&& pos + n <= end
                },
                Err(e) => spec_scan(data@, pos as int, end as int, pos as int) == Err::<
                    (Seq<u8>, int),
                    Error,
                >(e),
            },
    {
        let len = data.len();
        let mut out: Vec<u8> = Vec::new();
        let mut cur = pos;
        let mut cur_end = end;
        let mut limit = pos;
        let mut jumped = false;
        let mut consumed: usize = 0;
        proof {
            if let Ok((rest, n)) = spec_scan(data@, pos as int, end as int, pos as int) {
                assert(out@ + rest =~= rest);
            }
        }
        loop
            invariant
                len == data@.len(),
                !jumped ==> cur_end == end && limit == pos && pos <= cur,
                jumped ==> cur_end == len && 1 <= consumed && pos + consumed <= end,
                (match spec_scan(data@, cur as int, cur_end as int, limit as int) {
                    Ok((rest, n)) => spec_scan(data@, pos as int, end as int, pos as int) == Ok::<
                        (Seq<u8>, int),
                        Error,
                    >(
                        (
                            out@ + rest,
                            if jumped {
                                consumed as int
                            } else {
                                cur - pos + n
                            },
                        ),
                    ),
                    Err(e) => spec_scan(data@, pos as int, end as int, pos as int) == Err::<
                        (Seq<u8>, int),
                        Error,
                    >(e),
                }),
            decreases limit, cur_end - cur,
        {
            if cur >= cur_end || cur_end > len {
                return Err(Error::UnexpectedEOF);
            }
            let b = data[cur];
            if b == 0 {
                let ghost out_pre = out@;
                out.push(0);
                let n = if jumped {
                    consumed
                } else {
                    cur + 1 - pos
                };
                proof {
                    assert(spec_scan(data@, cur as int, cur_end as int, limit as int) == Ok::<
                        (Seq<u8>, int),
                        Error,
                    >((seq![0u8], 1)));
                    assert(out@ =~= out_pre + seq![0u8]);
                    lemma_spec_scan_ok(data@, pos as int, end as int, pos as int);
                }
                return Ok((Name { bytes: out }, n));
            } else if b & 0xC0 == 0xC0 {
                if cur + 1 >= cur_end {
                    return Err(Error::UnexpectedEOF);
                }
                let off = ((b & 0x3F) as usize) * 256 + (data[cur + 1] as usize);
                if off >= len {
                    return Err(Error::UnexpectedEOF);
                }
                if off >= limit {
                    return Err(Error::UnexpectedEOF);
                }
                proof {
                    assert(spec_scan(data@, cur as int, cur_end as int, limit as int) == (
                    match spec_scan(data@, off as int, len as int, off as int) {
                        Ok((nm, _)) => Ok::<(Seq<u8>, int), Error>((nm, 2)),
                        Err(e) => Err::<(Seq<u8>, int), Error>(e),
                    }));
                }
                if !jumped {
                    jumped = true;
                    consumed = cur + 2 - pos;
                }
                limit = off;
                cur = off;
                cur_end = len;
            } else if b & 0xC0 == 0 {
                let rem = cur_end - cur;
                if (b as usize) + 1 >= rem {
                    return Err(Error::UnexpectedEOF);
                }
                let lend = cur + (b as usize) + 1;
                if !label_ascii_ok(data, cur + 1, lend) {
                    proof {
                        assert(exists|j: int|
                            cur + 1 <= j < lend && !is_ascii_byte(#[trigger] data@[j]));
                        assert(spec_scan(data@, cur as int, cur_end as int, limit as int) == Err::<
                            (Seq<u8>, int),
                            Error,
                        >(Error::LabelIsNotAscii));
                    }
                    return Err(Error::LabelIsNotAscii);
                }
                proof {
                    assert(!(exists|j: int|
                        cur + 1 <= j < lend && !is_ascii_byte(#[trigger] data@[j])));
                    assert(spec_scan(data@, cur as int, cur_end as int, limit as int) == (
                    match spec_scan(data@, lend as int, cur_end as int, limit as int) {
                        Ok((rest, n)) => Ok::<(Seq<u8>, int), Error>(
                            (data@.subrange(cur as int, lend as int) + rest, b + 1 + n),
                        ),
                        Err(e) => Err::<(Seq<u8>, int), Error>(e),
                    }));
                }
                let ghost out0 = out@;
                let mut i = cur;
                proof {
                    assert(out@ =~= out0 + data@.subrange(cur as int, cur as int));
                }
                while i < lend
                    invariant
                        cur <= i <= lend,
                        lend <= cur_end <= len,
                        len == data@.len(),
                        out@ == out0 + data@.subrange(cur as int, i as int),
                    decreases lend - i,
                {
                    out.push(data[i]);
                    i += 1;
                    proof {
                        assert(out@ =~= out0 + data@.subrange(cur as int, i as int));
                    }
                }
                proof {
                    if let Ok((rest2, n2)) = spec_scan(
                        data@,
                        lend as int,
                        cur_end as int,
                        limit as int,
                    ) {
                        assert(out0 + (data@.subrange(cur as int, lend as int) + rest2) =~= out@
                            + rest2);
                    }
                }
                cur = lend;
            } else {
                return Err(Error::UnknownLabelFormat);
            }
        }
    }

    /// Appends the expanded encoding to a buffer.
    pub fn write_to(&self, buf: &mut Vec<u8>)
        ensures
            final(buf)@ == old(buf)@ + self@,
    {
        let ghost buf0 = old(buf)@;
        let n = self.bytes.len();
        let mut i: usize = 0;
        while i < n
            invariant
                i <= n,
                n == self.bytes@.len(),
                buf@ == buf0 + self.bytes@.subrange(0, i as int),
            decreases n - i,
        {
            buf.push(self.bytes[i]);
            i += 1;
            proof {
                assert(buf@ =~= buf0 + self.bytes@.subrange(0, i as int));
            }
        }
        proof {
            assert(buf@ =~= buf0 + self@);
        }
    }

    /// Builds a name directly from a well-formed expanded encoding.
    pub fn from_bytes(bytes: Vec<u8>) -> (r: Name)
        requires
            wf_name(bytes@),
        ensures
            r@ == bytes@,
            r.wf(),
    {
        Name { bytes }
    }

    /// The length of the expanded encoding in bytes.
    pub fn encoded_len(&self) -> (n: usize)
        ensures
            n == self@.len(),
    {
        self.bytes.len()
    }
}


/// The index of the first dot in a text, or the text's length if none.
pub open spec fn dot_pos(t: Seq<u8>) -> int
    decreases t.len(),
{
    if t.len() == 0 {
        0
    } else if t[0] == 46 {
        0
    } else {
        1 + dot_pos(t.subrange(1, t.len() as int))
    }
}

/// `dot_pos` points at the first dot: nothing before it is one, and it
/// only falls short of the length when it marks an actual dot.
pub proof fn lemma_dot_pos(t: Seq<u8>)
    ensures
        0 <= dot_pos(t) <= t.len(),
        dot_pos(t) < t.len() ==> t[dot_pos(t)] == 46,
        forall|i: int| 0 <= i < dot_pos(t) ==> t[i] != 46,
    decreases t.len(),
{
    if t.len() == 0 {
    } else if t[0] == 46 {
    } else {
        let u = t.subrange(1, t.len() as int);
        lemma_dot_pos(u);
        assert forall|i: int| 0 <= i < dot_pos(t) implies t[i] != 46 by {
            if i >= 1 {
                assert(u[i - 1] == t[i]);
                assert(u[i - 1] != 46);
            }
        }
    }
}

/// A dot-separated text encoded as a name: each dot-free run becomes one
/// label. Rejected when a run is empty or longer than 63 bytes
/// (`UnknownLabelFormat`) or holds a byte outside ASCII
/// (`LabelIsNotAscii`); the leftmost offending run decides the error.
pub open spec fn spec_parse_text(t: Seq<u8>) -> Result<Seq<u8>, Error>
    decreases t.len(),
{
    let k = dot_pos(t);
    if k <= 0 {
        Err(Error::UnknownLabelFormat)
    } else if k > 63 {
        Err(Error::UnknownLabelFormat)
    } else if exists|i: int| 0 <= i < k && !is_ascii_byte(#[trigger] t[i]) {
        Err(Error::LabelIsNotAscii)
    } else if k >= t.len() {
        Ok(seq![k as u8] + t + seq![0u8])
    } else {
        match spec_parse_text(t.subrange(k + 1, t.len() as int)) {
            Ok(rest) => Ok(seq![k as u8] + t.subrange(0, k) + rest),
            Err(e) => Err(e),
        }
    }
}

/// A successfully encoded text is a well-formed name, two bytes longer
/// than the text itself.
pub proof fn lemma_parse_text_ok(t: Seq<u8>)
    ensures
        spec_parse_text(t) matches Ok(nm) ==> wf_name(nm) && nm.len() == t.len() + 2,
    decreases t.len(),
{
    lemma_dot_pos(t);
    let k = dot_pos(t);
    if k == 0 || k > 63 {
    } else if exists|i: int| 0 <= i < k && !is_ascii_byte(#[trigger] t[i]) {
    } else if k >= t.len() {
        let nm = seq![k as u8] + t + seq![0u8];
        assert(k == t.len());
        assert(nm[0] == k as u8 && k as u8 == k && nm.len() == k + 2);
        assert(nm.subrange(k + 1, nm.len() as int) =~= seq![0u8]);
        assert(nm.subrange(nm[0] + 1, nm.len() as int) == nm.subrange(k + 1, nm.len() as int));
        assert(wf_name(seq![0u8]));
        assert forall|i: int| 1 <= i <= nm[0] implies is_ascii_byte(#[trigger] nm[i]) by {
            assert(nm[i] == t[i - 1]);
            assert(is_ascii_byte(t[i - 1]));
        }
        assert(wf_name(nm));
    } else {
        lemma_parse_text_ok(t.subrange(k + 1, t.len() as int));
        if let Ok(rest) = spec_parse_text(t.subrange(k + 1, t.len() as int)) {
            let nm = seq![k as u8] + t.subrange(0, k) + rest;
            assert(nm[0] == k as u8 && k as u8 == k && nm.len() == k + 1 + rest.len());
            assert(nm.subrange(k + 1, nm.len() as int) =~= rest);
            assert(nm.subrange(nm[0] + 1, nm.len() as int) == nm.subrange(k + 1, nm.len() as int));
            assert forall|i: int| 1 <= i <= nm[0] implies is_ascii_byte(#[trigger] nm[i]) by {
                assert(nm[i] == t.subrange(0, k)[i - 1]);
                assert(t.subrange(0, k)[i - 1] == t[i - 1]);
                assert(is_ascii_byte(t[i - 1]));
            }
            assert(wf_name(nm));
        }
    }
}

/// The text form of an expanded name: its labels joined with dots.
pub open spec fn name_text(s: Seq<u8>) -> Seq<u8>
    decreases s.len(),
{
    if s.len() == 0 {
        Seq::empty()
    } else {
        let b = s[0] as int;
        if b == 0 {
            Seq::empty()
        } else if s.len() < b + 2 {
            Seq::empty()
        } else {
            let lbl = s.subrange(1, b + 1);
            let rest = s.subrange(b + 1, s.len() as int);
            if rest[0] == 0 {
                lbl
            } else {
                lbl + seq![46u8] + name_text(rest)
            }
        }
    }
}

/// The characters spelled by a run of ASCII bytes, one per byte.
pub open spec fn ascii_chars(bytes: Seq<u8>) -> Seq<char> {
    Seq::new(bytes.len(), |i: int| bytes[i] as char)
}

/// Relies on String::from_utf8: ASCII bytes decode to a string of the
/// same characters, one character per byte.
#[verifier::external_body]
fn ascii_bytes_to_string(v: Vec<u8>) -> (r: String)
    requires
        forall|i: int| 0 <= i < v@.len() ==> is_ascii_byte(#[trigger] v@[i]),
    ensures
        r@ == ascii_chars(v@),
{
    match String::from_utf8(v) {
        Ok(s) => s,
        Err(_) => String::new(),
    }
}

/// Appends the text form of the well-formed name found at `p` to `out`.
fn text_append(bytes: &Vec<u8>, p: usize, out: &mut Vec<u8>)
    requires
        p < bytes@.len(),
        wf_name(bytes@.subrange(p as int, bytes@.len() as int)),
    ensures
        final(out)@ == old(out)@ + name_text(bytes@.subrange(p as int, bytes@.len() as int)),
    decreases bytes@.len() - p,
{
    let ghost s = bytes@.subrange(p as int, bytes@.len() as int);
    let ghost out0 = old(out)@;
    let len = bytes.len();
    let b = bytes[p];
    proof {
        assert(s[0] == b);
    }
    if b == 0 {
        proof {
            assert(out@ =~= out0 + name_text(s));
        }
        return ;
    }
    let lend = p + (b as usize) + 1;
    proof {
        assert(s.len() > b + 1);
    }
    let mut i = p + 1;
    while i < lend
        invariant
            p + 1 <= i <= lend,
            lend <= len == bytes@.len(),
            lend == p + b + 1,
            out@ == out0 + bytes@.subrange(p + 1, i as int),
        decreases lend - i,
    {
        out.push(bytes[i]);
        i += 1;
        proof {
            assert(out@ =~= out0 + bytes@.subrange(p + 1, i as int));
        }
    }
    proof {
        assert(s.subrange(1, b + 1) =~= bytes@.subrange(p + 1, lend as int));
        assert(s.subrange(b + 1, s.len() as int) =~= bytes@.subrange(lend as int, len as int));
    }
    if bytes[lend] == 0 {
        proof {
            assert(name_text(s) == s.subrange(1, b + 1));
        }
        return ;
    }
    let ghost out1 = out@;
    out.push(46);
    proof {
        assert(wf_name(bytes@.subrange(lend as int, len as int)));
    }
    text_append(bytes, lend, out);
    proof {
        assert(out@ =~= out0 + name_text(s));
    }
}

impl Name {
    /// Builds a name from its dot-separated text form, as
    /// `spec_parse_text` describes: one label per dot-free run.
    pub fn from_str(s: &str) -> (r: Result<Name, Error>)
        ensures
            match r {
                Ok(n) => spec_parse_text(s.spec_bytes()) == Ok::<Seq<u8>, Error>(n@) && n.wf()
                    && n@.len() == s.spec_bytes().len() + 2,
                Err(e) => spec_parse_text(s.spec_bytes()) == Err::<Seq<u8>, Error>(e),
            },
    {
        let bytes = s.as_bytes_vec();
        Name::from_text_bytes(&bytes)
    }

    /// Builds a name from the bytes of its dot-separated text form.
    pub fn from_text_bytes(text: &Vec<u8>) -> (r: Result<Name, Error>)
        ensures
            match r {
                Ok(n) => spec_parse_text(text@) == Ok::<Seq<u8>, Error>(n@) && n.wf() && n@.len()
                    == text@.len() + 2,
                Err(e) => spec_parse_text(text@) == Err::<Seq<u8>, Error>(e),
            },
    {
        let bytes = text;
        let len = bytes.len();
        let mut out: Vec<u8> = Vec::new();
        let mut start: usize = 0;
        proof {
            assert(bytes@.subrange(0, len as int) =~= bytes@);
            if let Ok(rest) = spec_parse_text(bytes@) {
                assert(out@ + rest =~= rest);
            }
        }
        loop
            invariant
                len == bytes@.len(),
                bytes@ == text@,
                start <= len,
                (match spec_parse_text(bytes@.subrange(start as int, len as int)) {
                    Ok(rest) => spec_parse_text(text@) == Ok::<Seq<u8>, Error>(out@ + rest),
                    Err(e) => spec_parse_text(text@) == Err::<Seq<u8>, Error>(e),
                }),
            decreases len - start,
        {
            let ghost t = bytes@.subrange(start as int, len as int);
            let mut j = start;
            while j < len && bytes[j] != 46
                invariant
                    start <= j <= len,
                    len == bytes@.len(),
                    forall|x: int| start <= x < j ==> bytes@[x] != 46,
                decreases len - j,
            {
                j += 1;
            }
            proof {
                lemma_dot_pos(t);
                assert(forall|x: int| 0 <= x < t.len() ==> t[x] == bytes@[start + x]);
                if dot_pos(t) < j - start {
                    assert(t[dot_pos(t)] == 46);
                    assert(false);
                }
                if dot_pos(t) > j - start {
                    if j < len {
                        assert(t[j - start] == 46);
                        assert(false);
                    } else {
                        assert(dot_pos(t) <= t.len());
                        assert(false);
                    }
                }
                assert(dot_pos(t) == j - start);
            }
            let k = j - start;
            if k == 0 {
                return Err(Error::UnknownLabelFormat);
            }
            if k > 63 {
                return Err(Error::UnknownLabelFormat);
            }
            if !label_ascii_ok(bytes.as_slice(), start, j) {
                proof {
                    assert(exists|i: int|
                        0 <= i < k && !is_ascii_byte(#[trigger] t[i])) by {
                        let w = choose|x: int|
                            start <= x < j && !is_ascii_byte(#[trigger] bytes@[x]);
                        assert(t[w - start] == bytes@[w]);
                    }
                }
                return Err(Error::LabelIsNotAscii);
            }
            proof {
                assert(!(exists|i: int| 0 <= i < k && !is_ascii_byte(#[trigger] t[i]))) by {
                    if exists|i: int| 0 <= i < k && !is_ascii_byte(#[trigger] t[i]) {
                        let w = choose|i: int| 0 <= i < k && !is_ascii_byte(#[trigger] t[i]);
                        assert(bytes@[start + w] == t[w]);
                    }
                }
            }
            let ghost out_pre = out@;
            out.push(k as u8);
            let mut i = start;
            while i < j
                invariant
                    start <= i <= j <= len,
                    len == bytes@.len(),
                    out@ == out_pre + seq![(j - start) as u8] + bytes@.subrange(
                        start as int,
                        i as int,
                    ),
                decreases j - i,
            {
                out.push(bytes[i]);
                i += 1;
                proof {
                    assert(out@ =~= out_pre + seq![(j - start) as u8] + bytes@.subrange(
                        start as int,
                        i as int,
                    ));
                }
            }
            if j == len {
                out.push(0);
                proof {
                    assert(spec_parse_text(t) == Ok::<Seq<u8>, Error>(
                        seq![k as u8] + t + seq![0u8],
                    ));
                    assert(out@ =~= out_pre + (seq![k as u8] + t + seq![0u8]));
                    lemma_parse_text_ok(bytes@);
                }
                return Ok(Name { bytes: out });
            }
            proof {
                assert(t.subrange(k + 1, t.len() as int) =~= bytes@.subrange(
                    j + 1,
                    len as int,
                ));
                assert(t.subrange(0, k as int) =~= bytes@.subrange(start as int, j as int));
                if let Ok(rest) = spec_parse_text(bytes@.subrange(j + 1, len as int)) {
                    assert(out_pre + (seq![k as u8] + t.subrange(0, k as int) + rest) =~= out@
                        + rest);
                }
            }
            start = j + 1;
        }
    }

    /// The dot-separated text form of this name.
    pub fn to_string(&self) -> (r: String)
        requires
            self.wf(),
        ensures
            r@ == ascii_chars(name_text(self@)),
    {
        let mut text: Vec<u8> = Vec::new();
        proof {
            assert(self.bytes@.subrange(0, self.bytes@.len() as int) =~= self.bytes@);
            lemma_name_text_ascii(self@);
        }
        text_append(&self.bytes, 0, &mut text);
        ascii_bytes_to_string(text)
    }
}

/// Every byte of a well-formed name's text form is ASCII.
pub proof fn lemma_name_text_ascii(s: Seq<u8>)
    requires
        wf_name(s),
    ensures
        forall|i: int| 0 <= i < name_text(s).len() ==> is_ascii_byte(#[trigger] name_text(s)[i]),
    decreases s.len(),
{
    let b = s[0] as int;
    if b == 0 {
    } else {
        let lbl = s.subrange(1, b + 1);
        let rest = s.subrange(b + 1, s.len() as int);
        assert(forall|i: int| 0 <= i < lbl.len() ==> is_ascii_byte(#[trigger] lbl[i])) by {
            assert(forall|i: int| 0 <= i < lbl.len() ==> lbl[i] == s[i + 1]);
        }
        if rest[0] == 0 {
        } else {
            lemma_name_text_ascii(rest);
            assert(forall|i: int|
                0 <= i < name_text(s).len() ==> is_ascii_byte(#[trigger] name_text(s)[i])) by {
                assert(name_text(s) == lbl + seq![46u8] + name_text(rest));
            }
        }
    }
}


/// Hostile compression is answered with an error: a pointer whose
/// 14-bit target lies at or past the end of the datagram, or fails to
/// jump strictly backward (as every cyclic chain eventually must), stops
/// the scan with `UnexpectedEOF` rather than being followed.
pub proof fn lemma_scan_rejects_bad_pointer(data: Seq<u8>, pos: int, end: int, limit: int)
    requires
        0 <= pos,
        pos + 2 <= end,
        end <= data.len(),
        data[pos] & 0xC0 == 0xC0,
        (data[pos] & 0x3F) as int * 256 + data[pos + 1] as int >= data.len() || (data[pos]
            & 0x3F) as int * 256 + data[pos + 1] as int >= limit,
    ensures
        spec_scan(data, pos, end, limit) == Err::<(Seq<u8>, int), Error>(Error::UnexpectedEOF),
{
    let b = data[pos];
    assert(b != 0) by (bit_vector)
        requires
            b & 0xC0 == 0xC0,
    ;
}


/// Text round trip: a name built from a dot-separated text spells back
/// exactly that text.
pub proof fn lemma_text_roundtrip(t: Seq<u8>)
    ensures
        spec_parse_text(t) matches Ok(nm) ==> name_text(nm) == t,
    decreases t.len(),
{
    lemma_dot_pos(t);
    let k = dot_pos(t);
    if k <= 0 || k > 63 {
    } else if exists|i: int| 0 <= i < k && !is_ascii_byte(#[trigger] t[i]) {
    } else if k >= t.len() {
        let nm = seq![k as u8] + t + seq![0u8];
        assert(nm[0] == k as u8 && k as u8 == k);
        assert(nm.len() == k + 2);
        assert(nm.subrange(1, k + 1) =~= t);
        assert(nm.subrange(k + 1, nm.len() as int) =~= seq![0u8]);
        assert(name_text(nm) == nm.subrange(1, k + 1));
    } else {
        lemma_text_roundtrip(t.subrange(k + 1, t.len() as int));
        lemma_parse_text_ok(t.subrange(k + 1, t.len() as int));
        if let Ok(rest) = spec_parse_text(t.subrange(k + 1, t.len() as int)) {
            let nm = seq![k as u8] + t.subrange(0, k) + rest;
            assert(nm[0] == k as u8 && k as u8 == k);
            assert(nm.len() == k + 1 + rest.len() && rest.len() >= 2);
            assert(nm.subrange(1, k + 1) =~= t.subrange(0, k));
            assert(nm.subrange(k + 1, nm.len() as int) =~= rest);
            // the tail encoding starts with a label, never the terminator
            assert(rest[0] != 0) by {
                lemma_dot_pos(t.subrange(k + 1, t.len() as int));
            }
            assert(name_text(nm) == t.subrange(0, k) + seq![46u8] + name_text(rest));
            assert(t.subrange(0, k) + seq![46u8] + t.subrange(k + 1, t.len() as int) =~= t);
        }
    }
}


/// A run of complete labels with no terminator yet: the shape of what
/// can precede a compression pointer inside one name.
pub open spec fn label_run(s: Seq<u8>) -> bool
    decreases s.len(),
{
    if s.len() == 0 {
        true
    } else {
        &&& 1 <= s[0] <= 63
        &&& s.len() >= s[0] + 1
        &&& (forall|i: int| 1 <= i <= s[0] ==> is_ascii_byte(#[trigger] s[i]))
        &&& label_run(s.subrange(s[0] + 1, s.len() as int))
    }
}

/// Hostile compression anywhere in a name: however many labels precede
/// it, a pointer aiming at or past the end of the datagram, or failing
/// to jump strictly backward, stops the scan with `UnexpectedEOF`.
pub proof fn lemma_scan_rejects_bad_pointer_in_name(
    data: Seq<u8>,
    pos: int,
    end: int,
    limit: int,
    run: Seq<u8>,
)
    requires
        label_run(run),
        0 <= pos,
        pos + run.len() + 2 <= end,
        end <= data.len(),
        data.subrange(pos, pos + run.len()) == run,
        data[pos + run.len()] & 0xC0 == 0xC0,
        (data[pos + run.len()] & 0x3F) as int * 256 + data[pos + run.len() + 1] as int
            >= data.len() || (data[pos + run.len()] & 0x3F) as int * 256 + data[pos + run.len()
            + 1] as int >= limit,
    ensures
        spec_scan(data, pos, end, limit) == Err::<(Seq<u8>, int), Error>(Error::UnexpectedEOF),
    decreases run.len(),
{
    if run.len() == 0 {
        lemma_scan_rejects_bad_pointer(data, pos, end, limit);
    } else {
        let b = run[0];
        assert(forall|j: int| 0 <= j < run.len() ==> data[pos + j] == #[trigger] run[j]) by {
            assert(forall|j: int|
                0 <= j < run.len() ==> data.subrange(pos, pos + run.len())[j] == #[trigger] run[
                    j
                ]);
        }
        assert(data[pos] == b);
        assert(b & 0xC0 == 0 && b & 0xC0 != 0xC0) by (bit_vector)
            requires
                1 <= b <= 63,
        ;
        let lend = pos + b + 1;
        assert(lend <= pos + run.len());
        assert(lend < end);
        assert(forall|i: int| pos + 1 <= i < lend ==> is_ascii_byte(#[trigger] data[i])) by {
            assert(forall|i: int|
                pos + 1 <= i < lend ==> data[i] == run[i - pos] && 1 <= i - pos <= run[0]);
        }
        let rest = run.subrange(b + 1, run.len() as int);
        assert(data.subrange(lend, lend + rest.len()) =~= rest);
        assert(lend + rest.len() == pos + run.len());
        lemma_scan_rejects_bad_pointer_in_name(data, lend, end, limit, rest);
    }
}

} // verus!
