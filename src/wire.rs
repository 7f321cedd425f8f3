use vstd::prelude::*;
use vstd::utf8::{decode_utf8, encode_utf8, encode_utf8_decode_utf8, encode_utf8_valid_utf8, valid_utf8};
use vstd::string::StringSliceAdditionalSpecFns;

verus! {

/// The eight little-endian bytes of `v`.
pub open spec fn le_bytes(v: u64) -> Seq<u8> {
    seq![
        (v & 0xff) as u8,
        ((v >> 8u64) & 0xff) as u8,
        ((v >> 16u64) & 0xff) as u8,
        ((v >> 24u64) & 0xff) as u8,
        ((v >> 32u64) & 0xff) as u8,
        ((v >> 40u64) & 0xff) as u8,
        ((v >> 48u64) & 0xff) as u8,
        ((v >> 56u64) & 0xff) as u8,
    ]
}

/// The value of the eight little-endian bytes of `s` that start at `p`.
pub open spec fn le_value_at(s: Seq<u8>, p: int) -> u64 {
    le_combine(s[p], s[p + 1], s[p + 2], s[p + 3], s[p + 4], s[p + 5], s[p + 6], s[p + 7])
}

pub open spec fn le_combine(b0: u8, b1: u8, b2: u8, b3: u8, b4: u8, b5: u8, b6: u8, b7: u8) -> u64 {
    (b0 as u64) | ((b1 as u64) << 8u64) | ((b2 as u64) << 16u64) | ((b3 as u64) << 24u64) | ((
    b4 as u64) << 32u64) | ((b5 as u64) << 40u64) | ((b6 as u64) << 48u64) | ((b7 as u64)
        << 56u64)
}

/// The 128-bit value `v` as its low half, then its high half.
pub open spec fn u128_bytes(v: u128) -> Seq<u8> {
    le_bytes(v as u64) + le_bytes((v >> 64u128) as u64)
}

pub open spec fn join_halves(lo: u64, hi: u64) -> u128 {
    (lo as u128) | ((hi as u128) << 64u128)
}

/// A byte string: its length as eight bytes, then its bytes.
pub open spec fn bytes_field(b: Seq<u8>) -> Seq<u8> {
    le_bytes(b.len() as u64) + b
}

/// Reads eight little-endian bytes at `p`.
pub open spec fn parse_u64(s: Seq<u8>, p: int) -> Option<(u64, int)> {
    if 0 <= p && p + 8 <= s.len() {
        Some((le_value_at(s, p), p + 8))
    } else {
        None
    }
}

pub open spec fn parse_u128(s: Seq<u8>, p: int) -> Option<(u128, int)> {
    match parse_u64(s, p) {
        Some((lo, p1)) => match parse_u64(s, p1) {
            Some((hi, p2)) => Some((join_halves(lo, hi), p2)),
            None => None,
        },
        None => None,
    }
}

/// Reads a length-prefixed byte string at `p`.
pub open spec fn parse_bytes(s: Seq<u8>, p: int) -> Option<(Seq<u8>, int)> {
    match parse_u64(s, p) {
        Some((n, p1)) => if p1 + n <= s.len() {
            Some((s.subrange(p1, p1 + n), p1 + n))
        } else {
            None
        },
        None => None,
    }
}

/// Reads the presence tag of an optional field: 0 for absent, 1 for present.
pub open spec fn parse_tag(s: Seq<u8>, p: int) -> Option<(bool, int)> {
    if 0 <= p && p < s.len() && (s[p] == 0 || s[p] == 1) {
        Some((s[p] == 1, p + 1))
    } else {
        None
    }
}

pub open spec fn tag_byte(present: bool) -> Seq<u8> {
    if present {
        seq![1u8]
    } else {
        seq![0u8]
    }
}

/// `s` holds `a` from `p` on.
pub open spec fn holds_at(s: Seq<u8>, p: int, a: Seq<u8>) -> bool {
    0 <= p && p + a.len() <= s.len() && s.subrange(p, p + a.len()) == a
}

pub proof fn lemma_holds_split(s: Seq<u8>, p: int, a: Seq<u8>, b: Seq<u8>)
    requires
        holds_at(s, p, a + b),
    ensures
        holds_at(s, p, a),
        holds_at(s, p + a.len(), b),
{
    let t = s.subrange(p, p + a.len() + b.len());
    assert(t == a + b);
    assert(s.subrange(p, p + a.len()) =~= t.subrange(0, a.len() as int));
    assert(t.subrange(0, a.len() as int) =~= a);
    assert(s.subrange(p + a.len(), p + a.len() + b.len()) =~= t.subrange(
        a.len() as int,
        t.len() as int,
    ));
    assert(t.subrange(a.len() as int, t.len() as int) =~= b);
}

proof fn lemma_le_combine(v: u64)
    ensures
        le_combine(
            (v & 0xff) as u8,
            ((v >> 8u64) & 0xff) as u8,
            ((v >> 16u64) & 0xff) as u8,
            ((v >> 24u64) & 0xff) as u8,
            ((v >> 32u64) & 0xff) as u8,
            ((v >> 40u64) & 0xff) as u8,
            ((v >> 48u64) & 0xff) as u8,
            ((v >> 56u64) & 0xff) as u8,
        ) == v,
{
    assert((((v & 0xff) as u8) as u64) | (((((v >> 8u64) & 0xff) as u8) as u64) << 8u64) | ((
    (((v >> 16u64) & 0xff) as u8) as u64) << 16u64) | (((((v >> 24u64) & 0xff) as u8) as u64)
        << 24u64) | (((((v >> 32u64) & 0xff) as u8) as u64) << 32u64) | (((((v >> 40u64) & 0xff)
        as u8) as u64) << 40u64) | (((((v >> 48u64) & 0xff) as u8) as u64) << 48u64) | (((((v
        >> 56u64) & 0xff) as u8) as u64) << 56u64) == v) by (bit_vector);
}

pub proof fn lemma_u64_round_trip(s: Seq<u8>, p: int, v: u64)
    requires
        holds_at(s, p, le_bytes(v)),
    ensures
        parse_u64(s, p) == Some((v, p + 8)),
{
    assert(s.subrange(p, p + 8) == le_bytes(v));
    assert forall|i: int| 0 <= i < 8 implies s[p + i] == le_bytes(v)[i] by {
        assert(s.subrange(p, p + 8)[i] == s[p + i]);
    }
    lemma_le_combine(v);
}

pub proof fn lemma_u128_round_trip(s: Seq<u8>, p: int, v: u128)
    requires
        holds_at(s, p, u128_bytes(v)),
    ensures
        parse_u128(s, p) == Some((v, p + 16)),
{
    lemma_holds_split(s, p, le_bytes(v as u64), le_bytes((v >> 64u128) as u64));
    lemma_u64_round_trip(s, p, v as u64);
    lemma_u64_round_trip(s, p + 8, (v >> 64u128) as u64);
    assert(((v as u64) as u128) | ((((v >> 64u128) as u64) as u128) << 64u128) == v)
        by (bit_vector);
}

pub proof fn lemma_bytes_round_trip(s: Seq<u8>, p: int, b: Seq<u8>)
    requires
        holds_at(s, p, bytes_field(b)),
        b.len() <= u64::MAX,
    ensures
        parse_bytes(s, p) == Some((b, p + bytes_field(b).len())),
{
    lemma_holds_split(s, p, le_bytes(b.len() as u64), b);
    lemma_u64_round_trip(s, p, b.len() as u64);
}

pub proof fn lemma_tag_round_trip(s: Seq<u8>, p: int, present: bool)
    requires
        holds_at(s, p, tag_byte(present)),
    ensures
        parse_tag(s, p) == Some((present, p + 1)),
{
    assert(s.subrange(p, p + 1)[0] == s[p]);
}

/// A text field: its UTF-8 bytes as a byte string.
pub open spec fn text_field(c: Seq<char>) -> Seq<u8> {
    bytes_field(encode_utf8(c))
}

/// Reads a text field at `p`; its bytes must be valid UTF-8.
pub open spec fn parse_text(s: Seq<u8>, p: int) -> Option<(Seq<char>, int)> {
    match parse_bytes(s, p) {
        Some((b, q)) => if valid_utf8(b) {
            Some((decode_utf8(b), q))
        } else {
            None
        },
        None => None,
    }
}

pub proof fn lemma_text_round_trip(s: Seq<u8>, p: int, c: Seq<char>)
    requires
        holds_at(s, p, text_field(c)),
        encode_utf8(c).len() <= u64::MAX,
    ensures
        parse_text(s, p) == Some((c, p + text_field(c).len())),
{
    lemma_bytes_round_trip(s, p, encode_utf8(c));
    encode_utf8_valid_utf8(c);
    encode_utf8_decode_utf8(c);
}

pub fn read_u64(b: &[u8], pos: usize) -> (r: Option<(u64, usize)>)
    ensures
        match r {
            Some((v, q)) => parse_u64(b@, pos as int) == Some((v, q as int)),
            None => parse_u64(b@, pos as int) is None,
        },
{
    if pos > b.len() || b.len() - pos < 8 {
        return None;
    }
    let v = (b[pos] as u64) | ((b[pos + 1] as u64) << 8u64) | ((b[pos + 2] as u64) << 16u64) | ((
    b[pos + 3] as u64) << 24u64) | ((b[pos + 4] as u64) << 32u64) | ((b[pos + 5] as u64) << 40u64)
        | ((b[pos + 6] as u64) << 48u64) | ((b[pos + 7] as u64) << 56u64);
    Some((v, pos + 8))
}

pub fn write_u64(out: &mut Vec<u8>, v: u64)
    ensures
        final(out)@ == old(out)@ + le_bytes(v),
{
    out.push((v & 0xff) as u8);
    out.push(((v >> 8u64) & 0xff) as u8);
    out.push(((v >> 16u64) & 0xff) as u8);
    out.push(((v >> 24u64) & 0xff) as u8);
    out.push(((v >> 32u64) & 0xff) as u8);
    out.push(((v >> 40u64) & 0xff) as u8);
    out.push(((v >> 48u64) & 0xff) as u8);
    out.push(((v >> 56u64) & 0xff) as u8);
    assert(out@ =~= old(out)@ + le_bytes(v));
}

pub fn read_u128(b: &[u8], pos: usize) -> (r: Option<(u128, usize)>)
    ensures
        match r {
            Some((v, q)) => parse_u128(b@, pos as int) == Some((v, q as int)),
            None => parse_u128(b@, pos as int) is None,
        },
{
    match read_u64(b, pos) {
        Some((lo, p1)) => match read_u64(b, p1) {
            Some((hi, p2)) => Some(((lo as u128) | ((hi as u128) << 64u128), p2)),
            None => None,
        },
        None => None,
    }
}

pub fn write_u128(out: &mut Vec<u8>, v: u128)
    ensures
        final(out)@ == old(out)@ + u128_bytes(v),
{
    write_u64(out, v as u64);
    write_u64(out, (v >> 64u128) as u64);
    assert(out@ =~= old(out)@ + u128_bytes(v));
}

/// A copy of `b[from..to]`.
fn copy_range(b: &[u8], from: usize, to: usize) -> (r: Vec<u8>)
    requires
        from <= to <= b@.len(),
    ensures
        r@ == b@.subrange(from as int, to as int),
{
    let mut r: Vec<u8> = Vec::new();
    let mut i: usize = from;
    while i < to
        invariant
            from <= i <= to <= b@.len(),
            r@ == b@.subrange(from as int, i as int),
        decreases to - i,
    {
        r.push(b[i]);
        i = i + 1;
        assert(r@ =~= b@.subrange(from as int, i as int));
    }
    r
}

pub fn read_bytes(b: &[u8], pos: usize) -> (r: Option<(Vec<u8>, usize)>)
    ensures
        match r {
            Some((v, q)) => parse_bytes(b@, pos as int) == Some((v@, q as int)),
            None => parse_bytes(b@, pos as int) is None,
        },
{
    match read_u64(b, pos) {
        Some((n, p1)) => {
            if n > (b.len() - p1) as u64 {
                None
            } else {
                let q = p1 + n as usize;
                let v = copy_range(b, p1, q);
                Some((v, q))
            }
        },
        None => None,
    }
}

pub fn write_bytes(out: &mut Vec<u8>, b: &[u8])
    ensures
        final(out)@ == old(out)@ + bytes_field(b@),
{
    write_u64(out, b.len() as u64);
    let ghost mid = out@;
    let mut i: usize = 0;
    while i < b.len()
        invariant
            i <= b@.len(),
            out@ == mid + b@.subrange(0, i as int),
        decreases b@.len() - i,
    {
        out.push(b[i]);
        i = i + 1;
        assert(out@ =~= mid + b@.subrange(0, i as int));
    }
    assert(b@.subrange(0, b@.len() as int) =~= b@);
    assert(out@ =~= old(out)@ + bytes_field(b@));
}

pub fn read_tag(b: &[u8], pos: usize) -> (r: Option<(bool, usize)>)
    ensures
        match r {
            Some((v, q)) => parse_tag(b@, pos as int) == Some((v, q as int)),
            None => parse_tag(b@, pos as int) is None,
        },
{
    if pos >= b.len() {
        None
    } else if b[pos] == 0 {
        Some((false, pos + 1))
    } else if b[pos] == 1 {
        Some((true, pos + 1))
    } else {
        None
    }
}

pub fn write_tag(out: &mut Vec<u8>, present: bool)
    ensures
        final(out)@ == old(out)@ + tag_byte(present),
{
    if present {
        out.push(1u8);
    } else {
        out.push(0u8);
    }
    assert(out@ =~= old(out)@ + tag_byte(present));
}

pub fn read_text(b: &[u8], pos: usize) -> (r: Option<(String, usize)>)
    ensures
        match r {
            Some((v, q)) => parse_text(b@, pos as int) == Some((v@, q as int)),
            None => parse_text(b@, pos as int) is None,
        },
{
    match read_bytes(b, pos) {
        Some((v, q)) => {
            let ghost bytes = v@;
            match string_from_utf8(v) {
                Some(t) => {
                    proof {
                        encode_utf8_decode_utf8(t@);
                    }
                    Some((t, q))
                },
                None => None,
            }
        },
        None => None,
    }
}

pub fn write_text(out: &mut Vec<u8>, t: &String)
    ensures
        final(out)@ == old(out)@ + text_field(t@),
{
    let b = t.as_str().as_bytes();
    write_bytes(out, b);
}

/// Relies on std's String::from_utf8: it fails exactly when the bytes are not
/// valid UTF-8, and otherwise takes the bytes over as the string's contents.
#[verifier::external_body]
fn string_from_utf8(v: Vec<u8>) -> (r: Option<String>)
    ensures
        r is Some <==> valid_utf8(v@),
        r matches Some(t) ==> encode_utf8(t@) == v@,
{
    String::from_utf8(v).ok()
}

} // verus!
