//! Byte encodings used by the persisted session: big-endian integers and UTF-8
//! text.

use vstd::prelude::*;

verus! {

broadcast use vstd::string::group_string_axioms;

/// The eight bytes of `v`, most significant first (`u64::to_be_bytes`).
pub open spec fn be_u64_bytes(v: u64) -> Seq<u8> {
    seq![
        (v >> 56u64) as u8,
        (v >> 48u64) as u8,
        (v >> 40u64) as u8,
        (v >> 32u64) as u8,
        (v >> 24u64) as u8,
        (v >> 16u64) as u8,
        (v >> 8u64) as u8,
        v as u8,
    ]
}

/// The number whose big-endian bytes are `b0..b7` (`u64::from_be_bytes`).
pub open spec fn be_u64_value(b0: u8, b1: u8, b2: u8, b3: u8, b4: u8, b5: u8, b6: u8, b7: u8) -> u64 {
    ((b0 as u64) << 56u64) | ((b1 as u64) << 48u64) | ((b2 as u64) << 40u64) | ((b3 as u64)
        << 32u64) | ((b4 as u64) << 24u64) | ((b5 as u64) << 16u64) | ((b6 as u64) << 8u64) | (b7 as u64)
}

/// The number whose big-endian bytes are the first eight of `b`.
pub open spec fn be_u64_of(b: Seq<u8>) -> u64 {
    be_u64_value(b[0], b[1], b[2], b[3], b[4], b[5], b[6], b[7])
}

/// The four bytes of `v`, most significant first (`u32::to_be_bytes`).
pub open spec fn be_u32_bytes(v: u32) -> Seq<u8> {
    seq![(v >> 24u32) as u8, (v >> 16u32) as u8, (v >> 8u32) as u8, v as u8]
}

/// The number whose big-endian bytes are `b0..b3` (`u32::from_be_bytes`).
pub open spec fn be_u32_value(b0: u8, b1: u8, b2: u8, b3: u8) -> u32 {
    ((b0 as u32) << 24u32) | ((b1 as u32) << 16u32) | ((b2 as u32) << 8u32) | (b3 as u32)
}

pub open spec fn be_u32_of(b: Seq<u8>) -> u32 {
    be_u32_value(b[0], b[1], b[2], b[3])
}

pub proof fn lemma_be_u64_round_trip(v: u64)
    ensures
        be_u64_of(be_u64_bytes(v)) == v,
{
    let b = be_u64_bytes(v);
    assert(be_u64_value(
        (v >> 56u64) as u8,
        (v >> 48u64) as u8,
        (v >> 40u64) as u8,
        (v >> 32u64) as u8,
        (v >> 24u64) as u8,
        (v >> 16u64) as u8,
        (v >> 8u64) as u8,
        v as u8,
    ) == v) by (bit_vector);
}

pub proof fn lemma_be_u32_round_trip(v: u32)
    ensures
        be_u32_of(be_u32_bytes(v)) == v,
{
    assert(be_u32_value((v >> 24u32) as u8, (v >> 16u32) as u8, (v >> 8u32) as u8, v as u8) == v)
        by (bit_vector);
}

/// Different numbers have different big-endian bytes.
pub proof fn lemma_be_u32_bytes_injective(a: u32, b: u32)
    requires
        be_u32_bytes(a) == be_u32_bytes(b),
    ensures
        a == b,
{
    lemma_be_u32_round_trip(a);
    lemma_be_u32_round_trip(b);
}

pub fn u64_to_be_bytes(v: u64) -> (r: [u8; 8])
    ensures
        r@ == be_u64_bytes(v),
{
    let r = [
        (v >> 56u64) as u8,
        (v >> 48u64) as u8,
        (v >> 40u64) as u8,
        (v >> 32u64) as u8,
        (v >> 24u64) as u8,
        (v >> 16u64) as u8,
        (v >> 8u64) as u8,
        v as u8,
    ];
    assert(r@ =~= be_u64_bytes(v));
    r
}

/// The number in the first eight bytes of `b`, most significant first.
pub fn u64_from_be_bytes(b: &[u8]) -> (r: u64)
    requires
        b@.len() >= 8,
    ensures
        r == be_u64_of(b@),
{
    ((b[0] as u64) << 56u64) | ((b[1] as u64) << 48u64) | ((b[2] as u64) << 40u64) | ((b[3] as u64)
        << 32u64) | ((b[4] as u64) << 24u64) | ((b[5] as u64) << 16u64) | ((b[6] as u64) << 8u64)
        | (b[7] as u64)
}

pub fn u32_to_be_bytes(v: u32) -> (r: [u8; 4])
    ensures
        r@ == be_u32_bytes(v),
{
    let r = [(v >> 24u32) as u8, (v >> 16u32) as u8, (v >> 8u32) as u8, v as u8];
    assert(r@ =~= be_u32_bytes(v));
    r
}

/// The number in the first four bytes of `b`, most significant first.
pub fn u32_from_be_bytes(b: &[u8]) -> (r: u32)
    requires
        b@.len() >= 4,
    ensures
        r == be_u32_of(b@),
{
    ((b[0] as u32) << 24u32) | ((b[1] as u32) << 16u32) | ((b[2] as u32) << 8u32) | (b[3] as u32)
}

/// The value as a `usize`, when it fits (`usize::try_from`).
pub open spec fn u64_as_usize(v: u64) -> Option<usize> {
    if v <= usize::MAX {
        Some(v as usize)
    } else {
        None
    }
}

pub fn u64_to_usize(v: u64) -> (r: Option<usize>)
    ensures
        r == u64_as_usize(v),
{
    if v <= usize::MAX as u64 {
        Some(v as usize)
    } else {
        None
    }
}

/// What `String::from_utf8` makes of a byte sequence.
pub open spec fn utf8_text(bytes: Seq<u8>) -> Option<Seq<char>> {
    if vstd::utf8::valid_utf8(bytes) {
        Some(vstd::utf8::decode_utf8(bytes))
    } else {
        None
    }
}

/// Decodes UTF-8: `String::from_utf8`, which accepts exactly the valid
/// encodings and yields the characters they encode.
#[verifier::external_body]
pub(crate) fn string_from_utf8(bytes: Vec<u8>) -> (r: Option<String>)
    ensures
        match r {
            Some(s) => utf8_text(bytes@) == Some(s@),
            None => utf8_text(bytes@) is None,
        },
{
    String::from_utf8(bytes).ok()
}

/// The UTF-8 bytes of a text.
pub open spec fn utf8_bytes(s: Seq<char>) -> Seq<u8> {
    vstd::utf8::encode_utf8(s)
}

pub fn text_bytes(s: &str) -> (r: Vec<u8>)
    ensures
        r@ == utf8_bytes(s@),
{
    let b = s.as_bytes();
    let mut r: Vec<u8> = Vec::new();
    let mut i: usize = 0;
    while i < b.len()
        invariant
            i <= b@.len(),
            r@ == b@.take(i as int),
        decreases b@.len() - i,
    {
        r.push(b[i]);
        i += 1;
        assert(r@ =~= b@.take(i as int));
    }
    assert(b@.take(b@.len() as int) =~= b@);
    r
}

/// Decoding the UTF-8 encoding of a text gives the text back.
pub proof fn lemma_utf8_round_trip(s: Seq<char>)
    ensures
        utf8_text(utf8_bytes(s)) == Some(s),
        utf8_bytes(s).len() >= s.len(),
{
    vstd::utf8::encode_utf8_valid_utf8(s);
    vstd::utf8::encode_utf8_decode_utf8(s);
    lemma_encode_len(s);
}

proof fn lemma_encode_len(s: Seq<char>)
    ensures
        vstd::utf8::encode_utf8(s).len() >= s.len(),
    decreases s.len(),
{
    if s.len() > 0 {
        lemma_encode_len(s.drop_first());
        assert(vstd::utf8::encode_scalar(s[0] as u32).len() >= 1);
    }
}

} // verus!
