//! Byte layout of the scalar fields that records are made of.
//!
//! Integers are fixed-width little-endian, signed ones in two's complement.
//! A text is its UTF-8 byte length as a 64-bit integer followed by the bytes.
//! Every parser reads a prefix of its input and reports how many bytes it
//! took, so records are self-delimiting.

use vstd::bytes::*;
use vstd::prelude::*;
use vstd::slice::*;
use vstd::utf8::*;

verus! {

/// Two's-complement bit pattern of a signed 64-bit integer.
pub open spec fn i64_bits(v: i64) -> u64 {
    if v >= 0 {
        v as u64
    } else {
        (v + 0x1_0000_0000_0000_0000) as u64
    }
}

/// The signed integer that a 64-bit pattern stands for.
pub open spec fn i64_of_bits(b: u64) -> i64 {
    if b < 0x8000_0000_0000_0000 {
        b as i64
    } else {
        (b - 0x1_0000_0000_0000_0000) as i64
    }
}

/// Two's-complement bit pattern of a signed 32-bit integer.
pub open spec fn i32_bits(v: i32) -> u32 {
    if v >= 0 {
        v as u32
    } else {
        (v + 0x1_0000_0000) as u32
    }
}

/// The signed integer that a 32-bit pattern stands for.
pub open spec fn i32_of_bits(b: u32) -> i32 {
    if b < 0x8000_0000 {
        b as i32
    } else {
        (b - 0x1_0000_0000) as i32
    }
}

pub open spec fn u64_layout(v: u64) -> Seq<u8> {
    spec_u64_to_le_bytes(v)
}

pub open spec fn u32_layout(v: u32) -> Seq<u8> {
    spec_u32_to_le_bytes(v)
}

pub open spec fn i64_layout(v: i64) -> Seq<u8> {
    u64_layout(i64_bits(v))
}

pub open spec fn i32_layout(v: i32) -> Seq<u8> {
    u32_layout(i32_bits(v))
}

/// A `usize` is stored as 64 bits whatever the width of the machine.
pub open spec fn usize_layout(v: usize) -> Seq<u8> {
    u64_layout(v as u64)
}

/// Whether a text is short enough for its length prefix.
pub open spec fn text_fits(chars: Seq<char>) -> bool {
    encode_utf8(chars).len() <= u64::MAX
}

pub open spec fn text_layout(chars: Seq<char>) -> Seq<u8> {
    u64_layout(encode_utf8(chars).len() as u64) + encode_utf8(chars)
}

pub open spec fn parse_u64(s: Seq<u8>) -> Option<(u64, int)> {
    if s.len() >= 8 {
        Some((spec_u64_from_le_bytes(s.subrange(0, 8)), 8))
    } else {
        None
    }
}

pub open spec fn parse_u32(s: Seq<u8>) -> Option<(u32, int)> {
    if s.len() >= 4 {
        Some((spec_u32_from_le_bytes(s.subrange(0, 4)), 4))
    } else {
        None
    }
}

pub open spec fn parse_i64(s: Seq<u8>) -> Option<(i64, int)> {
    match parse_u64(s) {
        Some((b, n)) => Some((i64_of_bits(b), n)),
        None => None,
    }
}

pub open spec fn parse_i32(s: Seq<u8>) -> Option<(i32, int)> {
    match parse_u32(s) {
        Some((b, n)) => Some((i32_of_bits(b), n)),
        None => None,
    }
}

/// A stored count or identity that does not fit this machine's `usize` is
/// rejected.
pub open spec fn parse_usize(s: Seq<u8>) -> Option<(usize, int)> {
    match parse_u64(s) {
        Some((v, n)) => if v <= usize::MAX {
            Some((v as usize, n))
        } else {
            None
        },
        None => None,
    }
}

pub open spec fn parse_text(s: Seq<u8>) -> Option<(Seq<char>, int)> {
    match parse_u64(s) {
        Some((len, _)) => {
            let body = s.subrange(8, 8 + len);
            if len <= s.len() - 8 && valid_utf8(body) {
                Some((decode_utf8(body), 8 + len))
            } else {
                None
            }
        },
        None => None,
    }
}

pub proof fn lemma_u64_round_trip(v: u64, rest: Seq<u8>)
    ensures
        u64_layout(v).len() == 8,
        parse_u64(u64_layout(v) + rest) == Some((v, 8int)),
{
    lemma_auto_spec_u64_to_from_le_bytes();
    assert((u64_layout(v) + rest).subrange(0, 8) =~= u64_layout(v));
}

pub proof fn lemma_u32_round_trip(v: u32, rest: Seq<u8>)
    ensures
        u32_layout(v).len() == 4,
        parse_u32(u32_layout(v) + rest) == Some((v, 4int)),
{
    lemma_auto_spec_u32_to_from_le_bytes();
    assert((u32_layout(v) + rest).subrange(0, 4) =~= u32_layout(v));
}

pub proof fn lemma_i64_round_trip(v: i64, rest: Seq<u8>)
    ensures
        i64_layout(v).len() == 8,
        parse_i64(i64_layout(v) + rest) == Some((v, 8int)),
{
    lemma_u64_round_trip(i64_bits(v), rest);
}

pub proof fn lemma_i32_round_trip(v: i32, rest: Seq<u8>)
    ensures
        i32_layout(v).len() == 4,
        parse_i32(i32_layout(v) + rest) == Some((v, 4int)),
{
    lemma_u32_round_trip(i32_bits(v), rest);
}

pub proof fn lemma_usize_round_trip(v: usize, rest: Seq<u8>)
    ensures
        usize_layout(v).len() == 8,
        parse_usize(usize_layout(v) + rest) == Some((v, 8int)),
{
    lemma_u64_round_trip(v as u64, rest);
}

pub proof fn lemma_text_round_trip(chars: Seq<char>, rest: Seq<u8>)
    requires
        text_fits(chars),
    ensures
        text_layout(chars).len() == 8 + encode_utf8(chars).len(),
        parse_text(text_layout(chars) + rest) == Some(
            (chars, 8 + encode_utf8(chars).len() as int),
        ),
{
    let body = encode_utf8(chars);
    let len = body.len() as u64;
    let s = text_layout(chars) + rest;
    lemma_u64_round_trip(len, body + rest);
    assert(s =~= u64_layout(len) + (body + rest));
    assert(s.subrange(8, 8 + len) =~= body);
    encode_utf8_valid_utf8(chars);
    encode_utf8_decode_utf8(chars);
}

/// What the parsers read is the layout of what they hand back: no two
/// byte strings stand for the same value.
pub proof fn lemma_u64_is_canonical(s: Seq<u8>)
    ensures
        parse_u64(s) matches Some((v, n)) ==> n == 8 <= s.len()
            && u64_layout(v) == s.subrange(0, 8),
{
    lemma_auto_spec_u64_to_from_le_bytes();
    if s.len() >= 8 {
        let head = s.subrange(0, 8);
        assert(spec_u64_to_le_bytes(spec_u64_from_le_bytes(head)) == head);
    }
}

pub proof fn lemma_u32_is_canonical(s: Seq<u8>)
    ensures
        parse_u32(s) matches Some((v, n)) ==> n == 4 <= s.len()
            && u32_layout(v) == s.subrange(0, 4),
{
    lemma_auto_spec_u32_to_from_le_bytes();
    if s.len() >= 4 {
        let head = s.subrange(0, 4);
        assert(spec_u32_to_le_bytes(spec_u32_from_le_bytes(head)) == head);
    }
}

pub proof fn lemma_i64_is_canonical(s: Seq<u8>)
    ensures
        parse_i64(s) matches Some((v, n)) ==> n == 8 <= s.len()
            && i64_layout(v) == s.subrange(0, 8),
{
    lemma_u64_is_canonical(s);
}

pub proof fn lemma_i32_is_canonical(s: Seq<u8>)
    ensures
        parse_i32(s) matches Some((v, n)) ==> n == 4 <= s.len()
            && i32_layout(v) == s.subrange(0, 4),
{
    lemma_u32_is_canonical(s);
}

pub proof fn lemma_usize_is_canonical(s: Seq<u8>)
    ensures
        parse_usize(s) matches Some((v, n)) ==> n == 8 <= s.len() && usize_layout(v) == s.subrange(
            0,
            8,
        ),
{
    lemma_u64_is_canonical(s);
}

pub proof fn lemma_text_is_canonical(s: Seq<u8>)
    ensures
        parse_text(s) matches Some((chars, n)) ==> 8 <= n <= s.len() && text_fits(chars)
            && n == 8 + encode_utf8(chars).len() && text_layout(chars) == s.subrange(0, n),
{
    lemma_u64_is_canonical(s);
    match parse_text(s) {
        Some((chars, n)) => {
            let len = n - 8;
            let body = s.subrange(8, 8 + len);
            decode_utf8_encode_utf8(body);
            assert(s.subrange(0, n) =~= s.subrange(0, 8) + body);
        },
        None => {},
    }
}

/// Whether `r` is what a reader that started at `pos` hands back for the
/// parse of the input from there on: the same value, and the position just
/// behind the bytes that were read.
pub open spec fn lands<T>(r: Option<(T, usize)>, parsed: Option<(T, int)>, pos: usize) -> bool {
    match parsed {
        Some((v, n)) => r matches Some((w, next)) && w == v && next == pos + n,
        None => r is None,
    }
}

/// `String::from_utf8` of the standard library: the bytes become a string
/// exactly when they are well-formed UTF-8, and the string then holds the
/// characters that they encode.
#[verifier::external_body]
fn string_from_utf8(bytes: Vec<u8>) -> (r: Option<String>)
    ensures
        r is Some <==> valid_utf8(bytes@),
        r is Some ==> r->0@ == decode_utf8(bytes@),
{
    String::from_utf8(bytes).ok()
}

fn bits_of_i64(v: i64) -> (b: u64)
    ensures
        b == i64_bits(v),
{
    if v >= 0 {
        v as u64
    } else {
        ((v + 0x7fff_ffff_ffff_ffff + 1) as u64) + 0x8000_0000_0000_0000u64
    }
}

fn i64_from_bits(b: u64) -> (v: i64)
    ensures
        v == i64_of_bits(b),
{
    if b < 0x8000_0000_0000_0000u64 {
        b as i64
    } else {
        ((b - 0x8000_0000_0000_0000u64) as i64) - 0x7fff_ffff_ffff_ffff - 1
    }
}

fn bits_of_i32(v: i32) -> (b: u32)
    ensures
        b == i32_bits(v),
{
    if v >= 0 {
        v as u32
    } else {
        ((v + 0x7fff_ffff + 1) as u32) + 0x8000_0000u32
    }
}

fn i32_from_bits(b: u32) -> (v: i32)
    ensures
        v == i32_of_bits(b),
{
    if b < 0x8000_0000u32 {
        b as i32
    } else {
        ((b - 0x8000_0000u32) as i32) - 0x7fff_ffff - 1
    }
}

pub fn put_u64(out: &mut Vec<u8>, v: u64)
    ensures
        final(out)@ == old(out)@ + u64_layout(v),
{
    let mut b = u64_to_le_bytes(v);
    out.append(&mut b);
}

pub fn put_u32(out: &mut Vec<u8>, v: u32)
    ensures
        final(out)@ == old(out)@ + u32_layout(v),
{
    let mut b = u32_to_le_bytes(v);
    out.append(&mut b);
}

pub fn put_i64(out: &mut Vec<u8>, v: i64)
    ensures
        final(out)@ == old(out)@ + i64_layout(v),
{
    put_u64(out, bits_of_i64(v));
}

pub fn put_i32(out: &mut Vec<u8>, v: i32)
    ensures
        final(out)@ == old(out)@ + i32_layout(v),
{
    put_u32(out, bits_of_i32(v));
}

pub fn put_usize(out: &mut Vec<u8>, v: usize)
    ensures
        final(out)@ == old(out)@ + usize_layout(v),
{
    put_u64(out, v as u64);
}

/// Appends a text. A string in memory is never too long for its prefix.
pub fn put_text(out: &mut Vec<u8>, text: &str)
    ensures
        final(out)@ == old(out)@ + text_layout(text@),
        text_fits(text@),
{
    let body = text.as_bytes();
    let len: usize = body.len();
    put_u64(out, len as u64);
    let mut copy = slice_to_vec(body);
    out.append(&mut copy);
    assert(out@ =~= old(out)@ + text_layout(text@));
}

pub fn take_u64(bytes: &[u8], pos: usize) -> (r: Option<(u64, usize)>)
    ensures
        pos <= bytes@.len() ==> lands(r, parse_u64(bytes@.skip(pos as int)), pos),
        pos > bytes@.len() ==> r is None,
        r matches Some((_, next)) ==> pos < next <= bytes@.len(),
{
    if pos > bytes.len() || bytes.len() - pos < 8 {
        return None;
    }
    let v: u64 = u64_from_le_bytes(slice_subrange(bytes, pos, pos + 8));
    assert(bytes@.skip(pos as int).subrange(0, 8) =~= bytes@.subrange(pos as int, pos + 8));
    Some((v, pos + 8))
}

pub fn take_u32(bytes: &[u8], pos: usize) -> (r: Option<(u32, usize)>)
    ensures
        pos <= bytes@.len() ==> lands(r, parse_u32(bytes@.skip(pos as int)), pos),
        pos > bytes@.len() ==> r is None,
        r matches Some((_, next)) ==> pos < next <= bytes@.len(),
{
    if pos > bytes.len() || bytes.len() - pos < 4 {
        return None;
    }
    let v: u32 = u32_from_le_bytes(slice_subrange(bytes, pos, pos + 4));
    assert(bytes@.skip(pos as int).subrange(0, 4) =~= bytes@.subrange(pos as int, pos + 4));
    Some((v, pos + 4))
}

pub fn take_i64(bytes: &[u8], pos: usize) -> (r: Option<(i64, usize)>)
    ensures
        pos <= bytes@.len() ==> lands(r, parse_i64(bytes@.skip(pos as int)), pos),
        pos > bytes@.len() ==> r is None,
        r matches Some((_, next)) ==> pos < next <= bytes@.len(),
{
    match take_u64(bytes, pos) {
        Some((b, next)) => Some((i64_from_bits(b), next)),
        None => None,
    }
}

pub fn take_i32(bytes: &[u8], pos: usize) -> (r: Option<(i32, usize)>)
    ensures
        pos <= bytes@.len() ==> lands(r, parse_i32(bytes@.skip(pos as int)), pos),
        pos > bytes@.len() ==> r is None,
        r matches Some((_, next)) ==> pos < next <= bytes@.len(),
{
    match take_u32(bytes, pos) {
        Some((b, next)) => Some((i32_from_bits(b), next)),
        None => None,
    }
}

pub fn take_usize(bytes: &[u8], pos: usize) -> (r: Option<(usize, usize)>)
    ensures
        pos <= bytes@.len() ==> lands(r, parse_usize(bytes@.skip(pos as int)), pos),
        pos > bytes@.len() ==> r is None,
        r matches Some((_, next)) ==> pos < next <= bytes@.len(),
{
    match take_u64(bytes, pos) {
        Some((v, next)) => {
            if v <= usize::MAX as u64 {
                Some((v as usize, next))
            } else {
                None
            }
        },
        None => None,
    }
}

pub fn take_text(bytes: &[u8], pos: usize) -> (r: Option<(String, usize)>)
    ensures
        pos <= bytes@.len() ==> match parse_text(bytes@.skip(pos as int)) {
            Some((chars, n)) => r matches Some((text, next)) && text@ == chars && next == pos + n,
            None => r is None,
        },
        pos > bytes@.len() ==> r is None,
        r matches Some((_, next)) ==> pos < next <= bytes@.len(),
{
    let (len, start) = match take_u64(bytes, pos) {
        Some(p) => p,
        None => { return None; },
    };
    if len > (bytes.len() - start) as u64 {
        return None;
    }
    let end: usize = start + len as usize;
    let body = slice_to_vec(slice_subrange(bytes, start, end));
    assert(bytes@.skip(pos as int).subrange(8, 8 + len) =~= body@);
    match string_from_utf8(body) {
        Some(text) => Some((text, end)),
        None => None,
    }
}

} // verus!
