//! The header record: what identifies a file as a log of this format and
//! names the log it holds.

use crate::codec::{
    i32_layout, lemma_i32_is_canonical, lemma_i32_round_trip, lemma_text_is_canonical,
    lemma_text_round_trip, lemma_usize_is_canonical, lemma_usize_round_trip,
    parse_i32, parse_text, parse_usize, put_i32, put_text, put_usize, take_i32, take_text,
    take_usize, text_fits, text_layout, usize_layout,
};
use crate::error::Error;
use vstd::prelude::*;
use vstd::slice::*;
use vstd::utf8::*;

verus! {

/// The format version that this engine writes.
pub const VERSION: i32 = 1;

/// Number of bytes of the magic sentinel.
pub const MAGIC_LEN: usize = 9;

/// The sentinel `towlfile*` that every log file begins with.
pub open spec fn magic() -> Seq<u8> {
    seq![116u8, 111u8, 119u8, 108u8, 102u8, 105u8, 108u8, 101u8, 42u8]
}

/// The sentinel, as bytes.
pub fn magic_bytes() -> (m: [u8; 9])
    ensures
        m@ == magic(),
{
    let m: [u8; 9] = [116u8, 111u8, 119u8, 108u8, 102u8, 105u8, 108u8, 101u8, 42u8];
    assert(m@ =~= magic());
    m
}

/// Whether the bytes begin with the sentinel. Bytes too short to hold it
/// do not.
pub open spec fn starts_with_magic(s: Seq<u8>) -> bool {
    s.len() >= 9 && s.subrange(0, 9) == magic()
}

/// Reads no further than the sentinel.
pub fn has_magic(bytes: &[u8]) -> (r: bool)
    ensures
        r == starts_with_magic(bytes@),
{
    if bytes.len() < 9 {
        return false;
    }
    let m = magic_bytes();
    let mut i: usize = 0;
    while i < 9
        invariant
            i <= 9,
            bytes@.len() >= 9,
            m@ == magic(),
            forall|j: int| 0 <= j < i ==> bytes@[j] == magic()[j],
        decreases 9 - i,
    {
        if bytes[i] != m[i] {
            assert(bytes@.subrange(0, 9)[i as int] != magic()[i as int]);
            return false;
        }
        i += 1;
    }
    assert(bytes@.subrange(0, 9) =~= magic());
    true
}

pub struct Header {
    magic: [u8; 9],
    version: i32,
    org: String,
    title: String,
    id: usize,
}

/// What a header holds.
pub struct HeaderView {
    pub magic: Seq<u8>,
    pub version: i32,
    pub org: Seq<char>,
    pub title: Seq<char>,
    pub id: usize,
}

impl View for Header {
    type V = HeaderView;

    closed spec fn view(&self) -> HeaderView {
        HeaderView {
            magic: self.magic@,
            version: self.version,
            org: self.org@,
            title: self.title@,
            id: self.id,
        }
    }
}

/// The header that a new file of the given name and identity gets.
pub open spec fn fresh_header(org: Seq<char>, title: Seq<char>, id: usize) -> HeaderView {
    HeaderView { magic: magic(), version: VERSION, org, title, id }
}

/// Whether both texts are short enough for their length prefixes.
pub open spec fn header_fits(h: HeaderView) -> bool {
    h.magic.len() == 9 && text_fits(h.org) && text_fits(h.title)
}

/// The sentinel, the version, the two names and the identity, in this
/// order.
pub open spec fn header_layout(h: HeaderView) -> Seq<u8> {
    h.magic + i32_layout(h.version) + text_layout(h.org) + text_layout(h.title) + usize_layout(
        h.id,
    )
}

pub open spec fn header_len(h: HeaderView) -> int {
    37 + encode_utf8(h.org).len() as int + encode_utf8(h.title).len() as int
}

pub open spec fn parse_header(s: Seq<u8>) -> Option<(HeaderView, int)> {
    if s.len() < 9 {
        None
    } else {
        match parse_i32(s.skip(9)) {
            Some((version, _)) => match parse_text(s.skip(13)) {
                Some((org, n1)) => match parse_text(s.skip(13 + n1)) {
                    Some((title, n2)) => match parse_usize(s.skip(13 + n1 + n2)) {
                        Some((id, _)) => Some(
                            (
                                HeaderView { magic: s.subrange(0, 9), version, org, title, id },
                                21 + n1 + n2,
                            ),
                        ),
                        None => None,
                    },
                    None => None,
                },
                None => None,
            },
            None => None,
        }
    }
}

/// Decoding what was encoded gives the header back, whatever follows it.
pub proof fn lemma_header_round_trip(h: HeaderView, rest: Seq<u8>)
    requires
        header_fits(h),
    ensures
        header_layout(h).len() == header_len(h),
        parse_header(header_layout(h) + rest) == Some((h, header_len(h))),
{
    let s = header_layout(h) + rest;
    let a = i32_layout(h.version);
    let b = text_layout(h.org);
    let c = text_layout(h.title);
    let d = usize_layout(h.id);
    lemma_i32_round_trip(h.version, b + c + d + rest);
    lemma_text_round_trip(h.org, c + d + rest);
    lemma_text_round_trip(h.title, d + rest);
    lemma_usize_round_trip(h.id, rest);
    let n1 = b.len() as int;
    let n2 = c.len() as int;
    assert(s.subrange(0, 9) =~= h.magic);
    assert(s.skip(9) =~= a + (b + c + d + rest));
    assert(s.skip(13) =~= b + (c + d + rest));
    assert(s.skip(13 + n1) =~= c + (d + rest));
    assert(s.skip(13 + n1 + n2) =~= d + rest);
}

/// A header is read from its own layout and from no other bytes.
pub proof fn lemma_header_is_canonical(s: Seq<u8>)
    ensures
        parse_header(s) matches Some((h, n)) ==> 37 <= n <= s.len() && header_fits(h)
            && n == header_len(h) && header_layout(h) == s.subrange(0, n),
{
    match parse_header(s) {
        Some((h, n)) => {
            lemma_i32_is_canonical(s.skip(9));
            lemma_text_is_canonical(s.skip(13));
            let n1 = text_layout(h.org).len() as int;
            lemma_text_is_canonical(s.skip(13 + n1));
            let n2 = text_layout(h.title).len() as int;
            lemma_usize_is_canonical(s.skip(13 + n1 + n2));
            assert(s.skip(9).subrange(0, 4) =~= s.subrange(9, 13));
            assert(s.skip(13).subrange(0, n1) =~= s.subrange(13, 13 + n1));
            assert(s.skip(13 + n1).subrange(0, n2) =~= s.subrange(13 + n1, 13 + n1 + n2));
            assert(s.skip(13 + n1 + n2).subrange(0, 8) =~= s.subrange(13 + n1 + n2, n));
            assert(s.subrange(0, n) =~= s.subrange(0, 9) + s.subrange(9, 13) + s.subrange(
                13,
                13 + n1,
            ) + s.subrange(13 + n1, 13 + n1 + n2) + s.subrange(13 + n1 + n2, n));
        },
        None => {},
    }
}

impl Header {
    /// The header of a new file: the sentinel, the current version and the
    /// given names and identity.
    pub fn new(org: String, title: String, id: usize) -> (h: Header)
        ensures
            h@ == fresh_header(org@, title@, id),
    {
        Header { magic: magic_bytes(), version: VERSION, org, title, id }
    }

    pub fn check_magic(&self) -> (r: bool)
        ensures
            r == (self@.magic == magic()),
    {
        let r = has_magic(self.magic.as_slice());
        assert(self.magic@.subrange(0, 9) =~= self.magic@);
        r
    }

    pub fn version(&self) -> (v: i32)
        ensures
            v == self@.version,
    {
        self.version
    }

    pub fn org(&self) -> (text: &String)
        ensures
            text@ == self@.org,
    {
        &self.org
    }

    pub fn title(&self) -> (text: &String)
        ensures
            text@ == self@.title,
    {
        &self.title
    }

    pub fn id(&self) -> (id: usize)
        ensures
            id == self@.id,
    {
        self.id
    }

    /// The bytes of the record.
    pub fn encode(&self) -> (out: Vec<u8>)
        ensures
            out@ == header_layout(self@),
            out@.len() == header_len(self@),
            header_fits(self@),
            parse_header(out@) == Some((self@, out@.len() as int)),
    {
        let mut out: Vec<u8> = slice_to_vec(self.magic.as_slice());
        put_i32(&mut out, self.version);
        put_text(&mut out, self.org.as_str());
        put_text(&mut out, self.title.as_str());
        put_usize(&mut out, self.id);
        proof {
            assert(out@ =~= header_layout(self@));
            lemma_header_round_trip(self@, Seq::empty());
            assert(out@ + Seq::<u8>::empty() =~= out@);
        }
        out
    }

    /// Reads one header from the front of `bytes`: the header and the number
    /// of bytes it took, or `Decode` where the bytes are no header. The
    /// sentinel is read as it stands, not compared.
    pub fn decode(bytes: &[u8]) -> (r: Result<(Header, usize), Error>)
        ensures
            match parse_header(bytes@) {
                Some((h, n)) => r matches Ok((header, used)) && header@ == h && used == n,
                None => r == Err::<(Header, usize), Error>(Error::Decode),
            },
    {
        if bytes.len() < 9 {
            return Err(Error::Decode);
        }
        let mut magic: [u8; 9] = [0u8; 9];
        let mut i: usize = 0;
        while i < 9
            invariant
                i <= 9,
                bytes@.len() >= 9,
                forall|j: int| 0 <= j < i ==> magic@[j] == bytes@[j],
            decreases 9 - i,
        {
            magic[i] = bytes[i];
            i += 1;
        }
        assert(magic@ =~= bytes@.subrange(0, 9));
        let (version, at_org) = match take_i32(bytes, 9) {
            Some(p) => p,
            None => { return Err(Error::Decode); },
        };
        let (org, at_title) = match take_text(bytes, at_org) {
            Some(p) => p,
            None => { return Err(Error::Decode); },
        };
        let (title, at_id) = match take_text(bytes, at_title) {
            Some(p) => p,
            None => { return Err(Error::Decode); },
        };
        let (id, end) = match take_usize(bytes, at_id) {
            Some(p) => p,
            None => { return Err(Error::Decode); },
        };
        Ok((Header { magic, version, org, title, id }, end))
    }
}

} // verus!
