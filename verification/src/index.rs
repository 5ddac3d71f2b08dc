//! The index record: a summary of the entry stream that can be rebuilt from
//! the entries at any time.

use crate::codec::{
    lemma_usize_is_canonical, lemma_usize_round_trip, parse_usize, put_usize, take_usize,
    usize_layout,
};
use crate::entry::{Entry, EntryView};
use crate::error::Error;
use crate::time::{
    lemma_opt_timestamp_is_canonical, lemma_opt_timestamp_round_trip,
    lemma_timestamp_is_canonical, lemma_timestamp_round_trip, opt_timestamp_layout,
    parse_opt_timestamp, parse_timestamp, put_opt_timestamp, put_timestamp, take_opt_timestamp,
    take_timestamp, timestamp_layout, Timestamp,
};
use vstd::prelude::*;

verus! {

#[derive(Clone, Copy, Debug, PartialEq, Eq)]
pub struct Index {
    /// When the file was created.
    pub opened: Timestamp,
    /// When the file was last closed in good order, if it ever was.
    pub closed: Option<Timestamp>,
    /// Number of entries.
    pub count: usize,
    /// Time of the entry that was appended first.
    pub first_date: Option<Timestamp>,
    /// Time of the entry that was appended last.
    pub last_date: Option<Timestamp>,
}

/// The longest index record: every optional time present.
pub const MAX_INDEX_LEN: usize = 59;

impl Index {
    /// An index without entries has neither time; one with entries has both.
    pub open spec fn wf(self) -> bool {
        &&& self.count == 0 ==> self.first_date is None && self.last_date is None
        &&& self.count > 0 ==> self.first_date is Some && self.last_date is Some
    }

    /// The index of a file that was created at `opened` and holds nothing.
    pub open spec fn fresh(opened: Timestamp) -> Index {
        Index { opened, closed: None, count: 0, first_date: None, last_date: None }
    }

    /// The index without its summary of the entries.
    pub open spec fn cleared(self) -> Index {
        Index { count: 0, first_date: None, last_date: None, ..self }
    }

    /// The index after one more entry, recorded at `t`: one more in the
    /// count, `t` as the last time, and as the first one too where there was
    /// none.
    pub open spec fn noted(self, t: Timestamp) -> Index {
        Index {
            count: (self.count + 1) as usize,
            first_date: if self.first_date is Some {
                self.first_date
            } else {
                Some(t)
            },
            last_date: Some(t),
            ..self
        }
    }

    /// The index after the entries `es`, taken in their order.
    pub open spec fn folded(self, es: Seq<EntryView>) -> Index
        decreases es.len(),
    {
        if es.len() == 0 {
            self
        } else {
            self.folded(es.drop_last()).noted(es.last().received)
        }
    }

    /// The index with `t` as the time of closing.
    pub open spec fn closed_at(self, t: Timestamp) -> Index {
        Index { closed: Some(t), ..self }
    }

    pub fn new(opened: Timestamp) -> (index: Index)
        ensures
            index == Index::fresh(opened),
    {
        Index { opened, closed: None, count: 0, first_date: None, last_date: None }
    }

    /// Takes note of one more entry.
    pub fn add_entry(&mut self, entry: &Entry)
        requires
            old(self).count < usize::MAX,
        ensures
            *final(self) == old(self).noted(entry@.received),
            final(self).count == old(self).count + 1,
            old(self).wf() ==> final(self).wf(),
    {
        match self.first_date {
            Some(_) => {},
            None => {
                self.first_date = Some(entry.received);
            },
        }
        self.last_date = Some(entry.received);
        self.count += 1;
    }

    /// Stamps the index with the time at which the file is closed.
    pub fn close(&mut self, t: Timestamp)
        ensures
            *final(self) == old(self).closed_at(t),
    {
        self.closed = Some(t);
    }

    /// Forgets the entries.
    pub fn reset(&mut self)
        ensures
            *final(self) == old(self).cleared(),
            final(self).wf(),
    {
        self.count = 0;
        self.first_date = None;
        self.last_date = None;
    }

    /// The bytes of the record.
    pub fn encode(&self) -> (out: Vec<u8>)
        ensures
            out@ == index_layout(*self),
            0 < out@.len() <= MAX_INDEX_LEN,
            parse_index(out@) == Some((*self, out@.len() as int)),
    {
        let mut out: Vec<u8> = Vec::new();
        put_timestamp(&mut out, &self.opened);
        put_opt_timestamp(&mut out, &self.closed);
        put_usize(&mut out, self.count);
        put_opt_timestamp(&mut out, &self.first_date);
        put_opt_timestamp(&mut out, &self.last_date);
        proof {
            assert(out@ =~= index_layout(*self));
            lemma_index_round_trip(*self, Seq::empty());
            assert(out@ + Seq::<u8>::empty() =~= out@);
        }
        out
    }

    /// Reads one index from the front of `bytes`: the index and the number
    /// of bytes it took, or `Decode` where the bytes are no index.
    pub fn decode(bytes: &[u8]) -> (r: Result<(Index, usize), Error>)
        ensures
            match parse_index(bytes@) {
                Some((index, n)) => r == Ok::<(Index, usize), Error>((index, n as usize)) && n
                    <= bytes@.len(),
                None => r == Err::<(Index, usize), Error>(Error::Decode),
            },
    {
        let ghost s = bytes@;
        assert(s.skip(0) =~= s);
        let (opened, at_closed) = match take_timestamp(bytes, 0) {
            Some(p) => p,
            None => { return Err(Error::Decode); },
        };
        let (closed, at_count) = match take_opt_timestamp(bytes, at_closed) {
            Some(p) => p,
            None => { return Err(Error::Decode); },
        };
        let (count, at_first) = match take_usize(bytes, at_count) {
            Some(p) => p,
            None => { return Err(Error::Decode); },
        };
        let (first_date, at_last) = match take_opt_timestamp(bytes, at_first) {
            Some(p) => p,
            None => { return Err(Error::Decode); },
        };
        let (last_date, end) = match take_opt_timestamp(bytes, at_last) {
            Some(p) => p,
            None => { return Err(Error::Decode); },
        };
        Ok((Index { opened, closed, count, first_date, last_date }, end))
    }
}

/// The time of creation, the time of closing, the count and the times of
/// the first and the last entry, in this order.
pub open spec fn index_layout(i: Index) -> Seq<u8> {
    timestamp_layout(i.opened) + opt_timestamp_layout(i.closed) + usize_layout(i.count)
        + opt_timestamp_layout(i.first_date) + opt_timestamp_layout(i.last_date)
}

pub open spec fn parse_index(s: Seq<u8>) -> Option<(Index, int)> {
    match parse_timestamp(s) {
        Some((opened, _)) => match parse_opt_timestamp(s.skip(12)) {
            Some((closed, n1)) => match parse_usize(s.skip(12 + n1)) {
                Some((count, _)) => match parse_opt_timestamp(s.skip(20 + n1)) {
                    Some((first_date, n2)) => match parse_opt_timestamp(s.skip(20 + n1 + n2)) {
                        Some((last_date, n3)) => Some(
                            (
                                Index { opened, closed, count, first_date, last_date },
                                20 + n1 + n2 + n3,
                            ),
                        ),
                        None => None,
                    },
                    None => None,
                },
                None => None,
            },
            None => None,
        },
        None => None,
    }
}

/// Decoding what was encoded gives the index back, whatever follows it.
pub proof fn lemma_index_round_trip(i: Index, rest: Seq<u8>)
    ensures
        23 <= index_layout(i).len() <= 59,
        parse_index(index_layout(i) + rest) == Some((i, index_layout(i).len() as int)),
{
    let s = index_layout(i) + rest;
    let a = timestamp_layout(i.opened);
    let b = opt_timestamp_layout(i.closed);
    let c = usize_layout(i.count);
    let d = opt_timestamp_layout(i.first_date);
    let e = opt_timestamp_layout(i.last_date);
    lemma_timestamp_round_trip(i.opened, b + c + d + e + rest);
    lemma_opt_timestamp_round_trip(i.closed, c + d + e + rest);
    lemma_usize_round_trip(i.count, d + e + rest);
    lemma_opt_timestamp_round_trip(i.first_date, e + rest);
    lemma_opt_timestamp_round_trip(i.last_date, rest);
    let n1 = b.len() as int;
    let n2 = d.len() as int;
    assert(s =~= a + (b + c + d + e + rest));
    assert(s.skip(12) =~= b + (c + d + e + rest));
    assert(s.skip(12 + n1) =~= c + (d + e + rest));
    assert(s.skip(20 + n1) =~= d + (e + rest));
    assert(s.skip(20 + n1 + n2) =~= e + rest);
}

/// An index is read from its own layout and from no other bytes.
pub proof fn lemma_index_is_canonical(s: Seq<u8>)
    ensures
        parse_index(s) matches Some((i, n)) ==> 23 <= n <= s.len() && index_layout(i)
            == s.subrange(0, n),
{
    match parse_index(s) {
        Some((i, n)) => {
            let n1 = opt_timestamp_layout(i.closed).len() as int;
            let n2 = opt_timestamp_layout(i.first_date).len() as int;
            lemma_timestamp_is_canonical(s);
            lemma_opt_timestamp_is_canonical(s.skip(12));
            lemma_usize_is_canonical(s.skip(12 + n1));
            lemma_opt_timestamp_is_canonical(s.skip(20 + n1));
            lemma_opt_timestamp_is_canonical(s.skip(20 + n1 + n2));
            let n3 = n - 20 - n1 - n2;
            assert(s.skip(12).subrange(0, n1) =~= s.subrange(12, 12 + n1));
            assert(s.skip(12 + n1).subrange(0, 8) =~= s.subrange(12 + n1, 20 + n1));
            assert(s.skip(20 + n1).subrange(0, n2) =~= s.subrange(20 + n1, 20 + n1 + n2));
            assert(s.skip(20 + n1 + n2).subrange(0, n3) =~= s.subrange(20 + n1 + n2, n));
            assert(s.subrange(0, n) =~= s.subrange(0, 12) + s.subrange(12, 12 + n1) + s.subrange(
                12 + n1,
                20 + n1,
            ) + s.subrange(20 + n1, 20 + n1 + n2) + s.subrange(20 + n1 + n2, n));
        },
        None => {},
    }
}

/// What an index that held no entries says after the entries `es`: their
/// number, the time of the first and the time of the last. The times of
/// creation and of closing stay.
pub proof fn lemma_folded_summary(start: Index, es: Seq<EntryView>)
    requires
        start == start.cleared(),
        es.len() <= usize::MAX,
    ensures
        start.folded(es).wf(),
        start.folded(es).opened == start.opened,
        start.folded(es).closed == start.closed,
        start.folded(es).count == es.len(),
        es.len() > 0 ==> start.folded(es).first_date == Some(es[0].received),
        es.len() > 0 ==> start.folded(es).last_date == Some(es.last().received),
    decreases es.len(),
{
    if es.len() > 0 {
        lemma_folded_summary(start, es.drop_last());
    }
}

} // verus!
