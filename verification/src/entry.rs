//! Log entries and the stream of them that follows the index.

use crate::codec::{
    lemma_text_is_canonical, lemma_text_round_trip, parse_text, put_text, take_text,
    text_fits, text_layout,
};
use crate::error::Error;
use crate::time::{
    lemma_timestamp_is_canonical, lemma_timestamp_round_trip, parse_timestamp, put_timestamp,
    take_timestamp, timestamp_layout, Timestamp,
};
use vstd::prelude::*;
use vstd::utf8::*;

verus! {

/// One record of the log. It is written once and never changed.
#[derive(Clone, Debug, PartialEq, Eq)]
pub struct Entry {
    /// Identifier of the entry, chosen by its producer.
    pub id: String,
    /// Who produced it.
    pub sender: String,
    /// When it was recorded.
    pub received: Timestamp,
    /// The content.
    pub log_json: String,
}

/// What an entry holds.
pub struct EntryView {
    pub id: Seq<char>,
    pub sender: Seq<char>,
    pub received: Timestamp,
    pub log_json: Seq<char>,
}

impl View for Entry {
    type V = EntryView;

    open spec fn view(&self) -> EntryView {
        EntryView {
            id: self.id@,
            sender: self.sender@,
            received: self.received,
            log_json: self.log_json@,
        }
    }
}

/// Whether the three texts are short enough for their length prefixes.
pub open spec fn entry_fits(e: EntryView) -> bool {
    text_fits(e.id) && text_fits(e.sender) && text_fits(e.log_json)
}

/// The identifier, the sender, the time and the content, in this order.
pub open spec fn entry_layout(e: EntryView) -> Seq<u8> {
    text_layout(e.id) + text_layout(e.sender) + timestamp_layout(e.received) + text_layout(
        e.log_json,
    )
}

pub open spec fn entry_len(e: EntryView) -> int {
    36 + encode_utf8(e.id).len() as int + encode_utf8(e.sender).len() as int + encode_utf8(
        e.log_json,
    ).len() as int
}

pub open spec fn parse_entry(s: Seq<u8>) -> Option<(EntryView, int)> {
    match parse_text(s) {
        Some((id, n1)) => match parse_text(s.skip(n1)) {
            Some((sender, n2)) => match parse_timestamp(s.skip(n1 + n2)) {
                Some((received, _)) => match parse_text(s.skip(n1 + n2 + 12)) {
                    Some((log_json, n3)) => Some(
                        (EntryView { id, sender, received, log_json }, n1 + n2 + 12 + n3),
                    ),
                    None => None,
                },
                None => None,
            },
            None => None,
        },
        None => None,
    }
}

/// Decoding what was encoded gives the entry back, whatever follows it.
pub proof fn lemma_entry_round_trip(e: EntryView, rest: Seq<u8>)
    requires
        entry_fits(e),
    ensures
        entry_layout(e).len() == entry_len(e),
        parse_entry(entry_layout(e) + rest) == Some((e, entry_len(e))),
{
    let s = entry_layout(e) + rest;
    let a = text_layout(e.id);
    let b = text_layout(e.sender);
    let c = timestamp_layout(e.received);
    let d = text_layout(e.log_json);
    lemma_text_round_trip(e.id, b + c + d + rest);
    lemma_text_round_trip(e.sender, c + d + rest);
    lemma_timestamp_round_trip(e.received, d + rest);
    lemma_text_round_trip(e.log_json, rest);
    let n1 = a.len() as int;
    let n2 = b.len() as int;
    assert(s =~= a + (b + c + d + rest));
    assert(s.skip(n1) =~= b + (c + d + rest));
    assert(s.skip(n1 + n2) =~= c + (d + rest));
    assert(s.skip(n1 + n2 + 12) =~= d + rest);
}

/// An entry is read from its own layout and from no other bytes.
pub proof fn lemma_entry_is_canonical(s: Seq<u8>)
    ensures
        parse_entry(s) matches Some((e, n)) ==> 36 <= n <= s.len() && entry_fits(e)
            && entry_layout(e) == s.subrange(0, n),
{
    match parse_entry(s) {
        Some((e, n)) => {
            lemma_text_is_canonical(s);
            let n1 = text_layout(e.id).len() as int;
            lemma_text_is_canonical(s.skip(n1));
            let n2 = text_layout(e.sender).len() as int;
            lemma_timestamp_is_canonical(s.skip(n1 + n2));
            lemma_text_is_canonical(s.skip(n1 + n2 + 12));
            let n3 = n - n1 - n2 - 12;
            assert(s.skip(n1).subrange(0, n2) =~= s.subrange(n1, n1 + n2));
            assert(s.skip(n1 + n2).subrange(0, 12) =~= s.subrange(n1 + n2, n1 + n2 + 12));
            assert(s.skip(n1 + n2 + 12).subrange(0, n3) =~= s.subrange(n1 + n2 + 12, n));
            assert(s.subrange(0, n) =~= s.subrange(0, n1) + s.subrange(n1, n1 + n2) + s.subrange(
                n1 + n2,
                n1 + n2 + 12,
            ) + s.subrange(n1 + n2 + 12, n));
        },
        None => {},
    }
}

/// The records that can be read from the front of `s`, one behind the
/// other, up to the end or the first bytes that are no record.
pub open spec fn parse_entries(s: Seq<u8>) -> Seq<EntryView>
    decreases s.len(),
{
    match parse_entry(s) {
        Some((e, n)) => if 0 < n <= s.len() {
            seq![e] + parse_entries(s.skip(n))
        } else {
            seq![]
        },
        None => seq![],
    }
}

/// The records one behind the other.
pub open spec fn entries_layout(es: Seq<EntryView>) -> Seq<u8>
    decreases es.len(),
{
    if es.len() == 0 {
        Seq::empty()
    } else {
        entries_layout(es.drop_last()) + entry_layout(es.last())
    }
}

pub open spec fn all_fit(es: Seq<EntryView>) -> bool {
    forall|i: int| 0 <= i < es.len() ==> entry_fits(#[trigger] es[i])
}

/// The entries recorded strictly later than `after`, in their order.
pub open spec fn later_entries(es: Seq<EntryView>, after: Timestamp) -> Seq<EntryView> {
    es.filter(|e: EntryView| e.received.later_than(after))
}

/// Whether each entry was recorded strictly later than the one before it.
pub open spec fn strictly_increasing(es: Seq<EntryView>) -> bool {
    forall|i: int, j: int|
        0 <= i < j < es.len() ==> (#[trigger] es[j]).received.later_than(
            (#[trigger] es[i]).received,
        )
}

/// The records that follow a first record are the records of the rest.
pub proof fn lemma_parse_entries_first(e: EntryView, rest: Seq<u8>)
    requires
        entry_fits(e),
    ensures
        parse_entries(entry_layout(e) + rest) == seq![e] + parse_entries(rest),
{
    let s = entry_layout(e) + rest;
    lemma_entry_round_trip(e, rest);
    assert(s.skip(entry_layout(e).len() as int) =~= rest);
}

/// Records written one behind the other begin with the first of them.
pub proof fn lemma_entries_layout_first(es: Seq<EntryView>)
    requires
        es.len() > 0,
    ensures
        entries_layout(es) == entry_layout(es[0]) + entries_layout(es.drop_first()),
    decreases es.len(),
{
    if es.len() == 1 {
        assert(entries_layout(es.drop_last()) =~= Seq::<u8>::empty());
        assert(entries_layout(es.drop_first()) =~= Seq::<u8>::empty());
        assert(entries_layout(es) =~= entry_layout(es[0]) + entries_layout(es.drop_first()));
    } else {
        lemma_entries_layout_first(es.drop_last());
        assert(es.drop_last().drop_first() =~= es.drop_first().drop_last());
        assert(es.drop_first().last() == es.last());
        assert(es.drop_last()[0] == es[0]);
        assert(entries_layout(es) =~= entry_layout(es[0]) + entries_layout(es.drop_first()));
    }
}

/// A scan of records that were written one behind the other finds exactly
/// them, in their order.
pub proof fn lemma_scan_finds_written(es: Seq<EntryView>)
    requires
        all_fit(es),
    ensures
        parse_entries(entries_layout(es)) == es,
    decreases es.len(),
{
    if es.len() == 0 {
        assert(parse_entry(Seq::<u8>::empty()) is None);
    } else {
        let rest = es.drop_first();
        lemma_entries_layout_first(es);
        assert(all_fit(rest)) by {
            assert forall|i: int| 0 <= i < rest.len() implies entry_fits(#[trigger] rest[i]) by {
                assert(rest[i] == es[i + 1]);
            }
        }
        lemma_scan_finds_written(rest);
        lemma_parse_entries_first(es[0], entries_layout(rest));
        assert(seq![es[0]] + rest =~= es);
    }
}

/// The texts of every record that a scan finds are short enough for their
/// length prefixes.
pub proof fn lemma_parsed_entries_fit(s: Seq<u8>)
    ensures
        all_fit(parse_entries(s)),
    decreases s.len(),
{
    lemma_entry_is_canonical(s);
    match parse_entry(s) {
        Some((e, n)) => {
            lemma_parsed_entries_fit(s.skip(n));
            let rest = parse_entries(s.skip(n));
            assert forall|i: int| 0 <= i < parse_entries(s).len() implies entry_fits(
                #[trigger] parse_entries(s)[i],
            ) by {
                if i > 0 {
                    assert(parse_entries(s)[i] == rest[i - 1]);
                }
            }
        },
        None => {},
    }
}

/// No more records can be read from bytes than fit into them.
pub proof fn lemma_parse_entries_len(s: Seq<u8>)
    ensures
        36 * parse_entries(s).len() <= s.len(),
    decreases s.len(),
{
    match parse_entry(s) {
        Some((e, n)) => {
            if 0 < n <= s.len() {
                lemma_parse_entries_len(s.skip(n));
            }
        },
        None => {},
    }
}

/// The later entries of a sequence that has grown by one: the later ones of
/// the sequence before, and the new one behind them where it is later too.
pub proof fn lemma_later_entries_push(es: Seq<EntryView>, e: EntryView, after: Timestamp)
    ensures
        later_entries(es.push(e), after) == if e.received.later_than(after) {
            later_entries(es, after).push(e)
        } else {
            later_entries(es, after)
        },
{
    reveal(Seq::filter);
    assert(es.push(e).drop_last() =~= es);
}

impl Entry {
    pub fn new(id: String, sender: String, received: Timestamp, log_json: String) -> (e: Entry)
        ensures
            e.id == id,
            e.sender == sender,
            e.received == received,
            e.log_json == log_json,
    {
        Entry { id, sender, received, log_json }
    }

    /// A copy that holds the same texts and time.
    pub fn duplicate(&self) -> (e: Entry)
        ensures
            e@ == self@,
    {
        Entry {
            id: self.id.clone(),
            sender: self.sender.clone(),
            received: self.received,
            log_json: self.log_json.clone(),
        }
    }

    /// Appends the bytes of the record to `out`.
    pub fn put(&self, out: &mut Vec<u8>)
        ensures
            final(out)@ == old(out)@ + entry_layout(self@),
            entry_layout(self@).len() == entry_len(self@),
            entry_fits(self@),
    {
        put_text(out, self.id.as_str());
        put_text(out, self.sender.as_str());
        put_timestamp(out, &self.received);
        put_text(out, self.log_json.as_str());
        proof {
            assert(out@ =~= old(out)@ + entry_layout(self@));
            lemma_entry_round_trip(self@, Seq::empty());
        }
    }

    /// The bytes of the record.
    pub fn encode(&self) -> (out: Vec<u8>)
        ensures
            out@ == entry_layout(self@),
            out@.len() == entry_len(self@),
            entry_fits(self@),
            parse_entry(out@) == Some((self@, out@.len() as int)),
    {
        let mut out: Vec<u8> = Vec::new();
        self.put(&mut out);
        proof {
            assert(out@ =~= entry_layout(self@));
            lemma_entry_round_trip(self@, Seq::empty());
            assert(out@ + Seq::<u8>::empty() =~= out@);
        }
        out
    }

    /// Reads one record that begins at `pos`: the entry and the position
    /// behind it, or nothing where the bytes from `pos` on are no record.
    pub fn take(bytes: &[u8], pos: usize) -> (r: Option<(Entry, usize)>)
        ensures
            pos <= bytes@.len() ==> match parse_entry(bytes@.skip(pos as int)) {
                Some((e, n)) => r matches Some((entry, next)) && entry@ == e && next == pos + n,
                None => r is None,
            },
            pos > bytes@.len() ==> r is None,
            r matches Some((_, next)) ==> pos + 36 <= next <= bytes@.len(),
    {
        let ghost s = bytes@.skip(pos as int);
        let (id, at_sender) = match take_text(bytes, pos) {
            Some(p) => p,
            None => { return None; },
        };
        assert(s.skip(at_sender - pos) =~= bytes@.skip(at_sender as int));
        let (sender, at_received) = match take_text(bytes, at_sender) {
            Some(p) => p,
            None => { return None; },
        };
        assert(s.skip(at_received - pos) =~= bytes@.skip(at_received as int));
        let (received, at_log) = match take_timestamp(bytes, at_received) {
            Some(p) => p,
            None => { return None; },
        };
        assert(s.skip(at_log - pos) =~= bytes@.skip(at_log as int));
        let (log_json, end) = match take_text(bytes, at_log) {
            Some(p) => p,
            None => { return None; },
        };
        Some((Entry { id, sender, received, log_json }, end))
    }

    /// Reads one record from the front of `bytes`: the entry and the number
    /// of bytes it took, or `Decode` where the bytes are no record.
    pub fn decode(bytes: &[u8]) -> (r: Result<(Entry, usize), Error>)
        ensures
            match parse_entry(bytes@) {
                Some((e, n)) => r matches Ok((entry, used)) && entry@ == e && used == n,
                None => r matches Err(Error::Decode),
            },
    {
        assert(bytes@.skip(0) =~= bytes@);
        match Entry::take(bytes, 0) {
            Some(p) => Ok(p),
            None => Err(Error::Decode),
        }
    }
}

} // verus!
