//! The log file store: one file image with the header at offset 0, the
//! index at offset 1024 and the entries from offset 2048 on.
//!
//! The store holds the bytes of the file and the header and index that they
//! encode. Whoever keeps the file on disk writes the bytes out after each
//! change: an append adds bytes at the end and rewrites the index region, and
//! nothing else ever changes.

pub use crate::entry::Entry;
use crate::entry::{
    all_fit, entries_layout, entry_fits, entry_layout, later_entries, lemma_later_entries_push,
    lemma_parsed_entries_fit, lemma_scan_finds_written, parse_entries, parse_entry, EntryView,
};
use crate::error::Error;
pub use crate::header::Header;
use crate::header::{
    fresh_header, has_magic, header_layout, header_len, lemma_header_round_trip, magic,
    parse_header, starts_with_magic, HeaderView,
};
pub use crate::index::Index;
use crate::index::{index_layout, lemma_folded_summary, lemma_index_round_trip, parse_index};
use crate::time::Timestamp;
use vstd::prelude::*;
use vstd::slice::*;

verus! {

/// Offset of the header record.
pub const HEADER_START: usize = 0;

/// Offset of the index record, and the room that the header has.
pub const INDEX_START: usize = 1024;

/// Offset of the first entry.
pub const ENTRIES_START: usize = 2048;

/// `s` with the bytes `d` written over it from offset `at` on.
pub open spec fn patched(s: Seq<u8>, at: int, d: Seq<u8>) -> Seq<u8> {
    s.subrange(0, at) + d + s.skip(at + d.len())
}

/// The views of the entries, in their order.
pub open spec fn entry_views(es: Seq<Entry>) -> Seq<EntryView> {
    es.map_values(|e: Entry| e@)
}

/// The image of a file that holds the two records and no entry: 2048
/// bytes, zero wherever no record lies.
pub open spec fn blank_image(h: HeaderView, i: Index) -> Seq<u8> {
    patched(patched(Seq::new(2048, |k: int| 0u8), 0, header_layout(h)), 1024, index_layout(i))
}

/// What a log file store holds.
pub struct LogFileView {
    pub header: HeaderView,
    pub index: Index,
    pub image: Seq<u8>,
}

impl LogFileView {
    pub open spec fn header_region(self) -> Seq<u8> {
        self.image.subrange(0, 1024)
    }

    pub open spec fn index_region(self) -> Seq<u8> {
        self.image.subrange(1024, 2048)
    }

    pub open spec fn entry_region(self) -> Seq<u8> {
        self.image.skip(2048)
    }

    /// The entries that a scan of the file yields: the well-formed records
    /// from offset 2048 up to the end or the first malformed one.
    pub open spec fn entries(self) -> Seq<EntryView> {
        parse_entries(self.entry_region())
    }

    /// Both fixed regions are there, and the header region holds the
    /// header, which carries the sentinel.
    pub open spec fn framed(self) -> bool {
        &&& 2048 <= self.image.len()
        &&& self.header.magic == magic()
        &&& parse_header(self.header_region()) matches Some((h, _)) && h == self.header
    }

    /// The image encodes the header and the index in memory, and the index
    /// does not count more entries than the file has room for.
    pub open spec fn wf(self) -> bool {
        &&& self.framed()
        &&& parse_index(self.index_region()) matches Some((i, _)) && i == self.index
        &&& self.index.wf()
        &&& self.index.count * 36 <= self.image.len() - 2048
    }

    /// The index says what a scan of the entries would find.
    pub open spec fn synced(self) -> bool {
        self.index == self.index.cleared().folded(self.entries())
    }

    /// The entry region holds whole records and nothing else.
    pub open spec fn clean(self) -> bool {
        self.entry_region() == entries_layout(self.entries())
    }

    /// The store with another index, in memory and in the index region.
    pub open spec fn with_index(self, index: Index) -> LogFileView {
        LogFileView { index, image: patched(self.image, 1024, index_layout(index)), ..self }
    }

    /// The store after an append: the record at the end of the file, and
    /// the index that has taken note of it.
    pub open spec fn appended(self, e: EntryView) -> LogFileView {
        LogFileView { image: self.image + entry_layout(e), ..self }.with_index(
            self.index.noted(e.received),
        )
    }

    /// The store after the appends of `es`, one after the other.
    pub open spec fn appended_all(self, es: Seq<EntryView>) -> LogFileView
        decreases es.len(),
    {
        if es.len() == 0 {
            self
        } else {
            self.appended_all(es.drop_last()).appended(es.last())
        }
    }

    /// The store with the index rebuilt from the entries.
    pub open spec fn reindexed(self) -> LogFileView {
        self.with_index(self.index.cleared().folded(self.entries()))
    }

    /// The store closed at `t`.
    pub open spec fn closed_at(self, t: Timestamp) -> LogFileView {
        self.with_index(self.index.closed_at(t))
    }
}

/// The store of a file that was just created.
pub open spec fn created(org: Seq<char>, title: Seq<char>, id: usize, opened: Timestamp)
    -> LogFileView {
    let header = fresh_header(org, title, id);
    let index = Index::fresh(opened);
    LogFileView { header, index, image: blank_image(header, index) }
}

/// What opening a file with the bytes `image` gives: `NotATowlFile` unless
/// the bytes begin with the sentinel, `Decode` where a fixed region is
/// missing or does not hold its record, and else the store with the index
/// rebuilt from the entries.
pub open spec fn opened(image: Seq<u8>) -> Result<LogFileView, Error> {
    if !starts_with_magic(image) {
        Err(Error::NotATowlFile)
    } else if image.len() < 2048 {
        Err(Error::Decode)
    } else {
        match parse_header(image.subrange(0, 1024)) {
            Some((header, _)) => match parse_index(image.subrange(1024, 2048)) {
                Some((index, _)) => Ok(LogFileView { header, index, image }.reindexed()),
                None => Err(Error::Decode),
            },
            None => Err(Error::Decode),
        }
    }
}

/// A file that was just created is well-formed and clean, holds no entry,
/// and opens as itself.
pub proof fn lemma_created(org: Seq<char>, title: Seq<char>, id: usize, at: Timestamp)
    requires
        header_len(fresh_header(org, title, id)) <= 1024,
    ensures
        created(org, title, id, at).wf(),
        created(org, title, id, at).clean(),
        created(org, title, id, at).synced(),
        created(org, title, id, at).entries() == Seq::<EntryView>::empty(),
        created(org, title, id, at).image.len() == 2048,
        opened(created(org, title, id, at).image) == Ok::<LogFileView, Error>(
            created(org, title, id, at),
        ),
{
    let v = created(org, title, id, at);
    let h = v.header;
    let i = v.index;
    lemma_header_round_trip(h, v.image.subrange(header_len(h), 1024));
    assert(v.image.subrange(0, 1024) =~= header_layout(h) + v.image.subrange(header_len(h), 1024));
    lemma_index_round_trip(i, v.image.subrange(1024 + index_layout(i).len() as int, 2048));
    assert(v.image.subrange(1024, 2048) =~= index_layout(i) + v.image.subrange(
        1024 + index_layout(i).len() as int,
        2048,
    ));
    assert(v.image.subrange(0, 9) =~= magic());
    assert(v.image.skip(2048) =~= Seq::<u8>::empty());
    assert(parse_entry(Seq::<u8>::empty()) is None);
    assert(v.entries() =~= Seq::<EntryView>::empty());
    assert(v.reindexed().image =~= v.image);
    assert(entries_layout(v.entries()) =~= Seq::<u8>::empty());
}

/// Writing a record of at most 1024 bytes into the index region leaves the
/// other two regions as they are, and the index region then decodes to it.
pub proof fn lemma_with_index(v: LogFileView, index: Index)
    requires
        v.framed(),
    ensures
        v.with_index(index).framed(),
        v.with_index(index).image.len() == v.image.len(),
        v.with_index(index).header_region() == v.header_region(),
        v.with_index(index).entry_region() == v.entry_region(),
        v.with_index(index).entries() == v.entries(),
        parse_index(v.with_index(index).index_region()) == Some(
            (index, index_layout(index).len() as int),
        ),
{
    let w = v.with_index(index);
    let d = index_layout(index);
    lemma_index_round_trip(index, v.image.subrange(1024 + d.len() as int, 2048));
    assert(w.image.len() == v.image.len());
    assert(w.header_region() =~= v.header_region());
    assert(w.entry_region() =~= v.entry_region());
    assert(w.index_region() =~= d + v.image.subrange(1024 + d.len() as int, 2048));
}

pub struct LogFile {
    header: Header,
    index: Index,
    image: Vec<u8>,
}

impl View for LogFile {
    type V = LogFileView;

    closed spec fn view(&self) -> LogFileView {
        LogFileView { header: self.header@, index: self.index, image: self.image@ }
    }
}

/// Writes `data` over the bytes of `image` from offset `at` on.
fn write_at(image: &mut Vec<u8>, at: usize, data: &[u8])
    requires
        at + data@.len() <= old(image)@.len(),
    ensures
        final(image)@ == patched(old(image)@, at as int, data@),
{
    let size: usize = image.len();
    let mut i: usize = 0;
    while i < data.len()
        invariant
            i <= data@.len(),
            image@.len() == old(image)@.len(),
            image@.len() == size,
            at + data@.len() <= image@.len(),
            forall|j: int|
                0 <= j < image@.len() ==> #[trigger] image@[j] == (if at <= j < at + i {
                    data@[j - at]
                } else {
                    old(image)@[j]
                }),
        decreases data@.len() - i,
    {
        image[at + i] = data[i];
        i += 1;
    }
    assert(image@ =~= patched(old(image)@, at as int, data@));
}

impl LogFile {
    /// Mirrors the index into its region of the image.
    fn save_index(&mut self)
        requires
            old(self).image@.len() >= 2048,
        ensures
            final(self)@ == old(self)@.with_index(old(self).index),
    {
        let bytes = self.index.encode();
        write_at(&mut self.image, INDEX_START, bytes.as_slice());
    }

    /// Mirrors the header into its region of the image.
    fn save_header(&mut self)
        requires
            header_len(old(self).header@) <= 1024,
            old(self).image@.len() >= 1024,
        ensures
            final(self).header == old(self).header,
            final(self).index == old(self).index,
            final(self).image@ == patched(old(self).image@, 0, header_layout(old(self).header@)),
    {
        let bytes = self.header.encode();
        write_at(&mut self.image, HEADER_START, bytes.as_slice());
    }

    /// Whether the bytes of a file begin with the sentinel of this format.
    /// Nothing behind the sentinel is looked at.
    pub fn is_towl_file(bytes: &[u8]) -> (r: bool)
        ensures
            r == starts_with_magic(bytes@),
    {
        has_magic(bytes)
    }

    pub fn header(&self) -> (h: &Header)
        ensures
            h@ == self@.header,
    {
        &self.header
    }

    pub fn index(&self) -> (i: Index)
        ensures
            i == self@.index,
    {
        self.index
    }

    /// The bytes of the file.
    pub fn bytes(&self) -> (b: &Vec<u8>)
        ensures
            b@ == self@.image,
    {
        &self.image
    }

    /// Rebuilds the index from the entries and mirrors it into the image.
    /// What the index said before does not matter.
    pub fn reindex(&mut self)
        requires
            old(self)@.framed(),
        ensures
            final(self)@ == old(self)@.reindexed(),
            final(self)@.wf(),
            final(self)@.synced(),
            final(self)@.entries() == old(self)@.entries(),
            final(self)@.index.count == old(self)@.entries().len(),
    {
        let ghost before = self@;
        let ghost start = self.index.cleared();
        let ghost mut seen: Seq<EntryView> = Seq::empty();
        self.index.reset();
        let mut pos: usize = ENTRIES_START;
        assert(self.image@.skip(2048) =~= before.entry_region());
        loop
            invariant
                2048 <= pos <= self.image@.len(),
                self.image@ == before.image,
                self.header@ == before.header,
                before.framed(),
                start == before.index.cleared(),
                before.entries() == seen + parse_entries(self.image@.skip(pos as int)),
                self.index == start.folded(seen),
                self.index.count == seen.len(),
                36 * seen.len() <= pos - 2048,
                self.index.wf(),
            ensures
                self.image@ == before.image,
                self.header@ == before.header,
                before.entries() == seen,
                self.index == start.folded(seen),
                self.index.count == seen.len(),
                36 * seen.len() <= self.image@.len() - 2048,
                self.index.wf(),
            decreases self.image@.len() - pos,
        {
            let ghost rest = self.image@.skip(pos as int);
            match Entry::take(self.image.as_slice(), pos) {
                Some((entry, next)) => {
                    self.index.add_entry(&entry);
                    proof {
                        assert(rest.skip(next - pos) =~= self.image@.skip(next as int));
                        assert(seen.push(entry@).drop_last() =~= seen);
                        assert(seen + (seq![entry@] + parse_entries(rest.skip(next - pos)))
                            =~= seen.push(entry@) + parse_entries(rest.skip(next - pos)));
                        seen = seen.push(entry@);
                    }
                    pos = next;
                },
                None => {
                    assert(seen + Seq::<EntryView>::empty() =~= seen);
                    break ;
                },
            }
        }
        proof {
            lemma_folded_summary(start, seen);
            lemma_with_index(self@, self.index);
        }
        self.save_index();
    }

    /// Opens the file whose bytes are `image`. The sentinel is checked
    /// before anything else is read, and the index is rebuilt from the
    /// entries whatever it said.
    pub fn open(image: Vec<u8>) -> (r: Result<LogFile, Error>)
        ensures
            match opened(image@) {
                Ok(v) => r matches Ok(f) && f@ == v,
                Err(e) => r matches Err(x) && x == e,
            },
            !starts_with_magic(image@) ==> r matches Err(Error::NotATowlFile),
            r matches Ok(f) ==> (f@.wf() && f@.synced() && f@.entries() == parse_entries(
                image@.skip(2048),
            ) && f@.index.count == f@.entries().len()),
    {
        if !has_magic(image.as_slice()) {
            return Err(Error::NotATowlFile);
        }
        if image.len() < ENTRIES_START {
            return Err(Error::Decode);
        }
        let header = match Header::decode(slice_subrange(image.as_slice(), 0, INDEX_START)) {
            Ok((h, _)) => h,
            Err(_) => { return Err(Error::Decode); },
        };
        let index = match Index::decode(
            slice_subrange(image.as_slice(), INDEX_START, ENTRIES_START),
        ) {
            Ok((i, _)) => i,
            Err(_) => { return Err(Error::Decode); },
        };
        assert(image@.subrange(0, 1024).subrange(0, 9) =~= image@.subrange(0, 9));
        let mut file = LogFile { header, index, image };
        file.reindex();
        Ok(file)
    }

    /// Creates the store of a new file, opened at `opened`: the header with
    /// the given names and identity, an index without entries, and no
    /// entry. `occupied` says whether a file for this identity is already
    /// there. The new store is read back from its own bytes, as any file is
    /// when it is opened.
    pub fn init(
        occupied: bool,
        org: String,
        title: String,
        id: usize,
        opened: Timestamp,
    ) -> (r: Result<LogFile, Error>)
        ensures
            occupied ==> r matches Err(Error::AlreadyExists),
            !occupied && header_len(fresh_header(org@, title@, id)) > 1024 ==> r matches Err(
                Error::HeaderTooLarge,
            ),
            !occupied && header_len(fresh_header(org@, title@, id)) <= 1024 ==> (r matches Ok(f)
                && f@ == created(org@, title@, id, opened) && f@.wf() && f@.synced()
                && f@.clean() && f@.entries() == Seq::<EntryView>::empty()),
    {
        if occupied {
            return Err(Error::AlreadyExists);
        }
        let header = Header::new(org, title, id);
        let encoded = header.encode();
        if encoded.len() > INDEX_START {
            return Err(Error::HeaderTooLarge);
        }
        let index = Index::new(opened);
        let mut image: Vec<u8> = Vec::new();
        while image.len() < ENTRIES_START
            invariant
                image@.len() <= 2048,
                forall|k: int| 0 <= k < image@.len() ==> image@[k] == 0u8,
            decreases 2048 - image@.len(),
        {
            image.push(0u8);
        }
        assert(image@ =~= Seq::new(2048, |k: int| 0u8));
        let mut file = LogFile { header, index, image };
        file.save_header();
        file.save_index();
        proof {
            lemma_created(org@, title@, id, opened);
        }
        LogFile::open(file.image)
    }

    /// Appends the entry at the end of the file, takes note of it in the
    /// index and mirrors the index into the image.
    pub fn add_entry(&mut self, entry: Entry)
        requires
            old(self)@.wf(),
        ensures
            final(self)@ == old(self)@.appended(entry@),
            final(self)@.wf(),
            final(self)@.index.count == old(self)@.index.count + 1,
            final(self)@.entry_region() == old(self)@.entry_region() + entry_layout(entry@),
            old(self)@.clean() ==> final(self)@.clean()
                && final(self)@.entries() == old(self)@.entries().push(entry@),
            old(self)@.clean() && old(self)@.synced() ==> final(self)@.synced(),
    {
        let ghost before = self@;
        entry.put(&mut self.image);
        let ghost grown = self@;
        proof {
            assert(self.image@.len() == self.image.len() <= usize::MAX);
            assert(grown.header_region() =~= before.header_region());
            assert(grown.index_region() =~= before.index_region());
            assert(grown.entry_region() =~= before.entry_region() + entry_layout(entry@));
        }
        self.index.add_entry(&entry);
        proof {
            lemma_with_index(self@, self.index);
        }
        self.save_index();
        proof {
            if before.clean() {
                lemma_appended_clean(before, entry@);
            }
        }
    }

    /// The entries recorded strictly later than `after`, in the order in
    /// which the file holds them. The whole entry region is scanned.
    pub fn stream(&self, after: Timestamp) -> (out: Vec<Entry>)
        requires
            self@.framed(),
        ensures
            entry_views(out@) == later_entries(self@.entries(), after),
    {
        let mut out: Vec<Entry> = Vec::new();
        let ghost mut seen: Seq<EntryView> = Seq::empty();
        let mut pos: usize = ENTRIES_START;
        proof {
            reveal(Seq::filter);
            assert(entry_views(out@) =~= later_entries(seen, after));
        }
        loop
            invariant
                2048 <= pos <= self.image@.len(),
                self@.entries() == seen + parse_entries(self.image@.skip(pos as int)),
                entry_views(out@) == later_entries(seen, after),
            ensures
                self@.entries() == seen,
                entry_views(out@) == later_entries(seen, after),
            decreases self.image@.len() - pos,
        {
            let ghost rest = self.image@.skip(pos as int);
            match Entry::take(self.image.as_slice(), pos) {
                Some((entry, next)) => {
                    proof {
                        assert(rest.skip(next - pos) =~= self.image@.skip(next as int));
                        assert(seen + (seq![entry@] + parse_entries(rest.skip(next - pos)))
                            =~= seen.push(entry@) + parse_entries(rest.skip(next - pos)));
                        lemma_later_entries_push(seen, entry@, after);
                        seen = seen.push(entry@);
                    }
                    if entry.received.is_after(&after) {
                        let ghost kept = out@;
                        out.push(entry);
                        assert(entry_views(out@) =~= entry_views(kept).push(entry@));
                    }
                    pos = next;
                },
                None => {
                    assert(seen + Seq::<EntryView>::empty() =~= seen);
                    break ;
                },
            }
        }
        out
    }

    /// Stamps the index with `t` as the time of closing and mirrors it into
    /// the image. Nothing else changes, and the store accepts appends as
    /// before.
    pub fn close(&mut self, t: Timestamp)
        requires
            old(self)@.wf(),
        ensures
            final(self)@ == old(self)@.closed_at(t),
            final(self)@.wf(),
            final(self)@.entries() == old(self)@.entries(),
            final(self)@.entry_region() == old(self)@.entry_region(),
    {
        self.index.close(t);
        proof {
            lemma_with_index(self@, self.index);
        }
        self.save_index();
    }
}

/// An append that the machine has room for leaves a well-formed file
/// well-formed and makes it longer by the record.
pub proof fn lemma_appended_wf(v: LogFileView, e: EntryView)
    requires
        v.wf(),
        entry_fits(e),
        v.image.len() + entry_layout(e).len() <= usize::MAX,
    ensures
        v.appended(e).wf(),
        v.appended(e).header == v.header,
        v.appended(e).image.len() == v.image.len() + entry_layout(e).len(),
        v.appended(e).entry_region() == v.entry_region() + entry_layout(e),
{
    let grown = LogFileView { image: v.image + entry_layout(e), ..v };
    crate::entry::lemma_entry_round_trip(e, Seq::empty());
    assert(grown.header_region() =~= v.header_region());
    assert(grown.entry_region() =~= v.entry_region() + entry_layout(e));
    lemma_with_index(grown, v.index.noted(e.received));
}

/// An append to a clean file leaves it clean, and a scan then finds the
/// entries of before and the new one behind them. Where the index agreed
/// with the entries before, it does so after.
pub proof fn lemma_appended_clean(v: LogFileView, e: EntryView)
    requires
        v.framed(),
        v.clean(),
        entry_fits(e),
    ensures
        v.appended(e).clean(),
        v.appended(e).entries() == v.entries().push(e),
        v.synced() ==> v.appended(e).synced(),
{
    let es = v.entries();
    let grown = LogFileView { image: v.image + entry_layout(e), ..v };
    let w = v.appended(e);
    lemma_parsed_entries_fit(v.entry_region());
    assert(grown.header_region() =~= v.header_region());
    lemma_with_index(grown, v.index.noted(e.received));
    assert(grown.entry_region() =~= v.entry_region() + entry_layout(e));
    assert(es.push(e).drop_last() =~= es);
    assert(entries_layout(es.push(e)) =~= entries_layout(es) + entry_layout(e));
    assert(all_fit(es.push(e)));
    lemma_scan_finds_written(es.push(e));
}

} // verus!
