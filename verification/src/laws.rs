//! What holds of the log file store and the logger whatever they are given.

use crate::entry::{
    all_fit, entries_layout, entry_fits, entry_layout, later_entries, lemma_later_entries_push,
    lemma_parse_entries_len, lemma_parsed_entries_fit, lemma_scan_finds_written,
    strictly_increasing, EntryView,
};
use crate::error::Error;
use crate::fs::{
    created, lemma_appended_clean, lemma_appended_wf, lemma_created, lemma_with_index, opened,
    LogFileView,
};
use crate::header::{fresh_header, header_len, starts_with_magic};
use crate::index::{lemma_folded_summary, lemma_index_is_canonical, Index};
use crate::logger::{LoggerView, Phase};
use crate::time::Timestamp;
use vstd::prelude::*;

verus! {

/// A rebuilt index counts the entries that a scan of the file finds, and
/// names the times of the first and the last of them, whatever the index
/// said before.
pub proof fn law_reindex_counts_what_a_scan_finds(v: LogFileView)
    requires
        v.framed(),
        v.image.len() <= usize::MAX,
    ensures
        v.reindexed().entries() == v.entries(),
        v.reindexed().index.count == v.entries().len(),
        v.entries().len() > 0 ==> v.reindexed().index.first_date == Some(v.entries()[0].received)
            && v.reindexed().index.last_date == Some(v.entries().last().received),
        v.entries().len() == 0 ==> v.reindexed().index.first_date is None
            && v.reindexed().index.last_date is None,
        v.reindexed().wf(),
        v.reindexed().synced(),
{
    let es = v.entries();
    let rebuilt = v.index.cleared().folded(es);
    lemma_parse_entries_len(v.entry_region());
    lemma_folded_summary(v.index.cleared(), es);
    lemma_with_index(v, rebuilt);
}

/// Where no entry was recorded before the one in front of it, the first
/// time of the index is not later than the last.
pub proof fn law_first_not_after_last(start: Index, es: Seq<EntryView>)
    requires
        start == start.cleared(),
        es.len() <= usize::MAX,
        forall|i: int, j: int|
            0 <= i <= j < es.len() ==> (#[trigger] es[j]).received.not_before(
                (#[trigger] es[i]).received,
            ),
    ensures
        start.folded(es).wf(),
        es.len() > 0 ==> start.folded(es).first_date is Some && start.folded(es).last_date is Some
            && start.folded(es).last_date->0.not_before(start.folded(es).first_date->0),
{
    lemma_folded_summary(start, es);
    if es.len() > 0 {
        assert(es.last() == es[es.len() - 1]);
        assert(es[es.len() - 1].received.not_before(es[0].received));
    }
}

/// A file that does not begin with the sentinel is refused as foreign, and
/// nothing of it is loaded.
pub proof fn law_foreign_file_is_refused(image: Seq<u8>)
    requires
        !starts_with_magic(image),
    ensures
        opened(image) == Err::<LogFileView, Error>(Error::NotATowlFile),
{
}

/// Appends to a clean file are all found by a scan, behind the entries
/// that were there, in the order of the appends; the file stays clean, and
/// an index that agreed with the entries still does. Where the machine has
/// room for the file it stays well-formed.
pub proof fn law_appends_are_found(v: LogFileView, es: Seq<EntryView>)
    requires
        v.wf(),
        v.clean(),
        all_fit(es),
    ensures
        v.appended_all(es).entries() == v.entries() + es,
        v.appended_all(es).clean(),
        v.appended_all(es).framed(),
        v.appended_all(es).header == v.header,
        v.appended_all(es).image.len() >= v.image.len(),
        v.appended_all(es).index.opened == v.index.opened,
        v.appended_all(es).index.closed == v.index.closed,
        v.synced() ==> v.appended_all(es).synced(),
        v.appended_all(es).image.len() <= usize::MAX ==> v.appended_all(es).wf(),
    decreases es.len(),
{
    if es.len() == 0 {
        assert(v.entries() + es =~= v.entries());
    } else {
        let front = es.drop_last();
        let w = v.appended_all(front);
        law_appends_are_found(v, front);
        lemma_appended_clean(w, es.last());
        let grown = LogFileView { image: w.image + entry_layout(es.last()), ..w };
        assert(grown.header_region() =~= w.header_region());
        lemma_with_index(grown, w.index.noted(es.last().received));
        assert((v.entries() + front).push(es.last()) =~= v.entries() + es);
        if v.appended_all(es).image.len() <= usize::MAX {
            lemma_appended_wf(w, es.last());
        }
    }
}

/// Two appends to one store come one after the other, in either order:
/// each puts its whole record at the end of the file, behind the record of
/// the one before it, and the index counts both. Where the file was clean,
/// a scan finds the two entries behind those that were there, in the order
/// of the appends.
pub proof fn law_two_appends_in_either_order(v: LogFileView, a: EntryView, b: EntryView)
    requires
        v.wf(),
        entry_fits(a),
        entry_fits(b),
        v.image.len() + entry_layout(a).len() + entry_layout(b).len() <= usize::MAX,
    ensures
        v.appended(a).appended(b).wf(),
        v.appended(b).appended(a).wf(),
        v.appended(a).appended(b).entry_region() == v.entry_region() + entry_layout(a)
            + entry_layout(b),
        v.appended(b).appended(a).entry_region() == v.entry_region() + entry_layout(b)
            + entry_layout(a),
        v.appended(a).appended(b).index.count == v.index.count + 2,
        v.appended(b).appended(a).index.count == v.index.count + 2,
        v.clean() ==> v.appended(a).appended(b).entries() == v.entries().push(a).push(b)
            && v.appended(b).appended(a).entries() == v.entries().push(b).push(a),
{
    lemma_appended_wf(v, a);
    lemma_appended_wf(v.appended(a), b);
    lemma_appended_wf(v, b);
    lemma_appended_wf(v.appended(b), a);
    if v.clean() {
        lemma_appended_clean(v, a);
        lemma_appended_clean(v.appended(a), b);
        lemma_appended_clean(v, b);
        lemma_appended_clean(v.appended(b), a);
    }
}

/// No entry is later than a time that none of them is later than.
pub proof fn law_nothing_after_the_last(es: Seq<EntryView>, after: Timestamp)
    requires
        forall|i: int| 0 <= i < es.len() ==> !(#[trigger] es[i]).received.later_than(after),
    ensures
        later_entries(es, after) == Seq::<EntryView>::empty(),
    decreases es.len(),
{
    reveal(Seq::filter);
    if es.len() > 0 {
        law_nothing_after_the_last(es.drop_last(), after);
    }
}

/// Of entries with strictly increasing times, those later than the time of
/// the `k`-th are exactly the ones behind it, in their order.
pub proof fn law_later_than_kth(es: Seq<EntryView>, k: int)
    requires
        strictly_increasing(es),
        0 <= k < es.len(),
    ensures
        later_entries(es, es[k].received) == es.skip(k + 1),
    decreases es.len(),
{
    let after = es[k].received;
    let front = es.drop_last();
    if k == es.len() - 1 {
        assert forall|i: int| 0 <= i < es.len() implies !(#[trigger] es[i]).received.later_than(
            after,
        ) by {
            if i < k {
                assert(es[k].received.later_than(es[i].received));
            }
        }
        law_nothing_after_the_last(es, after);
        assert(es.skip(k + 1) =~= Seq::<EntryView>::empty());
    } else {
        assert(strictly_increasing(front)) by {
            assert forall|i: int, j: int| 0 <= i < j < front.len() implies (
            #[trigger] front[j]).received.later_than((#[trigger] front[i]).received) by {
                assert(front[j] == es[j] && front[i] == es[i]);
            }
        }
        assert(front[k] == es[k]);
        law_later_than_kth(front, k);
        lemma_later_entries_push(front, es.last(), after);
        assert(front.push(es.last()) =~= es);
        assert(es.last() == es[es.len() - 1]);
        assert(es[es.len() - 1].received.later_than(es[k].received));
        assert(front.skip(k + 1).push(es.last()) =~= es.skip(k + 1));
    }
}

/// After appends with strictly increasing times to a new file, a scan for
/// the entries later than the `k`-th of them yields exactly the ones that
/// were appended after it, in the order of the appends.
pub proof fn law_stream_after_kth_append(
    org: Seq<char>,
    title: Seq<char>,
    id: usize,
    at: Timestamp,
    es: Seq<EntryView>,
    k: int,
)
    requires
        header_len(fresh_header(org, title, id)) <= 1024,
        all_fit(es),
        strictly_increasing(es),
        0 <= k < es.len(),
    ensures
        later_entries(created(org, title, id, at).appended_all(es).entries(), es[k].received)
            == es.skip(k + 1),
{
    let v = created(org, title, id, at);
    lemma_created(org, title, id, at);
    law_appends_are_found(v, es);
    assert(v.entries() + es =~= es);
    law_later_than_kth(es, k);
}

/// A scan for the entries later than a time that lies behind every entry
/// yields nothing.
pub proof fn law_stream_after_all_is_empty(v: LogFileView, after: Timestamp)
    requires
        forall|i: int|
            0 <= i < v.entries().len() ==> after.later_than((#[trigger] v.entries()[i]).received),
    ensures
        later_entries(v.entries(), after) == Seq::<EntryView>::empty(),
{
    law_nothing_after_the_last(v.entries(), after);
}

/// An entry whose bytes reached the end of a clean file is found when the
/// file is opened again, though the index in the file never heard of it:
/// the rebuilt index counts it.
pub proof fn law_reopen_finds_unindexed_entry(v: LogFileView, e: EntryView)
    requires
        v.wf(),
        v.clean(),
        entry_fits(e),
        v.image.len() + entry_layout(e).len() <= usize::MAX,
    ensures
        opened(v.image + entry_layout(e)) matches Ok(w) && w.entries() == v.entries().push(e)
            && w.index.count == v.entries().len() + 1 && w.index.last_date == Some(e.received)
            && w.header == v.header && w.wf() && w.synced(),
{
    let image = v.image + entry_layout(e);
    let torn = LogFileView { image, ..v };
    assert(image.subrange(0, 1024) =~= v.header_region());
    assert(image.subrange(1024, 2048) =~= v.index_region());
    assert(v.header_region().subrange(0, 9) =~= image.subrange(0, 9));
    assert(torn.entry_region() =~= v.entry_region() + entry_layout(e));
    let es = v.entries().push(e);
    lemma_parsed_entries_fit(v.entry_region());
    assert(es.drop_last() =~= v.entries());
    assert(entries_layout(es) =~= entries_layout(v.entries()) + entry_layout(e));
    assert(all_fit(es));
    lemma_scan_finds_written(es);
    law_reindex_counts_what_a_scan_finds(torn);
}

/// A well-formed file opens again with the header and the entries that it
/// had and an index that agrees with them; one whose index agreed with them
/// before opens as it was.
pub proof fn law_reopen_keeps_the_file(v: LogFileView)
    requires
        v.wf(),
        v.image.len() <= usize::MAX,
    ensures
        opened(v.image) matches Ok(w) && w.header == v.header && w.entries() == v.entries()
            && w.index.opened == v.index.opened && w.index.closed == v.index.closed
            && w.index.count == v.entries().len() && w.wf() && w.synced() && (v.synced() ==> w
            == v),
{
    assert(v.header_region().subrange(0, 9) =~= v.image.subrange(0, 9));
    law_reindex_counts_what_a_scan_finds(v);
    lemma_folded_summary(v.index.cleared(), v.entries());
    if v.synced() {
        lemma_index_is_canonical(v.index_region());
        assert(v.reindexed().image =~= v.image);
    }
}

/// A new file to which entries were appended and which was then closed
/// opens again with exactly these entries and an index that counts them,
/// names the times of the first and the last of them, and keeps the times
/// of creation and of closing.
pub proof fn law_reopen_reports_the_appends(
    org: Seq<char>,
    title: Seq<char>,
    id: usize,
    at: Timestamp,
    es: Seq<EntryView>,
    closed: Timestamp,
)
    requires
        header_len(fresh_header(org, title, id)) <= 1024,
        all_fit(es),
        es.len() > 0,
        created(org, title, id, at).appended_all(es).image.len() <= usize::MAX,
    ensures
        opened(created(org, title, id, at).appended_all(es).closed_at(closed).image) matches Ok(w)
            && w.entries() == es && w.index == (Index {
            opened: at,
            closed: Some(closed),
            count: es.len() as usize,
            first_date: Some(es[0].received),
            last_date: Some(es.last().received),
        }),
{
    let v = created(org, title, id, at);
    let full = v.appended_all(es);
    let shut = full.closed_at(closed);
    assert(full.wf() && full.entries() == es && full.index.opened == at && full.index.closed
        is None) by {
        lemma_created(org, title, id, at);
        law_appends_are_found(v, es);
        assert(v.entries() + es =~= es);
    }
    assert(shut.wf() && shut.entries() == es && shut.image.len() == full.image.len()
        && shut.index.opened == at && shut.index.closed == Some(closed)) by {
        lemma_with_index(full, full.index.closed_at(closed));
    }
    law_reopen_keeps_the_file(shut);
    let w = opened(shut.image)->Ok_0;
    assert(w.index == w.index.cleared().folded(es));
    lemma_parse_entries_len(shut.entry_region());
    lemma_folded_summary(w.index.cleared(), es);
}

/// A logger that takes back the file that it has moved out is the logger
/// that it was.
pub proof fn law_put_back_undoes_the_move(l: LoggerView)
    requires
        l.wf(),
        l.phase == Phase::Active,
        l.counter < usize::MAX,
    ensures
        l.rotated_out().wf(),
        l.rotated_out().taken_back(l.working->0) == l,
{
}

/// Once the working file is moved out the logger holds none, and the file
/// that it is then given is new: it holds no entry, whatever the file
/// before it held, and an append to it is found as its only entry.
pub proof fn law_new_file_after_rotation(l: LoggerView, now: Timestamp, e: EntryView)
    requires
        l.wf(),
        l.phase == Phase::Active,
        l.counter < usize::MAX,
        header_len(fresh_header(l.config.org, l.config.title, (l.counter + 1) as usize)) <= 1024,
        entry_fits(e),
    ensures
        l.rotated_out().working is None,
        l.rotated_out().renewed(now).wf(),
        l.rotated_out().renewed(now).working matches Some(f) && f.header.id == l.counter + 1
            && f.entries() == Seq::<EntryView>::empty() && f.appended(e).entries() == seq![e],
{
    let id = (l.counter + 1) as usize;
    let f = created(l.config.org, l.config.title, id, now);
    lemma_created(l.config.org, l.config.title, id, now);
    lemma_appended_clean(f, e);
    assert(f.entries().push(e) =~= seq![e]);
}

} // verus!
