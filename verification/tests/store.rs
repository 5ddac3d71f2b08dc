use towl::entry::Entry;
use towl::error::Error;
use towl::fs::LogFile;
use towl::header::Header;
use towl::index::Index;
use towl::time::Timestamp;

fn entry(id: &str, secs: i64) -> Entry {
    Entry::new(
        id.to_string(),
        "daemon".to_string(),
        Timestamp::new(secs, 0),
        format!("{{\"n\":{}}}", secs),
    )
}

fn fresh() -> LogFile {
    let opened = Timestamp::new(1_700_000_000, 5);
    LogFile::init(false, "gz".to_string(), "log".to_string(), 0, opened).unwrap()
}

fn ids(entries: &[Entry]) -> Vec<String> {
    entries.iter().map(|e| e.id.clone()).collect()
}

#[test]
fn three_appends_survive_close_and_reopen() {
    let opened = Timestamp::new(1_700_000_000, 5);
    let mut file = fresh();
    file.add_entry(entry("a", 10));
    file.add_entry(entry("b", 20));
    file.add_entry(entry("c", 30));
    file.close(Timestamp::new(1_700_000_100, 0));

    let mut reopened = LogFile::open(file.bytes().clone()).unwrap();
    reopened.reindex();
    let index = reopened.index();
    assert_eq!(index.count, 3);
    assert_eq!(index.first_date, Some(Timestamp::new(10, 0)));
    assert_eq!(index.last_date, Some(Timestamp::new(30, 0)));
    assert_eq!(index.opened, opened);
    assert_eq!(index.closed, Some(Timestamp::new(1_700_000_100, 0)));
    assert_eq!(reopened.header().org(), "gz");
    assert_eq!(reopened.header().title(), "log");
    assert_eq!(reopened.header().id(), 0);
}

#[test]
fn new_file_is_two_regions_and_no_entry() {
    let file = fresh();
    let bytes = file.bytes();
    assert_eq!(bytes.len(), 2048);
    let header = Header::new("gz".to_string(), "log".to_string(), 0).encode();
    assert_eq!(&bytes[..header.len()], &header[..]);
    assert!(bytes[header.len()..1024].iter().all(|b| *b == 0));
    let index = Index::new(Timestamp::new(1_700_000_000, 5)).encode();
    assert_eq!(&bytes[1024..1024 + index.len()], &index[..]);
    assert!(bytes[1024 + index.len()..].iter().all(|b| *b == 0));
    assert_eq!(file.index(), Index::new(Timestamp::new(1_700_000_000, 5)));
    assert!(file.header().check_magic());
    assert!(file.stream(Timestamp::new(i64::MIN, 0)).is_empty());
}

#[test]
fn init_refuses_an_identity_that_is_taken() {
    let r = LogFile::init(true, "gz".to_string(), "log".to_string(), 0, Timestamp::new(0, 0));
    assert!(matches!(r, Err(Error::AlreadyExists)));
    let long = "x".repeat(5000);
    let r = LogFile::init(true, long, "log".to_string(), 0, Timestamp::new(0, 0));
    assert!(matches!(r, Err(Error::AlreadyExists)));
}

#[test]
fn init_refuses_a_header_that_does_not_fit() {
    let fits = "x".repeat(1024 - 37);
    let r = LogFile::init(false, fits, String::new(), 0, Timestamp::new(0, 0));
    assert!(r.is_ok());
    let too_long = "x".repeat(1024 - 37 + 1);
    let r = LogFile::init(false, too_long, String::new(), 0, Timestamp::new(0, 0));
    assert!(matches!(r, Err(Error::HeaderTooLarge)));
    let r = LogFile::init(false, "a".repeat(600), "b".repeat(600), 0, Timestamp::new(0, 0));
    assert!(matches!(r, Err(Error::HeaderTooLarge)));
}

#[test]
fn probe_reads_the_sentinel_only() {
    assert!(LogFile::is_towl_file(fresh().bytes()));
    assert!(LogFile::is_towl_file(b"towlfile*"));
    assert!(!LogFile::is_towl_file(b"towlfile"));
    assert!(!LogFile::is_towl_file(b""));
    assert!(!LogFile::is_towl_file(b"PNG\r\n and so on"));
}

#[test]
fn open_refuses_a_missing_or_corrupted_sentinel() {
    assert!(matches!(LogFile::open(Vec::new()), Err(Error::NotATowlFile)));
    assert!(matches!(LogFile::open(vec![0; 4096]), Err(Error::NotATowlFile)));
    assert!(matches!(LogFile::open(b"towlfile".to_vec()), Err(Error::NotATowlFile)));
    for at in 0..9 {
        let mut bytes = fresh().bytes().clone();
        bytes[at] ^= 1;
        assert!(matches!(LogFile::open(bytes), Err(Error::NotATowlFile)));
    }
}

#[test]
fn open_refuses_a_file_without_its_fixed_regions() {
    let bytes = fresh().bytes().clone();
    assert!(matches!(LogFile::open(bytes[..9].to_vec()), Err(Error::Decode)));
    assert!(matches!(LogFile::open(bytes[..1024].to_vec()), Err(Error::Decode)));
    assert!(matches!(LogFile::open(bytes[..2047].to_vec()), Err(Error::Decode)));
    assert!(LogFile::open(bytes).is_ok());
}

#[test]
fn open_refuses_a_malformed_header() {
    let mut bytes = fresh().bytes().clone();
    for b in &mut bytes[13..21] {
        *b = 0xff;
    }
    assert!(matches!(LogFile::open(bytes), Err(Error::Decode)));
}

#[test]
fn open_refuses_a_malformed_index() {
    let mut bytes = fresh().bytes().clone();
    bytes[1024 + 12] = 9;
    assert!(matches!(LogFile::open(bytes), Err(Error::Decode)));
}

#[test]
fn append_grows_the_file_by_the_record_and_rewrites_the_index() {
    let mut file = fresh();
    let before = file.bytes().clone();
    let e = entry("a", 10);
    file.add_entry(e.clone());
    let after = file.bytes();
    assert_eq!(after.len(), before.len() + e.encode().len());
    assert_eq!(&after[..1024], &before[..1024]);
    assert_eq!(&after[2048..], &e.encode()[..]);
    let index = file.index();
    assert_eq!(index.count, 1);
    assert_eq!(index.first_date, Some(Timestamp::new(10, 0)));
    assert_eq!(index.last_date, Some(Timestamp::new(10, 0)));
    let encoded = index.encode();
    assert_eq!(&after[1024..1024 + encoded.len()], &encoded[..]);
}

#[test]
fn stream_after_the_kth_yields_the_ones_behind_it() {
    let mut file = fresh();
    let all: Vec<Entry> = (0..6).map(|i| entry(&format!("e{}", i), 100 + i)).collect();
    for e in &all {
        file.add_entry(e.clone());
    }
    for k in 0..all.len() {
        let got = file.stream(all[k].received);
        assert_eq!(got, all[k + 1..].to_vec());
    }
    assert_eq!(file.stream(Timestamp::new(0, 0)), all);
}

#[test]
fn stream_after_every_entry_is_empty() {
    let mut file = fresh();
    file.add_entry(entry("a", 10));
    file.add_entry(entry("b", 20));
    assert!(file.stream(Timestamp::new(20, 0)).is_empty());
    assert!(file.stream(Timestamp::new(20, 1)).is_empty());
    assert!(file.stream(Timestamp::new(i64::MAX, u32::MAX)).is_empty());
}

#[test]
fn stream_compares_nanoseconds_within_a_second() {
    let mut file = fresh();
    let mut e = entry("a", 10);
    e.received = Timestamp::new(10, 500);
    file.add_entry(e.clone());
    assert_eq!(file.stream(Timestamp::new(10, 499)), vec![e]);
    assert!(file.stream(Timestamp::new(10, 500)).is_empty());
}

#[test]
fn stream_keeps_the_order_of_the_file_where_times_go_back() {
    let mut file = fresh();
    file.add_entry(entry("late", 50));
    file.add_entry(entry("early", 5));
    file.add_entry(entry("mid", 30));
    assert_eq!(ids(&file.stream(Timestamp::new(10, 0))), vec!["late", "mid"]);
    let index = file.index();
    assert_eq!(index.first_date, Some(Timestamp::new(50, 0)));
    assert_eq!(index.last_date, Some(Timestamp::new(30, 0)));
}

#[test]
fn reopen_finds_an_entry_that_the_index_never_heard_of() {
    let mut file = fresh();
    file.add_entry(entry("a", 10));
    let mut torn = file.bytes().clone();
    torn.extend_from_slice(&entry("b", 20).encode());
    let stale = Index::decode(&torn[1024..2048]).unwrap().0;
    assert_eq!(stale.count, 1);

    let reopened = LogFile::open(torn).unwrap();
    assert_eq!(reopened.index().count, 2);
    assert_eq!(reopened.index().last_date, Some(Timestamp::new(20, 0)));
    assert_eq!(ids(&reopened.stream(Timestamp::new(0, 0))), vec!["a", "b"]);
    let healed = Index::decode(&reopened.bytes()[1024..2048]).unwrap().0;
    assert_eq!(healed, reopened.index());
}

#[test]
fn reindex_does_not_go_by_the_index_on_disk() {
    let mut file = fresh();
    file.add_entry(entry("a", 10));
    file.add_entry(entry("b", 20));
    let mut bytes = file.bytes().clone();
    let lying = Index {
        opened: Timestamp::new(1, 1),
        closed: None,
        count: 40,
        first_date: Some(Timestamp::new(0, 0)),
        last_date: Some(Timestamp::new(99, 0)),
    }
    .encode();
    bytes[1024..1024 + lying.len()].copy_from_slice(&lying);
    let reopened = LogFile::open(bytes).unwrap();
    assert_eq!(
        reopened.index(),
        Index {
            opened: Timestamp::new(1, 1),
            closed: None,
            count: 2,
            first_date: Some(Timestamp::new(10, 0)),
            last_date: Some(Timestamp::new(20, 0)),
        }
    );
}

#[test]
fn a_damaged_tail_ends_the_visible_log() {
    let mut file = fresh();
    file.add_entry(entry("a", 10));
    file.add_entry(entry("b", 20));
    let whole = file.bytes().clone();
    let last = entry("b", 20).encode().len();
    for cut in 1..last {
        let reopened = LogFile::open(whole[..whole.len() - cut].to_vec()).unwrap();
        assert_eq!(reopened.index().count, 1);
        assert_eq!(reopened.index().last_date, Some(Timestamp::new(10, 0)));
        assert_eq!(ids(&reopened.stream(Timestamp::new(0, 0))), vec!["a"]);
    }
}

#[test]
fn close_stamps_the_index_and_leaves_the_entries() {
    let mut file = fresh();
    file.add_entry(entry("a", 10));
    let region = file.bytes()[2048..].to_vec();
    let closed = Timestamp::new(1_700_000_500, 9);
    file.close(closed);
    assert_eq!(file.index().closed, Some(closed));
    assert_eq!(Index::decode(&file.bytes()[1024..2048]).unwrap().0, file.index());
    assert_eq!(file.index().count, 1);
    assert_eq!(&file.bytes()[2048..], &region[..]);
    file.add_entry(entry("b", 20));
    assert_eq!(file.index().count, 2);
    assert_eq!(file.index().closed, Some(closed));
}

#[test]
fn reindex_of_a_synced_file_changes_nothing() {
    let mut file = fresh();
    file.add_entry(entry("a", 10));
    file.add_entry(entry("b", 20));
    let bytes = file.bytes().clone();
    let index = file.index();
    file.reindex();
    assert_eq!(file.index(), index);
    assert_eq!(file.bytes(), &bytes);
}

#[test]
fn concurrent_appends_are_whole_records_in_one_order() {
    let store = std::sync::Arc::new(std::sync::Mutex::new(fresh()));
    let runtime = tokio::runtime::Builder::new_multi_thread().worker_threads(4).build().unwrap();
    runtime.block_on(async {
        let mut tasks = Vec::new();
        for writer in 0..4i64 {
            let store = store.clone();
            tasks.push(tokio::task::spawn_blocking(move || {
                for n in 0..50i64 {
                    let e = entry(&format!("w{}-{}", writer, n), writer * 1000 + n);
                    store.lock().unwrap().add_entry(e);
                }
            }));
        }
        for task in tasks {
            task.await.unwrap();
        }
    });
    let file = store.lock().unwrap();
    let all = file.stream(Timestamp::new(-1, 0));
    assert_eq!(all.len(), 200);
    assert_eq!(file.index().count, 200);
    for writer in 0..4i64 {
        let own: Vec<String> = all
            .iter()
            .filter(|e| e.id.starts_with(&format!("w{}-", writer)))
            .map(|e| e.id.clone())
            .collect();
        let expected: Vec<String> = (0..50).map(|n| format!("w{}-{}", writer, n)).collect();
        assert_eq!(own, expected);
    }
    let reopened = LogFile::open(file.bytes().clone()).unwrap();
    assert_eq!(reopened.index().count, 200);
    assert_eq!(reopened.stream(Timestamp::new(-1, 0)), all);
}
