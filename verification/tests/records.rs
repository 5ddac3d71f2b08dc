use towl::entry::Entry;
use towl::error::Error;
use towl::header::{has_magic, magic_bytes, Header, VERSION};
use towl::index::Index;
use towl::settings::Settings;
use towl::time::Timestamp;

fn sample_entry() -> Entry {
    Entry {
        id: "e3b0c442".to_string(),
        sender: "10.0.0.7".to_string(),
        received: Timestamp::new(1_700_000_000, 123_456_789),
        log_json: "{\"MESSAGE\":\"started ünit\"}".to_string(),
    }
}

#[test]
fn magic_is_towlfile_star() {
    assert_eq!(&magic_bytes(), b"towlfile*");
}

#[test]
fn has_magic_looks_at_the_first_nine_bytes() {
    assert!(has_magic(b"towlfile*"));
    assert!(has_magic(b"towlfile* and more"));
    assert!(!has_magic(b"towlfile"));
    assert!(!has_magic(b"towlfile+"));
    assert!(!has_magic(b"Towlfile*"));
    assert!(!has_magic(b""));
}

#[test]
fn new_header_carries_magic_and_version() {
    let h = Header::new("gz".to_string(), "log".to_string(), 7);
    assert!(h.check_magic());
    assert_eq!(h.version(), VERSION);
    assert_eq!(h.version(), 1);
    assert_eq!(h.org(), "gz");
    assert_eq!(h.title(), "log");
    assert_eq!(h.id(), 7);
}

#[test]
fn header_layout_is_exact() {
    let h = Header::new("gz".to_string(), "log".to_string(), 7);
    let mut expected = b"towlfile*".to_vec();
    expected.extend_from_slice(&[1, 0, 0, 0]);
    expected.extend_from_slice(&[2, 0, 0, 0, 0, 0, 0, 0]);
    expected.extend_from_slice(b"gz");
    expected.extend_from_slice(&[3, 0, 0, 0, 0, 0, 0, 0]);
    expected.extend_from_slice(b"log");
    expected.extend_from_slice(&[7, 0, 0, 0, 0, 0, 0, 0]);
    assert_eq!(h.encode(), expected);
    assert_eq!(h.encode().len(), 37 + 2 + 3);
}

#[test]
fn header_is_laid_out_as_bincode_lays_out_its_fields() {
    let h = Header::new("örg".to_string(), "title".to_string(), 12345);
    let fields = (*b"towlfile*", 1i32, "örg".to_string(), "title".to_string(), 12345u64);
    assert_eq!(h.encode(), bincode::serialize(&fields).unwrap());
}

#[test]
fn header_round_trip() {
    let h = Header::new("gz".to_string(), "журнал".to_string(), usize::MAX);
    let mut bytes = h.encode();
    let len = bytes.len();
    bytes.extend_from_slice(&[9, 9, 9]);
    let (back, used) = Header::decode(&bytes).unwrap();
    assert_eq!(used, len);
    assert!(back.check_magic());
    assert_eq!(back.version(), 1);
    assert_eq!(back.org(), "gz");
    assert_eq!(back.title(), "журнал");
    assert_eq!(back.id(), usize::MAX);
}

#[test]
fn header_decode_keeps_a_foreign_sentinel_as_it_is() {
    let mut bytes = Header::new("a".to_string(), "b".to_string(), 1).encode();
    bytes[0] = b'T';
    let (h, _) = Header::decode(&bytes).unwrap();
    assert!(!h.check_magic());
    assert_eq!(h.org(), "a");
}

#[test]
fn header_that_is_cut_short_is_refused() {
    let bytes = Header::new("gz".to_string(), "log".to_string(), 7).encode();
    for cut in 0..bytes.len() {
        assert!(matches!(Header::decode(&bytes[..cut]), Err(Error::Decode)));
    }
}

#[test]
fn entry_layout_is_exact() {
    let e = Entry::new("i".to_string(), "s".to_string(), Timestamp::new(2, 3), "p".to_string());
    let expected = vec![
        1, 0, 0, 0, 0, 0, 0, 0, b'i', 1, 0, 0, 0, 0, 0, 0, 0, b's', 2, 0, 0, 0, 0, 0, 0, 0, 3,
        0, 0, 0, 1, 0, 0, 0, 0, 0, 0, 0, b'p',
    ];
    assert_eq!(e.encode(), expected);
    assert_eq!(e.encode().len(), 36 + 3);
}

#[test]
fn entry_is_laid_out_as_bincode_lays_out_its_fields() {
    let e = sample_entry();
    let fields = (
        e.id.clone(),
        e.sender.clone(),
        (e.received.secs, e.received.nanos),
        e.log_json.clone(),
    );
    assert_eq!(e.encode(), bincode::serialize(&fields).unwrap());
}

#[test]
fn entry_round_trip() {
    let e = sample_entry();
    let mut bytes = e.encode();
    let len = bytes.len();
    bytes.extend_from_slice(&[1, 2, 3]);
    assert_eq!(Entry::decode(&bytes), Ok((e.clone(), len)));
    assert_eq!(Entry::take(&bytes, 0), Some((e, len)));
}

#[test]
fn empty_entry_round_trip() {
    let e = Entry::new(String::new(), String::new(), Timestamp::new(0, 0), String::new());
    let bytes = e.encode();
    assert_eq!(bytes.len(), 36);
    assert_eq!(Entry::decode(&bytes), Ok((e, 36)));
}

#[test]
fn entry_put_appends() {
    let e = sample_entry();
    let mut out = vec![7, 7];
    e.put(&mut out);
    assert_eq!(&out[..2], &[7, 7]);
    assert_eq!(&out[2..], &e.encode()[..]);
    assert_eq!(Entry::take(&out, 2), Some((e, out.len())));
}

#[test]
fn entry_that_is_cut_short_is_refused() {
    let bytes = sample_entry().encode();
    for cut in 0..bytes.len() {
        assert_eq!(Entry::decode(&bytes[..cut]), Err(Error::Decode));
        assert_eq!(Entry::take(&bytes[..cut], 0), None);
    }
}

#[test]
fn entry_duplicate_is_equal() {
    let e = sample_entry();
    assert_eq!(e.duplicate(), e);
}

#[test]
fn new_index_is_empty() {
    let i = Index::new(Timestamp::new(5, 6));
    assert_eq!(i.opened, Timestamp::new(5, 6));
    assert_eq!(i.closed, None);
    assert_eq!(i.count, 0);
    assert_eq!(i.first_date, None);
    assert_eq!(i.last_date, None);
}

#[test]
fn index_takes_note_of_entries() {
    let mut i = Index::new(Timestamp::new(0, 0));
    let mut e = sample_entry();
    e.received = Timestamp::new(10, 0);
    i.add_entry(&e);
    assert_eq!(i.count, 1);
    assert_eq!(i.first_date, Some(Timestamp::new(10, 0)));
    assert_eq!(i.last_date, Some(Timestamp::new(10, 0)));
    e.received = Timestamp::new(20, 0);
    i.add_entry(&e);
    e.received = Timestamp::new(15, 0);
    i.add_entry(&e);
    assert_eq!(i.count, 3);
    assert_eq!(i.first_date, Some(Timestamp::new(10, 0)));
    assert_eq!(i.last_date, Some(Timestamp::new(15, 0)));
}

#[test]
fn index_reset_forgets_entries_and_keeps_the_rest() {
    let mut i = Index::new(Timestamp::new(1, 1));
    i.add_entry(&sample_entry());
    i.close(Timestamp::new(9, 9));
    i.reset();
    assert_eq!(
        i,
        Index {
            opened: Timestamp::new(1, 1),
            closed: Some(Timestamp::new(9, 9)),
            count: 0,
            first_date: None,
            last_date: None,
        }
    );
}

#[test]
fn index_close_stamps_the_given_time() {
    let mut i = Index::new(Timestamp::new(1, 1));
    i.add_entry(&sample_entry());
    i.close(Timestamp::new(77, 5));
    assert_eq!(i.closed, Some(Timestamp::new(77, 5)));
    assert_eq!(i.count, 1);
    assert_eq!(i.opened, Timestamp::new(1, 1));
    i.close(Timestamp::new(99, 0));
    assert_eq!(i.closed, Some(Timestamp::new(99, 0)));
}

#[test]
fn index_layout_is_exact() {
    let i = Index::new(Timestamp::new(1, 2));
    let expected = vec![1, 0, 0, 0, 0, 0, 0, 0, 2, 0, 0, 0, 0, 0, 0, 0, 0, 0, 0, 0, 0, 0, 0];
    assert_eq!(i.encode(), expected);
}

#[test]
fn index_is_laid_out_as_bincode_lays_out_its_fields() {
    let i = Index {
        opened: Timestamp::new(1, 2),
        closed: Some(Timestamp::new(3, 4)),
        count: 5,
        first_date: Some(Timestamp::new(-6, 7)),
        last_date: None,
    };
    let fields = ((1i64, 2u32), Some((3i64, 4u32)), 5u64, Some((-6i64, 7u32)), None::<(i64, u32)>);
    assert_eq!(i.encode(), bincode::serialize(&fields).unwrap());
}

#[test]
fn index_round_trip() {
    let full = Index {
        opened: Timestamp::new(i64::MIN, u32::MAX),
        closed: Some(Timestamp::new(3, 4)),
        count: usize::MAX,
        first_date: Some(Timestamp::new(-6, 7)),
        last_date: Some(Timestamp::new(i64::MAX, 0)),
    };
    let mut bytes = full.encode();
    assert_eq!(bytes.len(), 59);
    bytes.extend_from_slice(&[0xaa; 10]);
    assert_eq!(Index::decode(&bytes), Ok((full, 59)));

    let bare = Index::new(Timestamp::new(0, 0));
    let bytes = bare.encode();
    assert_eq!(bytes.len(), 23);
    assert_eq!(Index::decode(&bytes), Ok((bare, 23)));
}

#[test]
fn index_that_is_cut_short_is_refused() {
    let bytes = Index::new(Timestamp::new(1, 2)).encode();
    for cut in 0..bytes.len() {
        assert_eq!(Index::decode(&bytes[..cut]), Err(Error::Decode));
    }
}

#[test]
fn settings_round_trip() {
    let s = Settings { file_max_count: 10, working_id: -3 };
    let bytes = s.save();
    assert_eq!(bytes, vec![10, 0, 0, 0, 0xfd, 0xff, 0xff, 0xff]);
    assert_eq!(bytes, bincode::serialize(&(10i32, -3i32)).unwrap());
    assert_eq!(Settings::load(Some(&bytes), 99), Ok(s));
}

#[test]
fn missing_settings_are_made_anew() {
    assert_eq!(Settings::load(None, 4), Ok(Settings { file_max_count: 4, working_id: 0 }));
}

#[test]
fn malformed_settings_are_refused() {
    assert_eq!(Settings::load(Some(&[1, 2, 3]), 4), Err(Error::Decode));
    assert_eq!(Settings::load(Some(&[1, 2, 3, 4, 5, 6, 7]), 4), Err(Error::Decode));
}

#[test]
fn every_error_has_its_message() {
    assert_eq!(Error::NotATowlFile.message(), "Not a towl log file. Magic error.");
    assert_eq!(Error::AlreadyExists.message(), "Log file have already exist.");
    assert_eq!(Error::Decode.message(), "Malformed record.");
    assert_eq!(Error::NotFound.message(), "Counter record not found.");
    assert_eq!(Error::HeaderTooLarge.message(), "Header does not fit its region.");
    assert_eq!(Error::NotActive.message(), "Logger is not active.");
    assert_eq!(Error::CounterExhausted.message(), "Sequence counter is exhausted.");
    assert_eq!(Error::DateOutOfRange.message(), "Date is out of range.");
}
