use towl::codec::{
    put_i32, put_i64, put_text, put_u32, put_u64, put_usize, take_i32, take_i64, take_text,
    take_u32, take_u64, take_usize,
};
use towl::time::{
    put_opt_timestamp, put_timestamp, take_opt_timestamp, take_timestamp, Timestamp,
};

#[test]
fn u64_is_eight_bytes_little_endian() {
    let mut out = Vec::new();
    put_u64(&mut out, 0x0102_0304_0506_0708);
    assert_eq!(out, vec![8, 7, 6, 5, 4, 3, 2, 1]);
    assert_eq!(take_u64(&out, 0), Some((0x0102_0304_0506_0708, 8)));
}

#[test]
fn u32_is_four_bytes_little_endian() {
    let mut out = vec![0xff];
    put_u32(&mut out, 0xdead_beef);
    assert_eq!(out, vec![0xff, 0xef, 0xbe, 0xad, 0xde]);
    assert_eq!(take_u32(&out, 1), Some((0xdead_beef, 5)));
}

#[test]
fn signed_integers_are_twos_complement() {
    let mut out = Vec::new();
    put_i64(&mut out, -1);
    assert_eq!(out, vec![0xff; 8]);
    assert_eq!(take_i64(&out, 0), Some((-1, 8)));

    let mut out = Vec::new();
    put_i64(&mut out, i64::MIN);
    assert_eq!(out, vec![0, 0, 0, 0, 0, 0, 0, 0x80]);
    assert_eq!(take_i64(&out, 0), Some((i64::MIN, 8)));

    let mut out = Vec::new();
    put_i32(&mut out, -2);
    assert_eq!(out, vec![0xfe, 0xff, 0xff, 0xff]);
    assert_eq!(take_i32(&out, 0), Some((-2, 4)));

    let mut out = Vec::new();
    put_i32(&mut out, i32::MAX);
    assert_eq!(out, vec![0xff, 0xff, 0xff, 0x7f]);
    assert_eq!(take_i32(&out, 0), Some((i32::MAX, 4)));
}

#[test]
fn integers_round_trip_at_their_limits() {
    for v in [0u64, 1, 255, 256, u64::MAX] {
        let mut out = Vec::new();
        put_u64(&mut out, v);
        assert_eq!(take_u64(&out, 0), Some((v, 8)));
    }
    for v in [i64::MIN, -1, 0, 1, i64::MAX] {
        let mut out = Vec::new();
        put_i64(&mut out, v);
        assert_eq!(take_i64(&out, 0), Some((v, 8)));
    }
    for v in [i32::MIN, -1, 0, 1, i32::MAX] {
        let mut out = Vec::new();
        put_i32(&mut out, v);
        assert_eq!(take_i32(&out, 0), Some((v, 4)));
    }
    for v in [0usize, 7, usize::MAX] {
        let mut out = Vec::new();
        put_usize(&mut out, v);
        assert_eq!(out.len(), 8);
        assert_eq!(take_usize(&out, 0), Some((v, 8)));
    }
}

#[test]
fn short_input_is_no_integer() {
    assert_eq!(take_u64(&[1, 2, 3, 4, 5, 6, 7], 0), None);
    assert_eq!(take_u64(&[1, 2, 3, 4, 5, 6, 7, 8], 1), None);
    assert_eq!(take_u32(&[1, 2, 3], 0), None);
    assert_eq!(take_i64(&[], 0), None);
    assert_eq!(take_i32(&[0, 0, 0, 0], 4), None);
    assert_eq!(take_usize(&[0; 7], 0), None);
}

#[test]
fn text_is_length_then_utf8() {
    let mut out = Vec::new();
    put_text(&mut out, "hé");
    assert_eq!(out, vec![3, 0, 0, 0, 0, 0, 0, 0, b'h', 0xc3, 0xa9]);
    assert_eq!(take_text(&out, 0), Some(("hé".to_string(), 11)));
}

#[test]
fn empty_text_is_its_prefix_alone() {
    let mut out = Vec::new();
    put_text(&mut out, "");
    assert_eq!(out, vec![0; 8]);
    assert_eq!(take_text(&out, 0), Some((String::new(), 8)));
}

#[test]
fn text_reads_a_prefix_and_leaves_the_rest() {
    let mut out = Vec::new();
    put_text(&mut out, "ab");
    put_text(&mut out, "cde");
    let (first, next) = take_text(&out, 0).unwrap();
    assert_eq!(first, "ab");
    assert_eq!(next, 10);
    assert_eq!(take_text(&out, next), Some(("cde".to_string(), 21)));
}

#[test]
fn text_that_is_cut_short_is_refused() {
    let mut out = Vec::new();
    put_text(&mut out, "hello");
    out.pop();
    assert_eq!(take_text(&out, 0), None);
}

#[test]
fn text_that_is_not_utf8_is_refused() {
    let bytes = vec![2, 0, 0, 0, 0, 0, 0, 0, 0xff, 0xfe];
    assert_eq!(take_text(&bytes, 0), None);
    let cut = vec![1, 0, 0, 0, 0, 0, 0, 0, 0xc3];
    assert_eq!(take_text(&cut, 0), None);
}

#[test]
fn text_with_a_length_beyond_the_input_is_refused() {
    let bytes = vec![0xff; 8];
    assert_eq!(take_text(&bytes, 0), None);
}

#[test]
fn timestamp_is_seconds_then_nanoseconds() {
    let mut out = Vec::new();
    put_timestamp(&mut out, &Timestamp::new(1, 2));
    assert_eq!(out, vec![1, 0, 0, 0, 0, 0, 0, 0, 2, 0, 0, 0]);
    assert_eq!(take_timestamp(&out, 0), Some((Timestamp::new(1, 2), 12)));
    assert_eq!(take_timestamp(&out[..11], 0), None);
}

#[test]
fn optional_timestamp_has_a_tag() {
    let mut out = Vec::new();
    put_opt_timestamp(&mut out, &None);
    assert_eq!(out, vec![0]);
    assert_eq!(take_opt_timestamp(&out, 0), Some((None, 1)));

    let mut out = Vec::new();
    put_opt_timestamp(&mut out, &Some(Timestamp::new(-1, 7)));
    assert_eq!(out, vec![1, 0xff, 0xff, 0xff, 0xff, 0xff, 0xff, 0xff, 0xff, 7, 0, 0, 0]);
    assert_eq!(take_opt_timestamp(&out, 0), Some((Some(Timestamp::new(-1, 7)), 13)));
}

#[test]
fn optional_timestamp_with_another_tag_is_refused() {
    let mut bytes = vec![2];
    bytes.extend_from_slice(&[0; 12]);
    assert_eq!(take_opt_timestamp(&bytes, 0), None);
    assert_eq!(take_opt_timestamp(&[], 0), None);
    assert_eq!(take_opt_timestamp(&[1, 0, 0], 0), None);
}

#[test]
fn scalars_are_laid_out_as_bincode_lays_them_out() {
    let mut out = Vec::new();
    put_u64(&mut out, 77);
    assert_eq!(out, bincode::serialize(&77u64).unwrap());

    let mut out = Vec::new();
    put_i64(&mut out, -1234567890123);
    assert_eq!(out, bincode::serialize(&-1234567890123i64).unwrap());

    let mut out = Vec::new();
    put_i32(&mut out, -5);
    assert_eq!(out, bincode::serialize(&-5i32).unwrap());

    let mut out = Vec::new();
    put_usize(&mut out, 99);
    assert_eq!(out, bincode::serialize(&99usize).unwrap());

    let mut out = Vec::new();
    put_text(&mut out, "grüße");
    assert_eq!(out, bincode::serialize("grüße").unwrap());

    let mut out = Vec::new();
    put_opt_timestamp(&mut out, &Some(Timestamp::new(5, 6)));
    assert_eq!(out, bincode::serialize(&Some((5i64, 6u32))).unwrap());

    let mut out = Vec::new();
    put_opt_timestamp(&mut out, &None);
    assert_eq!(out, bincode::serialize(&None::<(i64, u32)>).unwrap());
}

#[test]
fn a_position_beyond_the_input_reads_nothing() {
    let bytes = [0u8; 16];
    assert_eq!(take_u64(&bytes, 17), None);
    assert_eq!(take_u32(&bytes, 17), None);
    assert_eq!(take_i64(&bytes, usize::MAX), None);
    assert_eq!(take_i32(&bytes, 100), None);
    assert_eq!(take_usize(&bytes, 17), None);
    assert_eq!(take_text(&bytes, 17), None);
    assert_eq!(take_timestamp(&bytes, 17), None);
    assert_eq!(take_opt_timestamp(&bytes, 17), None);
    assert_eq!(take_u64(&bytes, 16), None);
    assert_eq!(take_text(&bytes, 8), Some((String::new(), 16)));
}
