use towl::header::Header;
use towl::names::{archive_name, log_name, push_decimal};
use towl::time::Date;

#[test]
fn decimal_is_what_display_prints() {
    for n in [0u64, 1, 9, 10, 11, 99, 100, 101, 1234567890, u64::MAX] {
        let mut out = String::new();
        push_decimal(&mut out, n);
        assert_eq!(out, n.to_string());
    }
}

#[test]
fn decimal_is_appended() {
    let mut out = "id=".to_string();
    push_decimal(&mut out, 42);
    push_decimal(&mut out, 0);
    assert_eq!(out, "id=420");
}

#[test]
fn log_name_is_the_identity_with_its_extension() {
    assert_eq!(log_name(0), "0.towl");
    assert_eq!(log_name(17), "17.towl");
    assert_eq!(log_name(1000), "1000.towl");
}

#[test]
fn archive_name_is_names_day_and_identity() {
    let header = Header::new("gz".to_string(), "log".to_string(), 3);
    let date = Date { year: 2024, month: 2, day: 9 };
    assert_eq!(archive_name(&header, date), "gz_log_2024_2_9_3.twl");
    let date = Date { year: 1999, month: 12, day: 31 };
    assert_eq!(archive_name(&header, date), "gz_log_1999_12_31_3.twl");
}

#[test]
fn archive_name_takes_the_names_as_they_are() {
    let header = Header::new("a_b".to_string(), String::new(), 0);
    let date = Date { year: 1, month: 1, day: 1 };
    assert_eq!(archive_name(&header, date), "a_b__1_1_1_0.twl");
}
