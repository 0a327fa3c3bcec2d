use sip::guest::{add, start, Guest};
use sip::logging::{decimal_string, log_file_path, record_origin};

#[test]
fn starting_sets_the_mark() {
    let mut guest = Guest::new();
    assert_eq!(guest.init, 0);
    start(&mut guest);
    assert_eq!(guest.init, 1);
    start(&mut guest);
    assert_eq!(guest.init, 1);
}

#[test]
fn sums_are_exact() {
    assert_eq!(add(2, 3), 5);
    assert_eq!(add(i32::MAX, -1), i32::MAX - 1);
    assert_eq!(add(i32::MIN, 0), i32::MIN);
}

#[test]
fn the_answer_counts_down_from_twelve() {
    assert_eq!(sip::guest::test(0, 0), 12);
    assert_eq!(sip::guest::test(3, 1), 5);
    assert_eq!(sip::guest::test(-5, 30), -8);
}

#[test]
fn log_files_stand_among_the_logs() {
    assert_eq!(log_file_path("run.log"), "tests/logs/run.log");
    assert_eq!(log_file_path(""), "tests/logs/");
}

#[test]
fn log_records_name_file_and_line() {
    assert_eq!(record_origin("src/main.rs", 1907), "src/main.rs:1907");
    assert_eq!(record_origin("", 0), ":0");
    assert_eq!(decimal_string(u32::MAX), "4294967295");
}
