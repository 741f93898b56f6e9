use ken_core::dates::{days_from_civil, parse_i64, parse_iso_date};
use ken_core::memory::{due_for_archive, ARCHIVE_AFTER_DAYS};

fn chars(s: &str) -> Vec<char> {
    s.chars().collect()
}

#[test]
fn day_counts_start_at_the_epoch() {
    assert_eq!(days_from_civil(1970, 1, 1), 0);
    assert_eq!(days_from_civil(1970, 1, 2), 1);
    assert_eq!(days_from_civil(1969, 12, 31), -1);
    assert_eq!(days_from_civil(2000, 3, 1), 11017);
    assert_eq!(days_from_civil(0, 3, 1), -719468);
    // Leap day of a year divisible by 400, and the day after.
    assert_eq!(days_from_civil(2000, 3, 1) - days_from_civil(2000, 2, 28), 2);
    // 1900 is no leap year.
    assert_eq!(days_from_civil(1900, 3, 1) - days_from_civil(1900, 2, 28), 1);
    // Years before the era start round down, not toward zero.
    assert_eq!(days_from_civil(-1, 12, 31) - days_from_civil(-1, 12, 30), 1);
    assert_eq!(days_from_civil(0, 1, 1) - days_from_civil(-1, 12, 31), 1);
}

#[test]
fn huge_years_do_not_overflow() {
    let a = days_from_civil(i64::MAX, 12, 31);
    let b = days_from_civil(i64::MIN, 1, 1);
    assert!(a > 0 && b < 0);
}

#[test]
fn integers_parse_as_std_does() {
    assert_eq!(parse_i64(&chars("2026")), Some(2026));
    assert_eq!(parse_i64(&chars("+7")), Some(7));
    assert_eq!(parse_i64(&chars("-5")), Some(-5));
    assert_eq!(parse_i64(&chars("9223372036854775807")), Some(i64::MAX));
    assert_eq!(parse_i64(&chars("-9223372036854775808")), Some(i64::MIN));
    assert_eq!(parse_i64(&chars("9223372036854775808")), None);
    assert_eq!(parse_i64(&chars("")), None);
    assert_eq!(parse_i64(&chars("-")), None);
    assert_eq!(parse_i64(&chars("1a")), None);
    assert_eq!(parse_i64(&chars(" 1")), None);
}

#[test]
fn iso_dates_are_strict() {
    assert_eq!(parse_iso_date("1970-01-01"), Some(0));
    assert_eq!(parse_iso_date("2026-08-01").unwrap() - parse_iso_date("2026-07-01").unwrap(), 31);
    assert_eq!(parse_iso_date("+2026-+07-+01"), parse_iso_date("2026-07-01"));
    assert_eq!(parse_iso_date("2026-13-01"), None);
    assert_eq!(parse_iso_date("2026-00-01"), None);
    assert_eq!(parse_iso_date("2026-07-32"), None);
    assert_eq!(parse_iso_date("2026-07"), None);
    assert_eq!(parse_iso_date("2026-07-01-x"), None);
    assert_eq!(parse_iso_date("abcd-01-01"), None);
    assert_eq!(parse_iso_date("-5-01-01"), None);
    assert_eq!(parse_iso_date(""), None);
}

fn names(v: &[&str]) -> Vec<String> {
    v.iter().map(|s| s.to_string()).collect()
}

#[test]
fn archive_takes_only_files_older_than_the_limit() {
    assert_eq!(ARCHIVE_AFTER_DAYS, 30);
    let all = names(&["2026-07-01.md", "2026-07-02.md", "2026-07-31.md"]);
    // 31 days old goes; exactly 30 days and 1 day stay.
    assert_eq!(due_for_archive("2026-08-01", &all), Some(names(&["2026-07-01.md"])));
}

#[test]
fn archive_skips_undated_names_and_keeps_order() {
    let all = names(&["2026-01-01.md", "notes.md", "2026-01-02.txt", "2025-12-01.md", "2026-02-30.md"]);
    assert_eq!(
        due_for_archive("2026-08-01", &all),
        Some(names(&["2026-01-01.md", "2025-12-01.md", "2026-02-30.md"]))
    );
    assert_eq!(due_for_archive("2026-08-01", &[]), Some(Vec::new()));
}

#[test]
fn archive_refuses_an_invalid_today() {
    assert_eq!(due_for_archive("yesterday", &names(&["2026-01-01.md"])), None);
    assert_eq!(due_for_archive("2026-13-01", &[]), None);
}

#[test]
fn a_second_archive_roll_moves_nothing() {
    let all = names(&["2026-01-01.md", "2026-07-31.md", "notes.md", "2025-06-30.md"]);
    let moved = due_for_archive("2026-08-01", &all).unwrap();
    assert_eq!(moved, names(&["2026-01-01.md", "2025-06-30.md"]));
    let rest: Vec<String> = all.into_iter().filter(|n| !moved.contains(n)).collect();
    assert_eq!(due_for_archive("2026-08-01", &rest), Some(Vec::new()));
}
