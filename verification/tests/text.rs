//! Cuts, searches and numbers.
use mg_streamr::number::{
    pad_left, pad_right, read_i32, read_millis, read_u32, write_number, write_seconds,
    write_signed,
};
use mg_streamr::text::{
    characters, has_prefix, holds, last_piece, lowercase, not_after, same, split_first, split_last,
    strip, trim_end, without_query,
};

#[test]
fn texts_are_cut_where_they_should_be() {
    let two = |a: &str, b: &str| Some((a.to_string(), b.to_string()));
    assert_eq!(split_first("a: b: c", ": "), two("a", "b: c"));
    assert_eq!(split_first("abc", ": "), None);
    assert_eq!(split_last("a/b/c", '/'), two("a/b", "c"));
    assert_eq!(split_last("abc", '/'), None);
    assert_eq!(strip("OK MPD 1", "OK MPD ").as_deref(), Some("1"));
    assert_eq!(strip("OK", "OK MPD "), None);
    assert_eq!(last_piece("a/b", '/'), "b");
    assert_eq!(without_query("a/b?c#d"), "a/b");
    assert_eq!(trim_end("a//", '/'), "a");
}

#[test]
fn texts_are_compared_and_searched() {
    assert!(same("\u{e9}", "\u{e9}") && !same("a", "ab"));
    assert!(has_prefix("https://x", "https://") && !has_prefix("http", "https"));
    assert!(holds("a..b", "..") && !holds("a.b", ".."));
    assert!(not_after("a", "a") && not_after("a", "b") && !not_after("b", "a"));
    assert!(not_after("a", "ab") && !not_after("ab", "a"));
    assert_eq!(lowercase("A\u{c9}z"), "a\u{c9}z");
    assert_eq!(characters("a\u{e9}"), ['a', '\u{e9}']);
}

#[test]
fn numbers_are_written_and_read() {
    assert_eq!(write_number(0), "0");
    assert_eq!(write_number(u64::MAX), "18446744073709551615");
    assert_eq!(write_signed(i64::MIN), "-9223372036854775808");
    assert_eq!(pad_left("7", 3, ' '), "  7");
    assert_eq!(pad_right("ab", 3, '.'), "ab.");
    assert_eq!(read_u32("4294967295"), Some(u32::MAX));
    assert_eq!(read_u32("4294967296"), None);
    assert_eq!(read_u32("+5"), Some(5));
    assert_eq!(read_u32("-5"), None);
    assert_eq!(read_i32("-2147483648"), Some(i32::MIN));
    assert_eq!(read_i32(""), None);
}

#[test]
fn times_are_read_to_the_millisecond() {
    assert_eq!(read_millis("12.5"), Some(12_500));
    assert_eq!(read_millis("-0.0014"), Some(-1));
    assert_eq!(read_millis("1.5e2"), Some(150_000));
    assert_eq!(read_millis("5e-1"), Some(500));
    assert_eq!(read_millis("+.25"), Some(250));
    assert_eq!(read_millis("1."), Some(1_000));
    assert_eq!(read_millis("."), None);
    assert_eq!(read_millis("inf"), None);
    assert_eq!(read_millis("1e400"), None);
    assert_eq!(read_millis("1x"), None);
}

#[test]
fn seconds_are_written_with_three_places() {
    assert_eq!(write_seconds(600_000), "600.000");
    assert_eq!(write_seconds(5), "0.005");
    assert_eq!(write_seconds(90_120), "90.120");
    assert_eq!(read_millis("90.120"), Some(90_120));
}
