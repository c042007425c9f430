use codex_launch::paths::{basename, compact_path};
use codex_launch::text::{chars_of, is_whitespace, same_text, trim_text};
use codex_launch::tui::is_control;
use codex_launch::timefmt::{format_age, format_short, parse_rfc3339, Month, Timestamp};

fn at(unix_seconds: i64, nanosecond: u32) -> Timestamp {
    Timestamp { unix_seconds, nanosecond, month: Month::January, day: 1, hour: 0, minute: 0 }
}

#[test]
fn trim_removes_white_space_at_both_ends() {
    assert_eq!(trim_text("  \t hello world \n"), "hello world");
    assert_eq!(trim_text("\u{a0}x\u{3000}"), "x");
    assert_eq!(trim_text("   "), "");
    assert_eq!(trim_text(""), "");
    assert_eq!(trim_text("a  b"), "a  b");
}

#[test]
fn chars_of_keeps_every_character() {
    assert_eq!(chars_of("a…b"), vec!['a', '…', 'b']);
    assert!(same_text("héllo", "héllo"));
    assert!(!same_text("hello", "hellO"));
    assert!(!same_text("hello", "hello "));
}

#[test]
fn basename_is_the_final_component() {
    assert_eq!(basename("/home/u/projects/demo"), "demo");
    assert_eq!(basename("/home/u/projects/demo/"), "demo");
    assert_eq!(basename("relative/dir"), "dir");
    assert_eq!(basename("/"), "/");
    assert_eq!(basename("/a/.."), "/a/..");
}

#[test]
fn compact_path_elides_home() {
    assert_eq!(compact_path("/home/u/projects/x", 56, Some("/home/u")), "~/projects/x");
    assert_eq!(compact_path("/home/u", 56, Some("/home/u")), "~");
    assert_eq!(compact_path("/home/user2/x", 56, Some("/home/u")), "/home/user2/x");
    assert_eq!(compact_path("/home/u/projects/x", 56, None), "/home/u/projects/x");
}

#[test]
fn compact_path_keeps_the_tail() {
    assert_eq!(compact_path("/a/very/long/path/name/here", 10, None), "…me/here");
    assert_eq!(compact_path("/a/very/long/path/name/here", 27, None), "/a/very/long/path/name/here");
    assert_eq!(compact_path("/a/very/long/path/name/here", 26, None), "…ery/long/path/name/here");
    assert_eq!(compact_path("abcdef", 3, None), "…");
    assert_eq!(compact_path("abcdef", 0, None), "…");
    assert_eq!(compact_path("/home/u/abcdefghij", 8, Some("/home/u")), "…fghij");
}

#[test]
fn parses_rfc3339_with_its_fields() {
    let t = parse_rfc3339("2026-01-19T15:21:26.203Z").unwrap();
    assert_eq!(t.unix_seconds, 1768836086);
    assert_eq!(t.nanosecond, 203_000_000);
    assert_eq!(t.month, Month::January);
    assert_eq!(t.day, 19);
    assert_eq!(t.hour, 15);
    assert_eq!(t.minute, 21);
}

#[test]
fn parses_rfc3339_in_its_own_offset() {
    let t = parse_rfc3339("2026-01-20T00:06:00+02:00").unwrap();
    assert_eq!(t.unix_seconds, 1768860360);
    assert_eq!(t.day, 20);
    assert_eq!(t.hour, 0);
    assert_eq!(t.minute, 6);
    assert_eq!(format_short(t), "Jan20 00:06");
}

#[test]
fn rejects_what_is_no_rfc3339() {
    assert!(parse_rfc3339("").is_none());
    assert!(parse_rfc3339("2026-01-19").is_none());
    assert!(parse_rfc3339("yesterday").is_none());
    assert!(parse_rfc3339("2026-13-19T15:21:26Z").is_none());
}

#[test]
fn format_short_names_every_month() {
    let names = [
        "Jan", "Feb", "Mar", "Apr", "May", "Jun", "Jul", "Aug", "Sep", "Oct", "Nov", "Dec",
    ];
    for (i, name) in names.iter().enumerate() {
        let text = format!("2025-{:02}-03T04:05:06Z", i + 1);
        let t = parse_rfc3339(&text).unwrap();
        assert_eq!(Month::from_number((i + 1) as u8), Some(t.month));
        assert_eq!(format_short(t), format!("{}03 04:05", name));
    }
    assert_eq!(Month::from_number(0), None);
    assert_eq!(Month::from_number(13), None);
}

#[test]
fn format_age_picks_the_coarsest_unit() {
    let dt = at(1_000_000, 0);
    let after = |secs: i64| at(1_000_000 + secs, 0);
    assert_eq!(format_age(dt, after(0)), "now");
    assert_eq!(format_age(dt, after(59)), "now");
    assert_eq!(format_age(dt, after(60)), "1m");
    assert_eq!(format_age(dt, after(3599)), "59m");
    assert_eq!(format_age(dt, after(3600)), "1h");
    assert_eq!(format_age(dt, after(86_399)), "23h");
    assert_eq!(format_age(dt, after(86_400)), "1d");
    assert_eq!(format_age(dt, after(13 * 86_400 + 86_399)), "13d");
    assert_eq!(format_age(dt, after(14 * 86_400)), "2w");
    assert_eq!(format_age(dt, after(363 * 86_400)), "51w");
    assert_eq!(format_age(dt, after(364 * 86_400)), "1y");
    assert_eq!(format_age(dt, after(10 * 364 * 86_400)), "10y");
}

#[test]
fn format_age_of_the_future_is_now() {
    let dt = at(1_000_000, 0);
    assert_eq!(format_age(dt, at(999_000, 0)), "now");
    assert_eq!(format_age(dt, at(i64::MIN, 0)), "now");
}

#[test]
fn format_age_counts_whole_seconds() {
    assert_eq!(format_age(at(100, 900_000_000), at(160, 100_000_000)), "now");
    assert_eq!(format_age(at(100, 900_000_000), at(160, 900_000_000)), "1m");
    assert_eq!(format_age(at(i64::MIN, 0), at(i64::MAX, 999_999_999)), "586549402018y");
}

#[test]
fn white_space_is_what_unicode_says() {
    for n in 0..=0x10FFFFu32 {
        if let Some(c) = char::from_u32(n) {
            assert_eq!(is_whitespace(c), c.is_whitespace(), "U+{:04X}", n);
        }
    }
}

#[test]
fn control_codes_are_what_unicode_says() {
    for n in 0..=0x10FFFFu32 {
        if let Some(c) = char::from_u32(n) {
            assert_eq!(is_control(c), c.is_control(), "U+{:04X}", n);
        }
    }
}
