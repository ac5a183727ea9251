use githist::commits::parse_git_log_with_stats;
use githist::text::{
    parse_usize, split_char, split_lines, split_once_whitespace, split_whitespace_vec,
    str_contains_char, str_contains_ci, trim_str,
};
use githist::timestamp::{day_name, diff_days, gap_days, parse_timestamp, weekday_exec, Timestamp};

#[test]
fn split_char_keeps_empty_pieces() {
    let pieces = split_char("a|b||c", '|');
    assert_eq!(pieces.len(), 4);
    assert_eq!(pieces[0], "a");
    assert_eq!(pieces[1], "b");
    assert_eq!(pieces[2], "");
    assert_eq!(pieces[3], "c");
    let single = split_char("", '|');
    assert_eq!(single.len(), 1);
    assert_eq!(single[0], "");
}

#[test]
fn split_lines_matches_str_lines() {
    let lines = split_lines("one\ntwo\r\nthree\n");
    assert_eq!(lines, vec!["one".to_string(), "two".to_string(), "three".to_string()]);
    let empty = split_lines("");
    assert_eq!(empty.len(), 0);
    let lone = split_lines("\n");
    assert_eq!(lone, vec!["".to_string()]);
}

#[test]
fn split_whitespace_drops_empties() {
    let toks = split_whitespace_vec("  3\t14  src/a.rs ");
    assert_eq!(toks, vec!["3".to_string(), "14".to_string(), "src/a.rs".to_string()]);
    assert_eq!(split_whitespace_vec("   ").len(), 0);
}

#[test]
fn split_once_whitespace_splits_at_first() {
    let r = split_once_whitespace("1 2 3").unwrap();
    assert_eq!(r.0, "1");
    assert_eq!(r.1, "2 3");
    assert!(split_once_whitespace("abc").is_none());
}

#[test]
fn trim_removes_both_ends() {
    assert_eq!(trim_str("  main \t\n"), "main");
    assert_eq!(trim_str(""), "");
    assert_eq!(trim_str("   "), "");
}

#[test]
fn parse_usize_matches_std() {
    assert_eq!(parse_usize("0"), Some(0));
    assert_eq!(parse_usize("42"), Some(42));
    assert_eq!(parse_usize("+7"), Some(7));
    assert_eq!(parse_usize(""), None);
    assert_eq!(parse_usize("-"), None);
    assert_eq!(parse_usize("12a"), None);
    assert_eq!(parse_usize("18446744073709551615"), Some(usize::MAX));
    assert_eq!(parse_usize("18446744073709551616"), None);
}

#[test]
fn contains_helpers() {
    assert!(str_contains_char("a|b", '|'));
    assert!(!str_contains_char("ab", '|'));
    assert!(str_contains_ci("Breaking: redesign auth flow", "breaking"));
    assert!(str_contains_ci("MAJOR rework", "major"));
    assert!(!str_contains_ci("minor tweak", "breaking"));
}

#[test]
fn timestamp_parses_expected_shape() {
    let t = parse_timestamp("2023-10-27 10:00:00 +0000").unwrap();
    assert_eq!(t.year, 2023);
    assert_eq!(t.month, 10);
    assert_eq!(t.day, 27);
    assert_eq!(t.hour, 10);
    assert!(parse_timestamp("2023-10-27").is_none());
    assert!(parse_timestamp("2023-13-01 00:00:00").is_none());
    assert!(parse_timestamp("2023-02-29 00:00:00").is_none());
    assert!(parse_timestamp("2024-02-29 00:00:00").is_some());
    assert!(parse_timestamp("not a date").is_none());
}

#[test]
fn weekday_and_names() {
    // 2023-10-27 was a Friday, 2025-01-01 a Wednesday, 2000-02-29 a Tuesday.
    let fri = parse_timestamp("2023-10-27 10:00:00 +0200").unwrap();
    assert_eq!(day_name(weekday_exec(&fri)), "Friday");
    let wed = parse_timestamp("2025-01-01 00:00:00").unwrap();
    assert_eq!(day_name(weekday_exec(&wed)), "Wednesday");
    let tue = parse_timestamp("2000-02-29 23:59:59").unwrap();
    assert_eq!(day_name(weekday_exec(&tue)), "Tuesday");
}

#[test]
fn day_differences_truncate_toward_zero() {
    let a = Timestamp { year: 2020, month: 1, day: 2, hour: 1, minute: 0, second: 0 };
    let b = Timestamp { year: 2020, month: 1, day: 1, hour: 23, minute: 0, second: 0 };
    // two hours apart: zero whole days, either way round
    assert_eq!(diff_days(&a, &b), 0);
    assert_eq!(diff_days(&b, &a), 0);
    let c = Timestamp { year: 2020, month: 1, day: 11, hour: 0, minute: 0, second: 0 };
    assert_eq!(diff_days(&c, &b), 9);
    assert_eq!(diff_days(&b, &c), -9);
    assert_eq!(gap_days(&b, &c), 9);
    assert_eq!(gap_days(&c, &b), 9);
}

#[test]
fn log_parser_accumulates_stat_lines() {
    // one header and three numeric stat lines
    let log = "abc123|Ada|ada@example.com|2024-05-01 09:00:00 +0000|Add parser\n\
               10\t2\tsrc/parse.rs\n\
               3\t1\tsrc/lib.rs\n\
               7\t0\tREADME.md\n";
    let commits = parse_git_log_with_stats(log);
    assert_eq!(commits.len(), 1);
    let c = &commits[0];
    assert_eq!(c.hash, "abc123");
    assert_eq!(c.author, "Ada");
    assert_eq!(c.email, "ada@example.com");
    assert_eq!(c.files_changed, 3);
    assert_eq!(c.insertions, 20);
    assert_eq!(c.deletions, 3);
}

#[test]
fn log_parser_skips_binary_marker() {
    let log = "abc123|Ada|ada@example.com|2024-05-01 09:00:00 +0000|Add image\n\
               -\t-\tassets/logo.png\n\
               4\t1\tsrc/lib.rs\n";
    let commits = parse_git_log_with_stats(log);
    assert_eq!(commits.len(), 1);
    assert_eq!(commits[0].files_changed, 1);
    assert_eq!(commits[0].insertions, 4);
    assert_eq!(commits[0].deletions, 1);
}

#[test]
fn log_parser_keeps_pipes_in_subject() {
    let log = "h1|A|a@x|2024-05-01 09:00:00 +0000|fix: a|b|c\n";
    let commits = parse_git_log_with_stats(log);
    assert_eq!(commits.len(), 1);
    assert_eq!(commits[0].message, "fix: a|b|c");
}

#[test]
fn log_parser_drops_malformed_headers_and_orphan_stats() {
    // a numeric-looking line before any header is discarded, and a header
    // with fewer than five fields opens no commit
    let log = "5\t5\tearly.rs\nbadheader|only|three\n1\t1\tignored.rs\n";
    let commits = parse_git_log_with_stats(log);
    assert_eq!(commits.len(), 0);
}

#[test]
fn log_parser_framing_drops_digit_leading_hash() {
    // a header whose hash begins with a digit fails the framing heuristic
    // and is consumed as a stat line of the previous commit
    let log = "abc|Ada|a@x|2024-05-01 09:00:00 +0000|first\n\
               9def|Bob|b@x|2024-05-02 09:00:00 +0000|second\n";
    let commits = parse_git_log_with_stats(log);
    assert_eq!(commits.len(), 1);
    assert_eq!(commits[0].hash, "abc");
}
