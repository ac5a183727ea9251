use githist::branches::{get_branch_analysis, is_branch_active, parse_branch_info};
use githist::contributors::{analyze_contributor, count_contributor_commits};
use githist::decisions::{
    decision_keywords, find_architectural_decisions, parse_architectural_decision,
};
use githist::history::get_commit_history;
use githist::releases::{analyze_release_patterns, classify_release_frequency, parse_tag_info};
use githist::repoinfo::get_repository_info;
use githist::timestamp::Timestamp;

fn noon(year: u16, month: u8, day: u8) -> Timestamp {
    Timestamp { year, month, day, hour: 12, minute: 0, second: 0 }
}

#[test]
fn branch_line_parses_with_defaults() {
    let b = parse_branch_info("feature/x | 2024-04-20 10:00:00 +0000 | 3 7").unwrap();
    assert_eq!(b.name, "feature/x");
    assert_eq!(b.last_commit_date, "2024-04-20 10:00:00 +0000");
    assert_eq!(b.commits_ahead, 3);
    assert_eq!(b.commits_behind, 7);
    assert!(!b.is_merged);
    // unparseable counts default to zero instead of failing the line
    let d = parse_branch_info("main|2024-04-20 10:00:00|? ?").unwrap();
    assert_eq!(d.commits_ahead, 0);
    assert_eq!(d.commits_behind, 0);
    assert!(parse_branch_info("name|missing-field").is_none());
}

#[test]
fn branch_activity_uses_thirty_day_window() {
    let now = noon(2024, 6, 1);
    assert!(is_branch_active("2024-05-15 08:00:00 +0000", 30, &now));
    assert!(!is_branch_active("2024-04-20 08:00:00 +0000", 30, &now));
    assert!(!is_branch_active("no date here", 30, &now));
}

#[test]
fn branch_analysis_splits_active_and_stale() {
    let now = noon(2024, 6, 1);
    let listing = "main|2024-05-30 10:00:00 +0000|0 0\n\
                   feature/x|2024-04-20 10:00:00 +0000|2 5\n";
    let a = get_branch_analysis(listing, &now);
    assert_eq!(a.total_branches, 2);
    assert_eq!(a.active_branches.len(), 1);
    assert_eq!(a.active_branches[0].name, "main");
    assert_eq!(a.stale_branches.len(), 1);
    assert_eq!(a.stale_branches[0].name, "feature/x");
    assert_eq!(a.merged_branches_count, 0);
}

#[test]
fn contributors_merge_on_email() {
    // two different display names share one email: exactly one record
    let log = "Ada Lovelace|ada@example.com\n\
               A. Lovelace|ada@example.com\n\
               Bob|bob@example.com\n";
    let counts = count_contributor_commits(log);
    assert_eq!(counts.len(), 2);
    assert_eq!(counts[0].email, "ada@example.com");
    assert_eq!(counts[0].name, "Ada Lovelace"); // first-seen name wins
    assert_eq!(counts[0].commits, 2);
    assert_eq!(counts[1].email, "bob@example.com");
    assert_eq!(counts[1].commits, 1);
}

#[test]
fn contributor_stats_accumulate() {
    // newest-first log: date lines mark activity, stat lines accumulate
    let stats = "2024-05-20 10:00:00 +0000\n\
                 12\t3\tsrc/a.rs\n\
                 5\t1\tsrc/b.rs\n\
                 2024-05-01 09:00:00 +0000\n\
                 3\t0\tsrc/a.rs\n";
    let c = analyze_contributor(stats, "Ada", "ada@example.com", 2);
    assert_eq!(c.name, "Ada");
    assert_eq!(c.email, "ada@example.com");
    assert_eq!(c.total_commits, 2);
    assert_eq!(c.lines_added, 20);
    assert_eq!(c.lines_deleted, 4);
    assert_eq!(c.files_modified, 3);
    assert_eq!(c.last_commit_date, "2024-05-20 10:00:00 +0000");
    assert_eq!(c.first_commit_date, "2024-05-01 09:00:00 +0000");
    // impact = commits*10 + added*0.1 + files*0.5, kept in tenths:
    // 2*100 + 20 + 3*5 = 235 tenths, i.e. a score of 23.5
    assert_eq!(c.impact_score_tenths, 235);
}

#[test]
fn decision_line_parses_with_impact() {
    let line = "abc|2024-05-01 09:00:00 +0000|Ada|Breaking: redesign auth flow";
    let d = parse_architectural_decision(line, "breaking").unwrap();
    assert_eq!(d.commit_hash, "abc");
    assert_eq!(d.decision_type, "breaking");
    assert_eq!(d.impact, "high");
    let low = parse_architectural_decision("h|d|a|minor fix of typo", "refactor").unwrap();
    assert_eq!(low.impact, "low");
    let med = parse_architectural_decision("h|d|a|redesign the cache", "redesign").unwrap();
    assert_eq!(med.impact, "medium");
    assert!(parse_architectural_decision("h|d|only-three", "refactor").is_none());
}

#[test]
fn breaking_redesign_subject_yields_two_high_records() {
    // the subject matches both the "breaking" and the "redesign" scans, so
    // the same commit appears once per keyword, both tiered high
    let line = "abc|2024-05-01 09:00:00 +0000|Ada|Breaking: redesign auth flow\n";
    let outputs = vec![
        ("refactor".to_string(), String::new()),
        ("migrate".to_string(), String::new()),
        ("architecture".to_string(), String::new()),
        ("deprecate".to_string(), String::new()),
        ("breaking".to_string(), line.to_string()),
        ("redesign".to_string(), line.to_string()),
    ];
    let ds = find_architectural_decisions(&outputs);
    assert_eq!(ds.len(), 2);
    assert_eq!(ds[0].decision_type, "breaking");
    assert_eq!(ds[0].impact, "high");
    assert_eq!(ds[1].decision_type, "redesign");
    assert_eq!(ds[1].impact, "high");
}

#[test]
fn keyword_set_is_fixed() {
    let kws = decision_keywords();
    assert_eq!(
        kws,
        vec![
            "refactor".to_string(),
            "migrate".to_string(),
            "architecture".to_string(),
            "deprecate".to_string(),
            "breaking".to_string(),
            "redesign".to_string(),
        ]
    );
}

#[test]
fn release_frequency_classes() {
    assert_eq!(classify_release_frequency(6), "Quarterly");
    assert_eq!(classify_release_frequency(51), "Weekly");
    assert_eq!(classify_release_frequency(50), "Monthly");
    assert_eq!(classify_release_frequency(21), "Monthly");
    assert_eq!(classify_release_frequency(5), "Irregular");
    assert_eq!(classify_release_frequency(0), "Irregular");
}

#[test]
fn tag_detail_parses_first_line() {
    let t = parse_tag_info("abc|2024-05-01 09:00:00 +0000|release one\nextra\n", "v1.0").unwrap();
    assert_eq!(t.name, "v1.0");
    assert_eq!(t.commit_hash, "abc");
    assert_eq!(t.date, "2024-05-01 09:00:00 +0000");
    assert_eq!(t.message, "release one");
    assert!(parse_tag_info("", "v1.0").is_none());
    assert!(parse_tag_info("two|fields\n", "v1.0").is_none());
}

#[test]
fn release_patterns_average_gaps() {
    let tags_output = "v3\nv2\nv1\n";
    let details = vec![
        ("v3".to_string(), "c3|2024-05-21 00:00:00 +0000|three\n".to_string()),
        ("v2".to_string(), "c2|2024-05-11 00:00:00 +0000|two\n".to_string()),
        ("v1".to_string(), "c1|2024-05-01 00:00:00 +0000|one\n".to_string()),
    ];
    let r = analyze_release_patterns(tags_output, &details);
    assert_eq!(r.total_tags, 3);
    assert_eq!(r.recent_tags.len(), 3);
    assert_eq!(r.release_frequency, "Irregular");
    assert_eq!(r.total_gap_days, 20);
    assert_eq!(r.gap_count, 2);
}

#[test]
fn repository_info_computes_age() {
    let info = get_repository_info(
        "/repo",
        "main\n",
        Some("https://example.com/repo.git".to_string()),
        " 3 \n",
        "2024-05-01 09:00:00 +0000\n",
        "2024-05-11 08:00:00 +0000\n",
    )
    .unwrap();
    assert_eq!(info.path, "/repo");
    assert_eq!(info.default_branch, "main");
    assert_eq!(info.total_commits, 3);
    assert_eq!(info.first_commit_date, "2024-05-01 09:00:00 +0000");
    assert_eq!(info.last_commit_date, "2024-05-11 08:00:00 +0000");
    // nine days and 23 hours: truncated to nine whole days
    assert_eq!(info.repository_age_days, 9);
    assert_eq!(info.remote_url, Some("https://example.com/repo.git".to_string()));
}

#[test]
fn repository_info_rejects_bad_scalars() {
    let bad_count = get_repository_info("/r", "main", None, "many\n", "2024-05-01 09:00:00", "2024-05-02 09:00:00");
    assert_eq!(bad_count.unwrap_err(), "Failed to parse commit count: many");
    let bad_first = get_repository_info("/r", "main", None, "3", "not a date", "2024-05-02 09:00:00");
    assert_eq!(bad_first.unwrap_err(), "Failed to parse first commit date: not a date");
    let bad_last = get_repository_info("/r", "main", None, "3", "2024-05-01 09:00:00", "nope");
    assert_eq!(bad_last.unwrap_err(), "Failed to parse last commit date: nope");
}

#[test]
fn fixture_repository_end_to_end() {
    // three commits by two emails over a ten-day window, one tag, and one
    // branch last touched about forty days before the reference time
    let now = noon(2024, 6, 1);
    let info = get_repository_info(
        "/repo",
        "main\n",
        None,
        "3\n",
        "2024-05-22 09:00:00 +0000\n",
        "2024-05-30 09:00:00 +0000\n",
    )
    .unwrap();
    assert_eq!(info.total_commits, 3);
    assert_eq!(info.remote_url, None);

    let log = "c1|Ada|ada@x|2024-05-30 09:00:00 +0000|third\n2\t1\ta.rs\n\
               c2|Bob|bob@x|2024-05-25 09:00:00 +0000|second\n1\t1\tb.rs\n\
               c3|Ada|ada@x|2024-05-22 09:00:00 +0000|first\n3\t0\ta.rs\n";
    let history = get_commit_history(log, 10);
    assert_eq!(history.total_commits_in_window, 3);

    let contributors = count_contributor_commits("Ada|ada@x\nBob|bob@x\nAda|ada@x\n");
    assert_eq!(contributors.len(), 2);

    let branches = get_branch_analysis("feature/x|2024-04-22 10:00:00 +0000|1 2\n", &now);
    let stale: Vec<String> = branches.stale_branches.iter().map(|b| b.name.clone()).collect();
    assert!(stale.contains(&"feature/x".to_string()));

    let releases = analyze_release_patterns(
        "v1.0\n",
        &vec![("v1.0".to_string(), "c1|2024-05-30 09:00:00 +0000|v1.0\n".to_string())],
    );
    assert_eq!(releases.total_tags, 1);
    assert_eq!(releases.gap_count, 0);
    assert_eq!(releases.total_gap_days, 0);
}
