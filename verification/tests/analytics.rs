use githist::churn::get_code_churn;
use githist::history::get_commit_history;
use githist::patterns::{analyze_development_patterns, classify_commit_frequency};

#[test]
fn empty_window_yields_empty_history() {
    let h = get_commit_history("", 30);
    assert_eq!(h.recent_commits.len(), 0);
    assert_eq!(h.total_commits_in_window, 0);
    assert_eq!(h.commits_by_month.len(), 0);
    assert_eq!(h.commits_by_day_of_week.len(), 0);
    assert_eq!(h.window_days, 30);
    // the per-week average is total / max(days/7, 1): zero commits give zero
    let p = analyze_development_patterns(&h);
    assert_eq!(p.commit_frequency, "Low");
    assert_eq!(p.sampled_commits, 0);
    assert_eq!(p.median_commit_size, 0);
    assert_eq!(p.total_commit_size, 0);
}

#[test]
fn history_buckets_by_month_and_date() {
    let log = "a1|Ada|ada@x|2024-05-01 09:00:00 +0000|one\n\
               a2|Ada|ada@x|2024-05-02 10:00:00 +0000|two\n\
               a3|Ada|ada@x|2024-06-01 11:00:00 +0000|three\n\
               a4|Ada|ada@x|2024-05-01 12:00:00 +0000|four\n";
    let h = get_commit_history(log, 60);
    assert_eq!(h.total_commits_in_window, 4);
    assert_eq!(h.recent_commits.len(), 4);
    assert_eq!(
        h.commits_by_month,
        vec![("2024-05".to_string(), 3), ("2024-06".to_string(), 1)]
    );
    assert_eq!(
        h.commits_by_day_of_week,
        vec![
            ("2024-05-01".to_string(), 2),
            ("2024-05-02".to_string(), 1),
            ("2024-06-01".to_string(), 1),
        ]
    );
}

#[test]
fn churn_ranking_is_descending() {
    // three paths changed 5, 1 and 9 times
    let mut log = String::new();
    for _ in 0..5 {
        log.push_str("1\t1\tmid.rs\n");
    }
    log.push_str("1\t1\trare.rs\n");
    for _ in 0..9 {
        log.push_str("2\t1\thot.rs\n");
    }
    let churn = get_code_churn(&log);
    assert_eq!(churn.total_files_ever_changed, 3);
    let order: Vec<(String, usize)> = churn
        .most_changed_files
        .iter()
        .map(|f| (f.path.clone(), f.times_changed))
        .collect();
    assert_eq!(
        order,
        vec![
            ("hot.rs".to_string(), 9),
            ("mid.rs".to_string(), 5),
            ("rare.rs".to_string(), 1),
        ]
    );
    assert_eq!(churn.most_changed_files[0].total_insertions, 18);
    assert_eq!(churn.most_changed_files[0].total_deletions, 9);
    // hotspot threshold is strictly more than five changes
    assert_eq!(churn.hotspots, vec!["hot.rs".to_string()]);
}

#[test]
fn churn_ranking_breaks_ties_by_first_occurrence() {
    let log = "1\t0\tb.rs\n1\t0\ta.rs\n1\t0\tb.rs\n1\t0\ta.rs\n";
    let churn = get_code_churn(log);
    let order: Vec<String> = churn.most_changed_files.iter().map(|f| f.path.clone()).collect();
    // equal counts: the path seen first ranks first
    assert_eq!(order, vec!["b.rs".to_string(), "a.rs".to_string()]);
    assert_eq!(churn.hotspots.len(), 0);
}

#[test]
fn churn_keeps_top_twenty() {
    let mut log = String::new();
    for i in 0..25 {
        let reps = 25 - i;
        for _ in 0..reps {
            log.push_str(&format!("1\t0\tf{}.rs\n", i));
        }
    }
    let churn = get_code_churn(&log);
    assert_eq!(churn.total_files_ever_changed, 25);
    assert_eq!(churn.most_changed_files.len(), 20);
    assert_eq!(churn.most_changed_files[0].path, "f0.rs");
    assert_eq!(churn.most_changed_files[0].times_changed, 25);
    assert_eq!(churn.most_changed_files[19].times_changed, 6);
}

#[test]
fn frequency_classes_follow_thresholds() {
    // 30-day window: average is commits / (30/7) weeks
    assert_eq!(classify_commit_frequency(86, 30), "Very active"); // 86*7 > 20*30
    assert_eq!(classify_commit_frequency(85, 30), "Active"); // 85*7 > 10*30 only
    assert_eq!(classify_commit_frequency(42, 30), "Moderate"); // 42*7 > 5*30 only
    assert_eq!(classify_commit_frequency(21, 30), "Low");
    // short windows floor the divisor at one week
    assert_eq!(classify_commit_frequency(21, 3), "Very active");
    assert_eq!(classify_commit_frequency(20, 3), "Active");
    assert_eq!(classify_commit_frequency(0, 0), "Low");
}

#[test]
fn patterns_find_peaks_and_median() {
    let log = "a1|A|a@x|2024-05-06 09:10:00 +0000|m\n4\t0\tx.rs\n\
               a2|A|a@x|2024-05-06 09:20:00 +0000|m\n10\t0\tx.rs\n\
               a3|A|a@x|2024-05-07 14:30:00 +0000|m\n2\t0\tx.rs\n\
               a4|A|a@x|2024-05-08 09:40:00 +0000|m\n100\t0\tx.rs\n";
    // 2024-05-06 is a Monday, so the commits fall on Mon, Mon, Tue, Wed.
    let h = get_commit_history(log, 7);
    let p = analyze_development_patterns(&h);
    assert_eq!(p.sampled_commits, 4);
    // hour 9 has three commits, hour 14 one
    assert_eq!(p.peak_development_hours, vec![9u8, 14u8]);
    // Monday has two, Tuesday and Wednesday one each; ties go to the earlier day
    assert_eq!(
        p.peak_development_days,
        vec!["Monday".to_string(), "Tuesday".to_string(), "Wednesday".to_string()]
    );
    // sizes 4, 10, 2, 100: sorted [2, 4, 10, 100], median at index 2
    assert_eq!(p.median_commit_size, 10);
    assert_eq!(p.total_commit_size, 116);
}

#[test]
fn patterns_tie_break_picks_lower_hour() {
    let log = "a1|A|a@x|2024-05-06 23:10:00 +0000|m\n\
               a2|A|a@x|2024-05-06 03:20:00 +0000|m\n";
    let h = get_commit_history(log, 7);
    let p = analyze_development_patterns(&h);
    assert_eq!(p.peak_development_hours, vec![3u8, 23u8]);
}

#[test]
fn history_keeps_fifty_most_recent() {
    let mut log = String::new();
    for i in 0..60 {
        log.push_str(&format!("h{}|A|a@x|2024-05-01 09:00:00 +0000|c{}\n", i, i));
    }
    let h = get_commit_history(&log, 30);
    assert_eq!(h.total_commits_in_window, 60);
    assert_eq!(h.recent_commits.len(), 50);
    assert_eq!(h.recent_commits[0].hash, "h0");
    assert_eq!(h.recent_commits[49].hash, "h49");
}
