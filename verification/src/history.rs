//! Commit history over a lookback window: the parsed commits, per-month and
//! per-date counts in first-occurrence order, the most recent commits kept
//! verbatim for pattern detection, and the data of the per-week average.

use vstd::prelude::*;
use crate::commits::{
    commit_views, parse_git_log_with_stats, parse_log_spec, CommitInfo, CommitInfoV,
};
use crate::keyed::{bump_by, lemma_bump_by_absent, lemma_bump_by_found};
use crate::sat_add;
use crate::sat_add_usize;
use crate::text::{split_char, split_on, split_whitespace_vec, split_ws};

verus! {

/// The views of key/count pairs.
pub open spec fn kv_views(s: Seq<(String, usize)>) -> Seq<(Seq<char>, int)> {
    s.map_values(|p: (String, usize)| (p.0@, p.1 as int))
}

pub open spec fn bucket_key_fn() -> spec_fn((Seq<char>, int)) -> Seq<char> {
    |p: (Seq<char>, int)| p.0
}

pub open spec fn bucket_merge_fn() -> spec_fn((Seq<char>, int)) -> (Seq<char>, int) {
    |p: (Seq<char>, int)| (p.0, sat_add(p.1, 1))
}

/// Count key `k` into insertion-ordered buckets.
pub open spec fn bump_bucket(acc: Seq<(Seq<char>, int)>, k: Seq<char>) -> Seq<(Seq<char>, int)> {
    bump_by(acc, bucket_key_fn(), k, (k, 1int), bucket_merge_fn())
}

/// The `YYYY-MM` bucket key of a date string: its first two `-`-separated
/// pieces rejoined, present only when there are at least two.
pub open spec fn month_key(date: Seq<char>) -> Option<Seq<char>> {
    let ps = split_on(date, '-');
    if ps.len() >= 2 {
        Some(ps[0] + seq!['-'] + ps[1])
    } else {
        None
    }
}

/// The calendar-date bucket key: the first whitespace-separated token.
pub open spec fn day_key(date: Seq<char>) -> Option<Seq<char>> {
    let ts = split_ws(date);
    if ts.len() >= 1 {
        Some(ts[0])
    } else {
        None
    }
}

pub open spec fn month_fold_fn() -> spec_fn(Seq<(Seq<char>, int)>, CommitInfoV) -> Seq<
    (Seq<char>, int),
> {
    |acc: Seq<(Seq<char>, int)>, c: CommitInfoV|
        match month_key(c.date) {
            Some(k) => bump_bucket(acc, k),
            None => acc,
        }
}

pub open spec fn day_fold_fn() -> spec_fn(Seq<(Seq<char>, int)>, CommitInfoV) -> Seq<
    (Seq<char>, int),
> {
    |acc: Seq<(Seq<char>, int)>, c: CommitInfoV|
        match day_key(c.date) {
            Some(k) => bump_bucket(acc, k),
            None => acc,
        }
}

/// Commit counts bucketed by `YYYY-MM`, in first-occurrence order.
pub open spec fn months_of(cs: Seq<CommitInfoV>) -> Seq<(Seq<char>, int)> {
    cs.fold_left(Seq::<(Seq<char>, int)>::empty(), month_fold_fn())
}

/// Commit counts bucketed by calendar date, in first-occurrence order.
pub open spec fn days_of(cs: Seq<CommitInfoV>) -> Seq<(Seq<char>, int)> {
    cs.fold_left(Seq::<(Seq<char>, int)>::empty(), day_fold_fn())
}

/// The most recent commits kept verbatim: at most 50.
pub open spec fn recent_of(cs: Seq<CommitInfoV>) -> Seq<CommitInfoV> {
    if cs.len() <= 50 {
        cs
    } else {
        cs.take(50)
    }
}

/// Count `k` into the buckets: merge into the entry with that key, or
/// append a fresh entry with count one.
fn bump_bucket_exec(v: &mut Vec<(String, usize)>, k: String)
    ensures
        kv_views(final(v)@) == bump_bucket(kv_views(old(v)@), k@),
{
    let n = v.len();
    let mut j: usize = 0;
    while j < n
        invariant
            n == v@.len(),
            j <= n,
            v@ == old(v)@,
            forall|i: int| 0 <= i < j ==> #[trigger] v@[i].0@ != k@,
        decreases n - j,
    {
        if v[j].0 == k {
            let c = v[j].1;
            let ghost before = kv_views(v@);
            v.set(j, (k, sat_add_usize(c, 1)));
            proof {
                assert(forall|i: int| 0 <= i < j ==> bucket_key_fn()(#[trigger] before[i]) != k@);
                assert(bucket_key_fn()(before[j as int]) == k@);
                lemma_bump_by_found(
                    before,
                    bucket_key_fn(),
                    k@,
                    (k@, 1int),
                    bucket_merge_fn(),
                    j as int,
                );
                assert(kv_views(v@) =~= before.update(
                    j as int,
                    bucket_merge_fn()(before[j as int]),
                ));
            }
            return;
        }
        j = j + 1;
    }
    let ghost before = kv_views(v@);
    v.push((k, 1));
    proof {
        assert(forall|i: int| 0 <= i < before.len() ==> bucket_key_fn()(#[trigger] before[i])
            != k@);
        lemma_bump_by_absent(before, bucket_key_fn(), k@, (k@, 1int), bucket_merge_fn());
        assert(kv_views(v@) =~= before.push((k@, 1int)));
    }
}

/// The commit-history view of a window: the parsed commits' counts and the
/// most recent 50 of them. The per-week average is the pair
/// (`total_commits_in_window`, `window_days`); its value is
/// `total / max(days/7, 1)`.
#[derive(Clone, Debug)]
pub struct CommitHistory {
    pub recent_commits: Vec<CommitInfo>,
    pub commits_by_month: Vec<(String, usize)>,
    pub commits_by_day_of_week: Vec<(String, usize)>,
    pub total_commits_in_window: usize,
    pub window_days: i64,
}

/// Parse the window's log and bucket its commits by month and by date.
pub fn get_commit_history(log_output: &str, days: i64) -> (r: CommitHistory)
    ensures
        commit_views(r.recent_commits@) == recent_of(parse_log_spec(log_output@)),
        kv_views(r.commits_by_month@) == months_of(parse_log_spec(log_output@)),
        kv_views(r.commits_by_day_of_week@) == days_of(parse_log_spec(log_output@)),
        r.total_commits_in_window == parse_log_spec(log_output@).len(),
        r.window_days == days,
{
    let mut commits = parse_git_log_with_stats(log_output);
    let total = commits.len();
    let ghost cv = parse_log_spec(log_output@);
    let mut months: Vec<(String, usize)> = Vec::new();
    let mut daysb: Vec<(String, usize)> = Vec::new();
    let mut i: usize = 0;
    proof {
        assert(cv.take(0) =~= Seq::<CommitInfoV>::empty());
    }
    while i < commits.len()
        invariant
            cv == commit_views(commits@),
            i <= commits@.len(),
            kv_views(months@) == months_of(cv.take(i as int)),
            kv_views(daysb@) == days_of(cv.take(i as int)),
        decreases commits@.len() - i,
    {
        proof {
            assert(cv.take(i + 1 as int).drop_last() =~= cv.take(i as int));
            assert(cv.take(i + 1 as int).last() == cv[i as int]);
            assert(cv[i as int] == commits@[i as int]@);
        }
        let c = &commits[i];
        let ps = split_char(c.date.as_str(), '-');
        if ps.len() >= 2 {
            let mut key = ps[0].clone();
            key.append("-");
            key.append(ps[1].as_str());
            proof {
                reveal_strlit("-");
                assert("-"@ =~= seq!['-']);
                assert(key@ == split_on(cv[i as int].date, '-')[0] + seq!['-'] + split_on(
                    cv[i as int].date,
                    '-',
                )[1]);
                assert(month_key(cv[i as int].date) == Some(key@));
            }
            bump_bucket_exec(&mut months, key);
        }
        let ts = split_whitespace_vec(c.date.as_str());
        if ts.len() >= 1 {
            let key = ts[0].clone();
            proof {
                assert(day_key(cv[i as int].date) == Some(key@));
            }
            bump_bucket_exec(&mut daysb, key);
        }
        i = i + 1;
    }
    proof {
        assert(cv.take(commits@.len() as int) =~= cv);
    }
    commits.truncate(50);
    proof {
        if cv.len() > 50 {
            assert(commit_views(commits@) =~= cv.take(50));
        }
    }
    CommitHistory {
        recent_commits: commits,
        commits_by_month: months,
        commits_by_day_of_week: daysb,
        total_commits_in_window: total,
        window_days: days,
    }
}

} // verus!
