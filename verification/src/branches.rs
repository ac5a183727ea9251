//! Branch records and branch health: each listing line is
//! `name|iso-date|ahead-behind`; a branch is active when its last commit
//! falls within a 30-day window before the reference time, otherwise stale.

use vstd::prelude::*;
use crate::text::{
    lines_of, parse_usize, parsed_usize, seq_views, split_char, split_lines, split_on,
    split_once_whitespace, split_once_ws, trim_spec, trim_str, usize_parsable,
};
use crate::timestamp::{
    diff_days, diff_days_spec, parse_timestamp, parse_ts_spec, wf_timestamp, Timestamp,
};

verus! {

/// One branch of the listing. `is_merged` is a placeholder that the listing
/// cannot determine; it is always false here.
#[derive(Clone, Debug)]
pub struct BranchInfo {
    pub name: String,
    pub last_commit_date: String,
    pub commits_ahead: usize,
    pub commits_behind: usize,
    pub is_merged: bool,
}

/// The mathematical image of a [`BranchInfo`].
pub ghost struct BranchInfoV {
    pub name: Seq<char>,
    pub last_commit_date: Seq<char>,
    pub commits_ahead: int,
    pub commits_behind: int,
    pub is_merged: bool,
}

impl View for BranchInfo {
    type V = BranchInfoV;

    open spec fn view(&self) -> BranchInfoV {
        BranchInfoV {
            name: self.name@,
            last_commit_date: self.last_commit_date@,
            commits_ahead: self.commits_ahead as int,
            commits_behind: self.commits_behind as int,
            is_merged: self.is_merged,
        }
    }
}

pub open spec fn branch_views(s: Seq<BranchInfo>) -> Seq<BranchInfoV> {
    s.map_values(|b: BranchInfo| b@)
}

pub open spec fn opt_branch_view(b: Option<BranchInfo>) -> Option<BranchInfoV> {
    match b {
        Some(x) => Some(x@),
        None => None,
    }
}

/// An ahead/behind field parses to its value, or defaults to zero.
pub open spec fn count_or_zero(p: Seq<char>) -> int {
    if usize_parsable(p) {
        parsed_usize(p)
    } else {
        0
    }
}

/// One branch-listing line: `None` when it has fewer than three
/// pipe-separated fields; the ahead/behind pair splits at the first
/// whitespace and unparseable counts default to zero.
pub open spec fn parse_branch_spec(l: Seq<char>) -> Option<BranchInfoV> {
    let parts = split_on(l, '|');
    if parts.len() < 3 {
        None
    } else {
        let ab = trim_spec(parts[2]);
        let counts = match split_once_ws(ab) {
            Some(p) => (count_or_zero(p.0), count_or_zero(p.1)),
            None => (0int, 0int),
        };
        Some(
            BranchInfoV {
                name: trim_spec(parts[0]),
                last_commit_date: trim_spec(parts[1]),
                commits_ahead: counts.0,
                commits_behind: counts.1,
                is_merged: false,
            },
        )
    }
}

/// Parse one line of the branch listing.
pub fn parse_branch_info(line: &str) -> (r: Option<BranchInfo>)
    ensures
        opt_branch_view(r) == parse_branch_spec(line@),
{
    let parts = split_char(line, '|');
    if parts.len() < 3 {
        return None;
    }
    let name = trim_str(parts[0].as_str());
    let date = trim_str(parts[1].as_str());
    let ab = trim_str(parts[2].as_str());
    let mut ahead: usize = 0;
    let mut behind: usize = 0;
    match split_once_whitespace(ab.as_str()) {
        Some((a, b)) => {
            ahead = match parse_usize(a.as_str()) {
                Some(v) => v,
                None => 0,
            };
            behind = match parse_usize(b.as_str()) {
                Some(v) => v,
                None => 0,
            };
        },
        None => {},
    }
    Some(
        BranchInfo {
            name,
            last_commit_date: date,
            commits_ahead: ahead,
            commits_behind: behind,
            is_merged: false,
        },
    )
}

/// A branch counts as active when its date parses and lies no more than
/// `days` whole days before `now`; an unparseable date is never active.
pub open spec fn branch_active_spec(date: Seq<char>, days: int, now: Timestamp) -> bool {
    match parse_ts_spec(date) {
        Some(t) => diff_days_spec(now, t) <= days,
        None => false,
    }
}

/// Whether a branch's last-commit date is within `days` days of `now`.
pub fn is_branch_active(last_commit_date: &str, days: i64, now: &Timestamp) -> (r: bool)
    requires
        wf_timestamp(*now),
    ensures
        r == branch_active_spec(last_commit_date@, days as int, *now),
{
    match parse_timestamp(last_commit_date) {
        Some(t) => diff_days(now, &t) <= days,
        None => false,
    }
}

/// Branch health over the whole listing.
#[derive(Debug)]
pub struct BranchAnalysis {
    pub total_branches: usize,
    pub active_branches: Vec<BranchInfo>,
    pub stale_branches: Vec<BranchInfo>,
    pub merged_branches_count: usize,
}

pub open spec fn branch_fold_fn() -> spec_fn(Seq<BranchInfoV>, Seq<char>) -> Seq<BranchInfoV> {
    |acc: Seq<BranchInfoV>, l: Seq<char>|
        match parse_branch_spec(l) {
            Some(b) => acc.push(b),
            None => acc,
        }
}

/// All branches parsed from the listing, in line order.
pub open spec fn branches_of(s: Seq<char>) -> Seq<BranchInfoV> {
    lines_of(s).fold_left(Seq::<BranchInfoV>::empty(), branch_fold_fn())
}

pub open spec fn active_fn(now: Timestamp) -> spec_fn(BranchInfoV) -> bool {
    |b: BranchInfoV| branch_active_spec(b.last_commit_date, 30, now)
}

pub open spec fn stale_fn(now: Timestamp) -> spec_fn(BranchInfoV) -> bool {
    |b: BranchInfoV| !branch_active_spec(b.last_commit_date, 30, now)
}

pub open spec fn merged_fn() -> spec_fn(BranchInfoV) -> bool {
    |b: BranchInfoV| b.is_merged
}

/// Classify every branch of the listing as active (last commit within 30
/// days of `now`) or stale, and count the merged ones.
pub fn get_branch_analysis(branches_output: &str, now: &Timestamp) -> (r: BranchAnalysis)
    requires
        wf_timestamp(*now),
    ensures
        r.total_branches == branches_of(branches_output@).len(),
        branch_views(r.active_branches@) == branches_of(branches_output@).filter(active_fn(*now)),
        branch_views(r.stale_branches@) == branches_of(branches_output@).filter(stale_fn(*now)),
        r.merged_branches_count == branches_of(branches_output@).filter(merged_fn()).len(),
{
    let lines = split_lines(branches_output);
    let ghost lv = lines_of(branches_output@);
    let mut active: Vec<BranchInfo> = Vec::new();
    let mut stale: Vec<BranchInfo> = Vec::new();
    let mut total: usize = 0;
    let mut merged: usize = 0;
    let mut i: usize = 0;
    proof {
        assert(lv.take(0) =~= Seq::<Seq<char>>::empty());
        reveal_with_fuel(Seq::filter, 1);
    }
    while i < lines.len()
        invariant
            seq_views(lines@) == lv,
            i <= lines@.len(),
            wf_timestamp(*now),
            total == lv.take(i as int).fold_left(Seq::<BranchInfoV>::empty(), branch_fold_fn()).len(),
            total <= i,
            merged <= total,
            merged == lv.take(i as int).fold_left(Seq::<BranchInfoV>::empty(), branch_fold_fn())
                .filter(merged_fn()).len(),
            branch_views(active@) =~~= lv.take(i as int).fold_left(
                Seq::<BranchInfoV>::empty(),
                branch_fold_fn(),
            ).filter(active_fn(*now)),
            branch_views(stale@) =~~= lv.take(i as int).fold_left(
                Seq::<BranchInfoV>::empty(),
                branch_fold_fn(),
            ).filter(stale_fn(*now)),
        decreases lines@.len() - i,
    {
        let ghost prev = lv.take(i as int).fold_left(Seq::<BranchInfoV>::empty(), branch_fold_fn());
        proof {
            assert(lv.take(i + 1 as int).drop_last() =~= lv.take(i as int));
            assert(lv.take(i + 1 as int).last() == lv[i as int]);
        }
        let line = &lines[i];
        match parse_branch_info(line.as_str()) {
            Some(b) => {
                proof {
                    crate::text::lemma_filter_push(prev, b@, active_fn(*now));
                    crate::text::lemma_filter_push(prev, b@, stale_fn(*now));
                    crate::text::lemma_filter_push(prev, b@, merged_fn());
                }
                total = total + 1;
                if b.is_merged {
                    merged = merged + 1;
                }
                if is_branch_active(b.last_commit_date.as_str(), 30, now) {
                    active.push(b);
                } else {
                    stale.push(b);
                }
            },
            None => {},
        }
        i = i + 1;
    }
    proof {
        assert(lv.take(lines@.len() as int) =~= lv);
    }
    BranchAnalysis {
        total_branches: total,
        active_branches: active,
        stale_branches: stale,
        merged_branches_count: merged,
    }
}

} // verus!
