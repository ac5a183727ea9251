//! Development patterns over the sampled recent commits: a cadence class
//! from the per-week average, peak hours and days from timestamp histograms
//! (deterministic tie-break: the lower hour, the earlier weekday), and mean
//! and median commit size.

use vstd::prelude::*;
use vstd::relations::{sorted_by, total_ordering};
use vstd::seq_lib::lemma_sorted_unique;
use crate::commits::{commit_views, CommitInfoV};
use crate::history::CommitHistory;
use crate::rank::{int_views, pair_before, ranked, sort_pairs_desc, sort_usizes};
use crate::sat_add;
use crate::sat_add_usize;
use crate::timestamp::{
    day_name, day_name_spec, parse_timestamp, parse_ts_spec, weekday_exec, weekday_of,
};

verus! {

broadcast use vstd::seq_lib::group_to_multiset_ensures;

// ---------------------------------------------------------------------------
// Cadence class
// ---------------------------------------------------------------------------

/// Whether the per-week average `total / max(days/7, 1)` exceeds `t`,
/// decided exactly on integers.
pub open spec fn avg_gt(total: int, days: int, t: int) -> bool {
    if days <= 7 {
        total > t
    } else {
        7 * total > t * days
    }
}

/// The cadence class of a window's commit count.
pub open spec fn frequency_class_spec(total: int, days: int) -> Seq<char> {
    if avg_gt(total, days, 20) {
        "Very active"@
    } else if avg_gt(total, days, 10) {
        "Active"@
    } else if avg_gt(total, days, 5) {
        "Moderate"@
    } else {
        "Low"@
    }
}

fn avg_gt_exec(total: usize, days: i64, t: u64) -> (r: bool)
    requires
        t <= 100,
    ensures
        r == avg_gt(total as int, days as int, t as int),
{
    if days <= 7 {
        total as u128 > t as u128
    } else {
        proof {
            assert((t as int) * (days as int) <= 100 * (i64::MAX as int)) by (nonlinear_arith)
                requires
                    0 <= t as int <= 100,
                    0 < days as int <= i64::MAX as int,
            ;
        }
        7 * total as u128 > t as u128 * days as u128
    }
}

/// Classify the window's cadence from the commit count and the window size.
pub fn classify_commit_frequency(total: usize, days: i64) -> (r: String)
    ensures
        r@ == frequency_class_spec(total as int, days as int),
{
    if avg_gt_exec(total, days, 20) {
        "Very active".to_owned()
    } else if avg_gt_exec(total, days, 10) {
        "Active".to_owned()
    } else if avg_gt_exec(total, days, 5) {
        "Moderate".to_owned()
    } else {
        "Low".to_owned()
    }
}

/// A window in which no commits parse yields an empty recent-commits
/// collection, a per-week average that exceeds no threshold (its numerator,
/// the commit total, is zero — no division ever happens, the window floor
/// `max(days/7, 1)` being at least one week), and the "Low" cadence class,
/// whatever the window length.
pub proof fn lemma_empty_window(s: Seq<char>, days: int)
    requires
        crate::commits::parse_log_spec(s).len() == 0,
    ensures
        crate::history::recent_of(crate::commits::parse_log_spec(s)).len() == 0,
        forall|t: int| t >= 0 ==> !(#[trigger] avg_gt(0, days, t)),
        frequency_class_spec(0, days) == "Low"@,
{
    assert forall|t: int| t >= 0 implies !(#[trigger] avg_gt(0, days, t)) by {
        if days > 7 {
            assert(t * days >= 0) by (nonlinear_arith)
                requires
                    t >= 0,
                    days > 7,
            ;
        }
    }
    assert(!avg_gt(0, days, 20)) by {
        if days > 7 {
            assert(20 * days >= 0) by (nonlinear_arith)
                requires
                    days > 7,
            ;
        }
    }
    assert(!avg_gt(0, days, 10)) by {
        if days > 7 {
            assert(10 * days >= 0) by (nonlinear_arith)
                requires
                    days > 7,
            ;
        }
    }
    assert(!avg_gt(0, days, 5)) by {
        if days > 7 {
            assert(5 * days >= 0) by (nonlinear_arith)
                requires
                    days > 7,
            ;
        }
    }
}

// ---------------------------------------------------------------------------
// Histograms
// ---------------------------------------------------------------------------

/// How many of the commits' dates parse with hour `h`.
pub open spec fn hour_count(cs: Seq<CommitInfoV>, h: int) -> int
    decreases cs.len(),
{
    if cs.len() == 0 {
        0
    } else {
        hour_count(cs.drop_last(), h) + (match parse_ts_spec(cs.last().date) {
            Some(t) => if t.hour as int == h {
                1int
            } else {
                0int
            },
            None => 0int,
        })
    }
}

/// How many of the commits' dates parse with weekday `w` (0 = Monday).
pub open spec fn wday_count(cs: Seq<CommitInfoV>, w: int) -> int
    decreases cs.len(),
{
    if cs.len() == 0 {
        0
    } else {
        wday_count(cs.drop_last(), w) + (match parse_ts_spec(cs.last().date) {
            Some(t) => if weekday_of(t) == w {
                1int
            } else {
                0int
            },
            None => 0int,
        })
    }
}

/// The number of positive entries among the first `upto` of `counts`.
pub open spec fn pos_count(counts: Seq<int>, upto: int) -> int
    decreases upto,
{
    if upto <= 0 {
        0
    } else {
        pos_count(counts, upto - 1) + (if counts[upto - 1] > 0 {
            1int
        } else {
            0int
        })
    }
}

/// Whether slot `s` occurs among the ranked pairs.
pub open spec fn slot_in(r: Seq<(usize, usize)>, s: int) -> bool {
    exists|q: int| 0 <= q < r.len() && (#[trigger] r[q]).1 == s
}

/// Rank the positive slots of a histogram: pairs `(count, slot)` by count
/// descending, lower slot first among equal counts, at most `cap` of them.
/// Slots left out rank after every slot kept.
pub fn rank_positive_slots(counts: &Vec<usize>, cap: usize) -> (r: Vec<(usize, usize)>)
    ensures
        forall|q: int|
            0 <= q < r@.len() ==> (#[trigger] r@[q]).1 < counts@.len() && r@[q].0 == counts@[
                r@[q].1 as int
            ] && r@[q].0 > 0,
        ranked(r@),
        r@.len() == if pos_count(int_views(counts@), counts@.len() as int) <= cap {
            pos_count(int_views(counts@), counts@.len() as int)
        } else {
            cap as int
        },
        forall|s: int, q: int|
            #![trigger r@[q], counts@[s]]
            0 <= s < counts@.len() && counts@[s] > 0 && 0 <= q < r@.len() && !slot_in(r@, s)
                ==> pair_before(r@[q], (counts@[s], s as usize)),
{
    let n = counts.len();
    let ghost cvi = int_views(counts@);
    let mut pairs: Vec<(usize, usize)> = Vec::new();
    let mut s: usize = 0;
    while s < n
        invariant
            n == counts@.len(),
            s <= n,
            cvi == int_views(counts@),
            pairs@.len() == pos_count(cvi, s as int),
            forall|q: int|
                0 <= q < pairs@.len() ==> (#[trigger] pairs@[q]).1 < s && pairs@[q].0 == counts@[
                    pairs@[q].1 as int
                ] && pairs@[q].0 > 0,
            forall|q1: int, q2: int|
                0 <= q1 < q2 < pairs@.len() ==> (#[trigger] pairs@[q1]).1 < (
                #[trigger] pairs@[q2]).1,
            forall|ss: int|
                0 <= ss < s && counts@[ss] > 0 ==> pairs@.contains((counts@[ss], ss as usize)),
        decreases n - s,
    {
        let ghost pairs_old = pairs@;
        if counts[s] > 0 {
            pairs.push((counts[s], s));
        }
        proof {
            assert(cvi[s as int] == counts@[s as int] as int);
            assert forall|ss: int|
                0 <= ss < s + 1 && counts@[ss] > 0 implies pairs@.contains(
                (counts@[ss], ss as usize),
            ) by {
                if ss < s {
                    let q = choose|q: int|
                        0 <= q < pairs_old.len() && pairs_old[q] == (counts@[ss], ss as usize);
                    assert(pairs@[q] == (counts@[ss], ss as usize));
                } else {
                    assert(pairs@[pairs_old.len() as int] == (counts@[s as int], s));
                }
            }
        }
        s = s + 1;
    }
    let sorted = sort_pairs_desc(&pairs);
    proof {
        // every sorted entry is a pair of `pairs`, hence a positive slot
        assert forall|q: int| 0 <= q < sorted@.len() implies {
            &&& (#[trigger] sorted@[q]).1 < counts@.len()
            &&& sorted@[q].0 == counts@[sorted@[q].1 as int]
            &&& sorted@[q].0 > 0
        } by {
            assert(sorted@.contains(sorted@[q])) by {
                assert(0 <= q < sorted@.len() && sorted@[q] == sorted@[q]);
            }
            assert(sorted@.to_multiset().count(sorted@[q]) > 0);
            assert(pairs@.to_multiset().count(sorted@[q]) > 0);
            assert(pairs@.contains(sorted@[q]));
            let w = choose|w: int| 0 <= w < pairs@.len() && pairs@[w] == sorted@[q];
        }
    }
    let m = if sorted.len() < cap {
        sorted.len()
    } else {
        cap
    };
    let mut r: Vec<(usize, usize)> = Vec::new();
    let mut k: usize = 0;
    while k < m
        invariant
            m <= sorted@.len(),
            m <= cap,
            sorted@.len() < cap ==> m == sorted@.len(),
            ranked(sorted@),
            forall|q: int|
                0 <= q < sorted@.len() ==> (#[trigger] sorted@[q]).1 < counts@.len() && sorted@[
                    q
                ].0 == counts@[sorted@[q].1 as int] && sorted@[q].0 > 0,
            k <= m,
            r@ == sorted@.take(k as int),
        decreases m - k,
    {
        let x = sorted[k];
        r.push(x);
        proof {
            assert(r@ =~= sorted@.take(k + 1 as int));
        }
        k = k + 1;
    }
    proof {
        // inherited entry facts and order
        assert forall|q: int| 0 <= q < r@.len() implies {
            &&& (#[trigger] r@[q]).1 < counts@.len()
            &&& r@[q].0 == counts@[r@[q].1 as int]
            &&& r@[q].0 > 0
        } by {
            assert(r@[q] == sorted@[q]);
        }
        assert forall|q1: int, q2: int| 0 <= q1 < q2 < r@.len() implies pair_before(
            #[trigger] r@[q1],
            #[trigger] r@[q2],
        ) by {
            assert(r@[q1] == sorted@[q1]);
            assert(r@[q2] == sorted@[q2]);
        }
        // every positive slot left out ranks after every slot kept
        assert forall|ss: int, q: int|
            #![trigger r@[q], counts@[ss]]
            0 <= ss < counts@.len() && counts@[ss] > 0 && 0 <= q < r@.len() && !slot_in(r@, ss)
            implies pair_before(r@[q], (counts@[ss], ss as usize)) by {
            assert(pairs@.contains((counts@[ss], ss as usize)));
            assert(pairs@.to_multiset().count((counts@[ss], ss as usize)) > 0);
            assert(sorted@.to_multiset().count((counts@[ss], ss as usize)) > 0);
            assert(sorted@.contains((counts@[ss], ss as usize)));
            let w = choose|w: int|
                0 <= w < sorted@.len() && sorted@[w] == (counts@[ss], ss as usize);
            if w < m {
                assert(r@[w] == sorted@[w]);
                assert(slot_in(r@, ss)) by {
                    assert(0 <= w < r@.len() && r@[w].1 == ss);
                }
            }
            assert(w >= m);
            assert(r@[q] == sorted@[q]);
            assert(pair_before(sorted@[q], sorted@[w]));
        }
    }
    r
}

// ---------------------------------------------------------------------------
// Commit sizes
// ---------------------------------------------------------------------------

/// The sizes (insertions plus deletions, saturating) of the commits.
pub open spec fn sizes_of(cs: Seq<CommitInfoV>) -> Seq<int>
    decreases cs.len(),
{
    if cs.len() == 0 {
        Seq::empty()
    } else {
        sizes_of(cs.drop_last()).push(sat_add(cs.last().insertions, cs.last().deletions))
    }
}

/// The saturating total of the commits' sizes.
pub open spec fn total_size_of(cs: Seq<CommitInfoV>) -> int
    decreases cs.len(),
{
    if cs.len() == 0 {
        0
    } else {
        sat_add(total_size_of(cs.drop_last()), sat_add(cs.last().insertions, cs.last().deletions))
    }
}

/// The median commit size: the middle element (upper middle for even
/// counts) of the sizes in ascending order, or zero with no commits.
pub open spec fn median_size_spec(cs: Seq<CommitInfoV>) -> int {
    if cs.len() == 0 {
        0
    } else {
        sizes_of(cs).sort()[cs.len() as int / 2]
    }
}

// ---------------------------------------------------------------------------
// The patterns view
// ---------------------------------------------------------------------------

/// Development patterns of the sampled commits. The mean commit size is the
/// pair (`total_commit_size`, `sampled_commits`); its value is their
/// quotient, zero when no commits were sampled.
#[derive(Debug)]
pub struct DevelopmentPatterns {
    pub commit_frequency: String,
    pub peak_development_hours: Vec<u8>,
    pub peak_development_days: Vec<String>,
    pub total_commit_size: usize,
    pub sampled_commits: usize,
    pub median_commit_size: usize,
}

/// The ranking order on histogram slots: higher count first, lower slot
/// first among equal counts.
pub open spec fn slot_rank_before(ca: int, a: int, cb: int, b: int) -> bool {
    ca > cb || (ca == cb && a < b)
}

/// The weekday index of a weekday name, 7 for any other string.
pub open spec fn name_wday(nm: Seq<char>) -> int {
    if nm == day_name_spec(0) {
        0
    } else if nm == day_name_spec(1) {
        1
    } else if nm == day_name_spec(2) {
        2
    } else if nm == day_name_spec(3) {
        3
    } else if nm == day_name_spec(4) {
        4
    } else if nm == day_name_spec(5) {
        5
    } else if nm == day_name_spec(6) {
        6
    } else {
        7
    }
}

/// The seven weekday names are pairwise distinct, so [`name_wday`] inverts
/// [`day_name_spec`] on 0..7.
pub proof fn lemma_name_wday_inverts()
    ensures
        forall|w: int| 0 <= w < 7 ==> name_wday(#[trigger] day_name_spec(w)) == w,
{
    reveal_strlit("Monday");
    reveal_strlit("Tuesday");
    reveal_strlit("Wednesday");
    reveal_strlit("Thursday");
    reveal_strlit("Friday");
    reveal_strlit("Saturday");
    reveal_strlit("Sunday");
    assert("Monday"@[0] != "Tuesday"@[0]);
    assert("Monday"@[0] != "Wednesday"@[0]);
    assert("Monday"@[0] != "Thursday"@[0]);
    assert("Monday"@[0] != "Friday"@[0]);
    assert("Monday"@[0] != "Saturday"@[0]);
    assert("Monday"@[0] != "Sunday"@[0]);
    assert("Tuesday"@[0] != "Wednesday"@[0]);
    assert("Tuesday"@[1] != "Thursday"@[1]);
    assert("Tuesday"@[0] != "Friday"@[0]);
    assert("Tuesday"@[0] != "Saturday"@[0]);
    assert("Tuesday"@[0] != "Sunday"@[0]);
    assert("Wednesday"@[0] != "Thursday"@[0]);
    assert("Wednesday"@[0] != "Friday"@[0]);
    assert("Wednesday"@[0] != "Saturday"@[0]);
    assert("Wednesday"@[0] != "Sunday"@[0]);
    assert("Thursday"@[0] != "Friday"@[0]);
    assert("Thursday"@[0] != "Saturday"@[0]);
    assert("Thursday"@[0] != "Sunday"@[0]);
    assert("Friday"@[0] != "Saturday"@[0]);
    assert("Friday"@[0] != "Sunday"@[0]);
    assert("Saturday"@[1] != "Sunday"@[1]);
    assert("Monday"@ != "Tuesday"@);
    assert("Monday"@ != "Wednesday"@);
    assert("Monday"@ != "Thursday"@);
    assert("Monday"@ != "Friday"@);
    assert("Monday"@ != "Saturday"@);
    assert("Monday"@ != "Sunday"@);
    assert("Tuesday"@ != "Wednesday"@);
    assert("Tuesday"@ != "Thursday"@);
    assert("Tuesday"@ != "Friday"@);
    assert("Tuesday"@ != "Saturday"@);
    assert("Tuesday"@ != "Sunday"@);
    assert("Wednesday"@ != "Thursday"@);
    assert("Wednesday"@ != "Friday"@);
    assert("Wednesday"@ != "Saturday"@);
    assert("Wednesday"@ != "Sunday"@);
    assert("Thursday"@ != "Friday"@);
    assert("Thursday"@ != "Saturday"@);
    assert("Thursday"@ != "Sunday"@);
    assert("Friday"@ != "Saturday"@);
    assert("Friday"@ != "Sunday"@);
    assert("Saturday"@ != "Sunday"@);
}

/// Whether weekday `w` occurs among the named days.
pub open spec fn wday_in(names: Seq<String>, w: int) -> bool {
    exists|k: int| 0 <= k < names.len() && name_wday((#[trigger] names[k])@) == w
}

/// Derive the development patterns from an already-computed commit history:
/// no further repository queries are made.
pub fn analyze_development_patterns(ch: &CommitHistory) -> (r: DevelopmentPatterns)
    ensures
        ({
            let cs = commit_views(ch.recent_commits@);
            let hours = r.peak_development_hours@;
            let names = r.peak_development_days@;
            &&& r.commit_frequency@ == frequency_class_spec(
                ch.total_commits_in_window as int,
                ch.window_days as int,
            )
            &&& r.sampled_commits == cs.len()
            &&& r.total_commit_size as int == total_size_of(cs)
            &&& r.median_commit_size as int == median_size_spec(cs)
            // peak hours: positive slots, strictly ranked, the top of the histogram
            &&& hours.len() == if pos_count(Seq::new(24nat, |h: int| hour_count(cs, h)), 24) <= 5 {
                pos_count(Seq::new(24nat, |h: int| hour_count(cs, h)), 24)
            } else {
                5int
            }
            &&& forall|k: int|
                0 <= k < hours.len() ==> (#[trigger] hours[k]) < 24 && hour_count(
                    cs,
                    hours[k] as int,
                ) > 0
            &&& forall|k1: int, k2: int|
                0 <= k1 < k2 < hours.len() ==> slot_rank_before(
                    hour_count(cs, (#[trigger] hours[k1]) as int),
                    hours[k1] as int,
                    hour_count(cs, (#[trigger] hours[k2]) as int),
                    hours[k2] as int,
                )
            &&& forall|h: int, k: int|
                #![trigger hours[k], hour_count(cs, h)]
                0 <= h < 24 && hour_count(cs, h) > 0 && 0 <= k < hours.len() && (forall|k2: int|
                    0 <= k2 < hours.len() ==> (#[trigger] hours[k2]) as int != h) ==>
                    slot_rank_before(
                    hour_count(cs, hours[k] as int),
                    hours[k] as int,
                    hour_count(cs, h),
                    h,
                )
            // peak days: weekday names, strictly ranked, the top of the histogram
            &&& names.len() == if pos_count(Seq::new(7nat, |w: int| wday_count(cs, w)), 7) <= 3 {
                pos_count(Seq::new(7nat, |w: int| wday_count(cs, w)), 7)
            } else {
                3int
            }
            &&& forall|k: int|
                0 <= k < names.len() ==> 0 <= name_wday((#[trigger] names[k])@) < 7 && wday_count(
                    cs,
                    name_wday(names[k]@),
                ) > 0
            &&& forall|k1: int, k2: int|
                0 <= k1 < k2 < names.len() ==> slot_rank_before(
                    wday_count(cs, name_wday((#[trigger] names[k1])@)),
                    name_wday(names[k1]@),
                    wday_count(cs, name_wday((#[trigger] names[k2])@)),
                    name_wday(names[k2]@),
                )
            &&& forall|w: int, k: int|
                #![trigger names[k], wday_count(cs, w)]
                0 <= w < 7 && wday_count(cs, w) > 0 && 0 <= k < names.len() && !wday_in(names, w)
                    ==> slot_rank_before(
                    wday_count(cs, name_wday(names[k]@)),
                    name_wday(names[k]@),
                    wday_count(cs, w),
                    w,
                )
        }),
{
    let ghost cs = commit_views(ch.recent_commits@);
    let freq = classify_commit_frequency(ch.total_commits_in_window, ch.window_days);

    let mut hour_hist: Vec<usize> = Vec::new();
    let mut wday_hist: Vec<usize> = Vec::new();
    let mut slot: usize = 0;
    while slot < 24
        invariant
            hour_hist@.len() == slot,
            slot <= 24,
            forall|h: int| 0 <= h < slot ==> #[trigger] hour_hist@[h] == 0,
        decreases 24 - slot,
    {
        hour_hist.push(0);
        slot = slot + 1;
    }
    let mut slot2: usize = 0;
    while slot2 < 7
        invariant
            wday_hist@.len() == slot2,
            slot2 <= 7,
            forall|w: int| 0 <= w < slot2 ==> #[trigger] wday_hist@[w] == 0,
        decreases 7 - slot2,
    {
        wday_hist.push(0);
        slot2 = slot2 + 1;
    }

    let mut sizes: Vec<usize> = Vec::new();
    let mut total_size: usize = 0;
    let n = ch.recent_commits.len();
    let mut i: usize = 0;
    proof {
        assert(cs.take(0) =~= Seq::<CommitInfoV>::empty());
        assert(int_views(sizes@) =~= sizes_of(cs.take(0)));
    }
    while i < n
        invariant
            n == ch.recent_commits@.len(),
            cs == commit_views(ch.recent_commits@),
            i <= n,
            hour_hist@.len() == 24,
            wday_hist@.len() == 7,
            forall|h: int|
                0 <= h < 24 ==> #[trigger] hour_hist@[h] as int == hour_count(
                    cs.take(i as int),
                    h,
                ) && hour_hist@[h] <= i,
            forall|w: int|
                0 <= w < 7 ==> #[trigger] wday_hist@[w] as int == wday_count(cs.take(i as int), w)
                    && wday_hist@[w] <= i,
            int_views(sizes@) == sizes_of(cs.take(i as int)),
            sizes@.len() == i,
            total_size as int == total_size_of(cs.take(i as int)),
        decreases n - i,
    {
        proof {
            assert(cs.take(i + 1 as int).drop_last() =~= cs.take(i as int));
            assert(cs.take(i + 1 as int).last() == cs[i as int]);
            assert(cs[i as int] == ch.recent_commits@[i as int]@);
        }
        let c = &ch.recent_commits[i];
        match parse_timestamp(c.date.as_str()) {
            Some(t) => {
                let h = t.hour as usize;
                let hv = hour_hist[h];
                hour_hist.set(h, hv + 1);
                let w = weekday_exec(&t) as usize;
                let wv = wday_hist[w];
                wday_hist.set(w, wv + 1);
            },
            None => {},
        }
        let size = sat_add_usize(c.insertions, c.deletions);
        sizes.push(size);
        total_size = sat_add_usize(total_size, size);
        proof {
            assert(int_views(sizes@) =~= sizes_of(cs.take(i + 1 as int)));
        }
        i = i + 1;
    }
    proof {
        assert(cs.take(n as int) =~= cs);
    }

    let peak_hour_pairs = rank_positive_slots(&hour_hist, 5);
    let mut peak_hours: Vec<u8> = Vec::new();
    let mut k: usize = 0;
    while k < peak_hour_pairs.len()
        invariant
            k <= peak_hour_pairs@.len(),
            peak_hours@.len() == k,
            forall|q: int| 0 <= q < peak_hour_pairs@.len() ==> (#[trigger] peak_hour_pairs@[q]).1
                < 24,
            forall|q: int|
                0 <= q < k ==> #[trigger] peak_hours@[q] as int == peak_hour_pairs@[q].1 as int,
        decreases peak_hour_pairs@.len() - k,
    {
        peak_hours.push(peak_hour_pairs[k].1 as u8);
        k = k + 1;
    }

    let peak_day_pairs = rank_positive_slots(&wday_hist, 3);
    let mut peak_days: Vec<String> = Vec::new();
    let mut k2: usize = 0;
    proof {
        lemma_name_wday_inverts();
    }
    while k2 < peak_day_pairs.len()
        invariant
            k2 <= peak_day_pairs@.len(),
            peak_days@.len() == k2,
            forall|q: int| 0 <= q < peak_day_pairs@.len() ==> (#[trigger] peak_day_pairs@[q]).1
                < 7,
            forall|q: int|
                0 <= q < k2 ==> (#[trigger] peak_days@[q])@ == day_name_spec(
                    peak_day_pairs@[q].1 as int,
                ),
        decreases peak_day_pairs@.len() - k2,
    {
        peak_days.push(day_name(peak_day_pairs[k2].1 as u8));
        k2 = k2 + 1;
    }

    let sorted_sizes = sort_usizes(&sizes);
    let median: usize = if sorted_sizes.len() > 0 {
        sorted_sizes[sorted_sizes.len() / 2]
    } else {
        0
    };
    proof {
        if cs.len() > 0 {
            let leq = |x: int, y: int| x <= y;
            let target = sizes_of(cs);
            target.lemma_sort_ensures();
            assert(total_ordering(leq)) by {
                assert(forall|x: int| #[trigger] leq(x, x));
                assert(forall|x: int, y: int, z: int|
                    #[trigger] leq(x, y) && #[trigger] leq(y, z) ==> leq(x, z));
                assert(forall|x: int, y: int|
                    #[trigger] leq(x, y) && #[trigger] leq(y, x) ==> x == y);
                assert(forall|x: int, y: int| #[trigger] leq(x, y) || #[trigger] leq(y, x));
            }
            assert(sorted_by(int_views(sorted_sizes@), leq)) by {
                assert(forall|a: int, b: int|
                    0 <= a < b < sorted_sizes@.len() ==> #[trigger] int_views(sorted_sizes@)[a]
                        <= #[trigger] int_views(sorted_sizes@)[b]);
            }
            lemma_sorted_unique(int_views(sorted_sizes@), target.sort(), leq);
            assert(int_views(sorted_sizes@) == target.sort());
            assert(median as int == target.sort()[cs.len() as int / 2]);
        }
    }

    proof {
        lemma_name_wday_inverts();
        let hseq = Seq::new(24nat, |h: int| hour_count(cs, h));
        let wseq = Seq::new(7nat, |w: int| wday_count(cs, w));
        assert(int_views(hour_hist@) =~= hseq);
        assert(int_views(wday_hist@) =~= wseq);
        assert(pos_count(int_views(hour_hist@), 24) == pos_count(hseq, 24));
        assert(pos_count(int_views(wday_hist@), 7) == pos_count(wseq, 7));
        // hour facts, in the shapes of the postcondition
        let hours = peak_hours@;
        assert forall|k: int|
            0 <= k < hours.len() implies (#[trigger] hours[k]) < 24 && hour_count(
            cs,
            hours[k] as int,
        ) > 0 by {
            assert(hours[k] as int == peak_hour_pairs@[k].1 as int);
            assert(hour_hist@[peak_hour_pairs@[k].1 as int] as int == hour_count(
                cs,
                peak_hour_pairs@[k].1 as int,
            ));
        }
        assert forall|k1: int, k2: int| 0 <= k1 < k2 < hours.len() implies slot_rank_before(
            hour_count(cs, (#[trigger] hours[k1]) as int),
            hours[k1] as int,
            hour_count(cs, (#[trigger] hours[k2]) as int),
            hours[k2] as int,
        ) by {
            assert(pair_before(peak_hour_pairs@[k1], peak_hour_pairs@[k2]));
            assert(peak_hour_pairs@[k1].0 as int == hour_count(cs, hours[k1] as int));
            assert(peak_hour_pairs@[k2].0 as int == hour_count(cs, hours[k2] as int));
        }
        assert forall|h: int, k: int|
            #![trigger hours[k], hour_count(cs, h)]
            0 <= h < 24 && hour_count(cs, h) > 0 && 0 <= k < hours.len() && (forall|k2: int|
                0 <= k2 < hours.len() ==> (#[trigger] hours[k2]) as int != h) implies
            slot_rank_before(
            hour_count(cs, hours[k] as int),
            hours[k] as int,
            hour_count(cs, h),
            h,
        ) by {
            assert(hour_hist@[h] as int == hour_count(cs, h));
            assert(!slot_in(peak_hour_pairs@, h)) by {
                if slot_in(peak_hour_pairs@, h) {
                    let q = choose|q: int|
                        0 <= q < peak_hour_pairs@.len() && (#[trigger] peak_hour_pairs@[q]).1
                            == h;
                    assert(hours[q] as int == h);
                }
            }
            assert(pair_before(peak_hour_pairs@[k], (hour_hist@[h], h as usize)));
            assert(peak_hour_pairs@[k].0 as int == hour_count(cs, hours[k] as int));
        }
        // day facts, in the shapes of the postcondition
        let names = peak_days@;
        assert forall|k: int|
            0 <= k < names.len() implies 0 <= name_wday((#[trigger] names[k])@) < 7
            && wday_count(cs, name_wday(names[k]@)) > 0 by {
            assert(names[k]@ == day_name_spec(peak_day_pairs@[k].1 as int));
            assert(name_wday(names[k]@) == peak_day_pairs@[k].1 as int);
            assert(wday_hist@[peak_day_pairs@[k].1 as int] as int == wday_count(
                cs,
                peak_day_pairs@[k].1 as int,
            ));
        }
        assert forall|k1: int, k2: int| 0 <= k1 < k2 < names.len() implies slot_rank_before(
            wday_count(cs, name_wday((#[trigger] names[k1])@)),
            name_wday(names[k1]@),
            wday_count(cs, name_wday((#[trigger] names[k2])@)),
            name_wday(names[k2]@),
        ) by {
            assert(names[k1]@ == day_name_spec(peak_day_pairs@[k1].1 as int));
            assert(names[k2]@ == day_name_spec(peak_day_pairs@[k2].1 as int));
            assert(pair_before(peak_day_pairs@[k1], peak_day_pairs@[k2]));
            assert(peak_day_pairs@[k1].0 as int == wday_count(cs, name_wday(names[k1]@)));
            assert(peak_day_pairs@[k2].0 as int == wday_count(cs, name_wday(names[k2]@)));
        }
        assert forall|w: int, k: int|
            #![trigger names[k], wday_count(cs, w)]
            0 <= w < 7 && wday_count(cs, w) > 0 && 0 <= k < names.len() && !wday_in(names, w)
            implies slot_rank_before(
            wday_count(cs, name_wday(names[k]@)),
            name_wday(names[k]@),
            wday_count(cs, w),
            w,
        ) by {
            assert(wday_hist@[w] as int == wday_count(cs, w));
            assert(!slot_in(peak_day_pairs@, w)) by {
                if slot_in(peak_day_pairs@, w) {
                    let q = choose|q: int|
                        0 <= q < peak_day_pairs@.len() && (#[trigger] peak_day_pairs@[q]).1 == w;
                    assert(names[q]@ == day_name_spec(w));
                    assert(wday_in(names, w)) by {
                        assert(0 <= q < names.len() && name_wday(names[q]@) == w);
                    }
                }
            }
            assert(pair_before(peak_day_pairs@[k], (wday_hist@[w], w as usize)));
            assert(names[k]@ == day_name_spec(peak_day_pairs@[k].1 as int));
            assert(peak_day_pairs@[k].0 as int == wday_count(cs, name_wday(names[k]@)));
        }
    }
    DevelopmentPatterns {
        commit_frequency: freq,
        peak_development_hours: peak_hours,
        peak_development_days: peak_days,
        total_commit_size: total_size,
        sampled_commits: n,
        median_commit_size: median,
    }
}

} // verus!
