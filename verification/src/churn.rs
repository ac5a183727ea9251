//! Code churn: per-path change counts accumulated from window-scoped stat
//! lines, ranked descending by times changed with a deterministic tie-break
//! (first-seen path first), the top 20 kept, and paths changed more than
//! five times flagged as hotspots.

use vstd::prelude::*;
use crate::keyed::{bump_by, lemma_bump_by_absent, lemma_bump_by_found};
use crate::rank::{distinct_snd, pair_before, ranked, sort_pairs_desc};
use crate::sat_add;
use crate::sat_add_usize;
use crate::text::{
    lines_of, parse_usize, parsed_usize, seq_views, split_lines, split_whitespace_vec, split_ws,
    usize_parsable,
};

verus! {

broadcast use vstd::seq_lib::group_to_multiset_ensures;

/// One file's accumulated churn. `last_modified` is left empty: filling it
/// would take one more query per file.
#[derive(Clone, Debug)]
pub struct FileChurn {
    pub path: String,
    pub times_changed: usize,
    pub total_insertions: usize,
    pub total_deletions: usize,
    pub last_modified: String,
}

/// The mathematical image of a [`FileChurn`].
pub ghost struct FileChurnV {
    pub path: Seq<char>,
    pub times_changed: int,
    pub total_insertions: int,
    pub total_deletions: int,
    pub last_modified: Seq<char>,
}

impl View for FileChurn {
    type V = FileChurnV;

    open spec fn view(&self) -> FileChurnV {
        FileChurnV {
            path: self.path@,
            times_changed: self.times_changed as int,
            total_insertions: self.total_insertions as int,
            total_deletions: self.total_deletions as int,
            last_modified: self.last_modified@,
        }
    }
}

pub open spec fn churn_views(s: Seq<FileChurn>) -> Seq<FileChurnV> {
    s.map_values(|f: FileChurn| f@)
}

pub open spec fn churn_key_fn() -> spec_fn(FileChurnV) -> Seq<char> {
    |f: FileChurnV| f.path
}

pub open spec fn churn_merge_fn(ins: int, del: int) -> spec_fn(FileChurnV) -> FileChurnV {
    |f: FileChurnV|
        FileChurnV {
            path: f.path,
            times_changed: sat_add(f.times_changed, 1),
            total_insertions: sat_add(f.total_insertions, ins),
            total_deletions: sat_add(f.total_deletions, del),
            last_modified: f.last_modified,
        }
}

pub open spec fn churn_fresh(path: Seq<char>, ins: int, del: int) -> FileChurnV {
    FileChurnV {
        path,
        times_changed: 1,
        total_insertions: ins,
        total_deletions: del,
        last_modified: Seq::empty(),
    }
}

/// One stat line folded into the per-path accumulation: lines with fewer
/// than three whitespace-separated fields or unparseable counts are skipped.
pub open spec fn churn_fold_fn() -> spec_fn(Seq<FileChurnV>, Seq<char>) -> Seq<FileChurnV> {
    |acc: Seq<FileChurnV>, l: Seq<char>|
        {
            let ps = split_ws(l);
            if ps.len() >= 3 && usize_parsable(ps[0]) && usize_parsable(ps[1]) {
                bump_by(
                    acc,
                    churn_key_fn(),
                    ps[2],
                    churn_fresh(ps[2], parsed_usize(ps[0]), parsed_usize(ps[1])),
                    churn_merge_fn(parsed_usize(ps[0]), parsed_usize(ps[1])),
                )
            } else {
                acc
            }
        }
}

/// The per-path churn accumulation of a stat-only log, keyed by path in
/// first-occurrence order.
pub open spec fn churn_agg(s: Seq<char>) -> Seq<FileChurnV> {
    lines_of(s).fold_left(Seq::<FileChurnV>::empty(), churn_fold_fn())
}

/// Pairwise-distinct paths.
pub open spec fn distinct_paths(s: Seq<FileChurnV>) -> bool {
    forall|i: int, j: int|
        0 <= i < j < s.len() ==> (#[trigger] s[i]).path != (#[trigger] s[j]).path
}

/// The first index whose entry has path `p`.
pub open spec fn idx_of_path(s: Seq<FileChurnV>, p: Seq<char>) -> int
    decreases s.len(),
{
    if s.len() == 0 {
        0
    } else if s[0].path == p {
        0
    } else {
        1 + idx_of_path(s.skip(1), p)
    }
}

/// With distinct paths, an entry's path finds the entry.
pub proof fn lemma_idx_of_path_self(s: Seq<FileChurnV>, t: int)
    requires
        distinct_paths(s),
        0 <= t < s.len(),
    ensures
        idx_of_path(s, s[t].path) == t,
    decreases t,
{
    if t > 0 {
        assert(forall|i: int, j: int|
            0 <= i < j < s.skip(1).len() ==> (#[trigger] s.skip(1)[i]).path != (
            #[trigger] s.skip(1)[j]).path);
        assert(s.skip(1)[t - 1] == s[t]);
        lemma_idx_of_path_self(s.skip(1), t - 1);
    }
}

/// The ranking order on churn entries: more changes first, and the path
/// seen earlier first among equal counts.
pub open spec fn churn_rank_before(a: FileChurnV, ai: int, b: FileChurnV, bi: int) -> bool {
    a.times_changed > b.times_changed || (a.times_changed == b.times_changed && ai < bi)
}

/// Whether some entry of `out` has path `p`.
pub open spec fn path_in(out: Seq<FileChurnV>, p: Seq<char>) -> bool {
    exists|k: int| 0 <= k < out.len() && (#[trigger] out[k]).path == p
}

fn bump_churn_exec(v: &mut Vec<FileChurn>, path: String, ins: usize, del: usize)
    ensures
        churn_views(final(v)@) == bump_by(
            churn_views(old(v)@),
            churn_key_fn(),
            path@,
            churn_fresh(path@, ins as int, del as int),
            churn_merge_fn(ins as int, del as int),
        ),
        distinct_paths(churn_views(old(v)@)) ==> distinct_paths(churn_views(final(v)@)),
{
    let n = v.len();
    let mut j: usize = 0;
    while j < n
        invariant
            n == v@.len(),
            j <= n,
            v@ == old(v)@,
            forall|i: int| 0 <= i < j ==> #[trigger] v@[i].path@ != path@,
        decreases n - j,
    {
        if v[j].path == path {
            let times = v[j].times_changed;
            let tins = v[j].total_insertions;
            let tdel = v[j].total_deletions;
            let kept_last = v[j].last_modified.clone();
            let ghost before = churn_views(v@);
            v.set(
                j,
                FileChurn {
                    path,
                    times_changed: sat_add_usize(times, 1),
                    total_insertions: sat_add_usize(tins, ins),
                    total_deletions: sat_add_usize(tdel, del),
                    last_modified: kept_last,
                },
            );
            proof {
                assert(forall|i: int|
                    0 <= i < j ==> churn_key_fn()(#[trigger] before[i]) != path@);
                assert(churn_key_fn()(before[j as int]) == path@);
                lemma_bump_by_found(
                    before,
                    churn_key_fn(),
                    path@,
                    churn_fresh(path@, ins as int, del as int),
                    churn_merge_fn(ins as int, del as int),
                    j as int,
                );
                assert(churn_views(v@) =~= before.update(
                    j as int,
                    churn_merge_fn(ins as int, del as int)(before[j as int]),
                ));
            }
            return;
        }
        j = j + 1;
    }
    let ghost before = churn_views(v@);
    v.push(
        FileChurn {
            path,
            times_changed: 1,
            total_insertions: ins,
            total_deletions: del,
            last_modified: String::new(),
        },
    );
    proof {
        assert(forall|i: int|
            0 <= i < before.len() ==> churn_key_fn()(#[trigger] before[i]) != path@);
        lemma_bump_by_absent(
            before,
            churn_key_fn(),
            path@,
            churn_fresh(path@, ins as int, del as int),
            churn_merge_fn(ins as int, del as int),
        );
        assert(churn_views(v@) =~= before.push(churn_fresh(path@, ins as int, del as int)));
    }
}

/// Paths changed more than five times, in ranking order.
pub open spec fn hotspots_of(files: Seq<FileChurnV>) -> Seq<Seq<char>>
    decreases files.len(),
{
    if files.len() == 0 {
        Seq::empty()
    } else {
        let rest = hotspots_of(files.drop_last());
        if files.last().times_changed > 5 {
            rest.push(files.last().path)
        } else {
            rest
        }
    }
}

/// The code-churn view of a window.
#[derive(Debug)]
pub struct CodeChurn {
    pub most_changed_files: Vec<FileChurn>,
    pub total_files_ever_changed: usize,
    pub hotspots: Vec<String>,
}

/// Accumulate per-path churn from a stat-only log, rank it descending by
/// times changed (earlier-seen path first among equals), keep the top 20,
/// and flag the hotspots among them.
pub fn get_code_churn(log_output: &str) -> (r: CodeChurn)
    ensures
        r.total_files_ever_changed == churn_agg(log_output@).len(),
        r.most_changed_files@.len() == if churn_agg(log_output@).len() <= 20 {
            churn_agg(log_output@).len() as int
        } else {
            20int
        },
        distinct_paths(churn_views(r.most_changed_files@)),
        forall|k: int|
            0 <= k < r.most_changed_files@.len() ==> {
                let e = #[trigger] r.most_changed_files@[k]@;
                let t = idx_of_path(churn_agg(log_output@), e.path);
                0 <= t < churn_agg(log_output@).len() && churn_agg(log_output@)[t] == e
            },
        forall|k1: int, k2: int|
            0 <= k1 < k2 < r.most_changed_files@.len() ==> churn_rank_before(
                #[trigger] r.most_changed_files@[k1]@,
                idx_of_path(churn_agg(log_output@), r.most_changed_files@[k1]@.path),
                #[trigger] r.most_changed_files@[k2]@,
                idx_of_path(churn_agg(log_output@), r.most_changed_files@[k2]@.path),
            ),
        forall|t: int, k: int|
            0 <= t < churn_agg(log_output@).len() && 0 <= k < r.most_changed_files@.len()
                && !path_in(churn_views(r.most_changed_files@), churn_agg(log_output@)[t].path)
                ==> churn_rank_before(
                #[trigger] r.most_changed_files@[k]@,
                idx_of_path(churn_agg(log_output@), r.most_changed_files@[k]@.path),
                #[trigger] churn_agg(log_output@)[t],
                t,
            ),
        seq_views(r.hotspots@) == hotspots_of(churn_views(r.most_changed_files@)),
{
    let ghost agg = churn_agg(log_output@);
    let lines = split_lines(log_output);
    let ghost lv = lines_of(log_output@);
    let mut acc: Vec<FileChurn> = Vec::new();
    let mut i: usize = 0;
    proof {
        assert(lv.take(0) =~= Seq::<Seq<char>>::empty());
    }
    while i < lines.len()
        invariant
            seq_views(lines@) == lv,
            i <= lines@.len(),
            churn_views(acc@) == lv.take(i as int).fold_left(
                Seq::<FileChurnV>::empty(),
                churn_fold_fn(),
            ),
            distinct_paths(churn_views(acc@)),
        decreases lines@.len() - i,
    {
        proof {
            assert(lv.take(i + 1 as int).drop_last() =~= lv.take(i as int));
            assert(lv.take(i + 1 as int).last() == lv[i as int]);
            assert(lines@[i as int]@ == lv[i as int]);
        }
        let ps = split_whitespace_vec(lines[i].as_str());
        if ps.len() >= 3 {
            match (parse_usize(ps[0].as_str()), parse_usize(ps[1].as_str())) {
                (Some(ins), Some(del)) => {
                    let path = ps[2].clone();
                    bump_churn_exec(&mut acc, path, ins, del);
                },
                _ => {},
            }
        }
        i = i + 1;
    }
    proof {
        assert(lv.take(lines@.len() as int) =~= lv);
        assert(churn_views(acc@) == agg);
    }
    let total = acc.len();

    // Rank by (times changed, first-occurrence index).
    let mut pairs: Vec<(usize, usize)> = Vec::new();
    let mut k: usize = 0;
    while k < acc.len()
        invariant
            churn_views(acc@) == agg,
            k <= acc@.len(),
            pairs@.len() == k,
            forall|q: int|
                0 <= q < k ==> #[trigger] pairs@[q] == (acc@[q].times_changed, q as usize),
        decreases acc@.len() - k,
    {
        pairs.push((acc[k].times_changed, k));
        k = k + 1;
    }
    proof {
        assert(distinct_snd(pairs@));
    }
    let sorted = sort_pairs_desc(&pairs);
    proof {
        assert forall|q: int| 0 <= q < sorted@.len() implies {
            &&& (#[trigger] sorted@[q]).1 < agg.len()
            &&& sorted@[q].0 as int == agg[sorted@[q].1 as int].times_changed
        } by {
            assert(sorted@.contains(sorted@[q])) by {
                assert(0 <= q < sorted@.len() && sorted@[q] == sorted@[q]);
            }
            assert(sorted@.to_multiset().count(sorted@[q]) > 0);
            assert(pairs@.to_multiset().count(sorted@[q]) > 0);
            assert(pairs@.contains(sorted@[q]));
            let w = choose|w: int| 0 <= w < pairs@.len() && pairs@[w] == sorted@[q];
            assert(pairs@[w] == (acc@[w].times_changed, w as usize));
        }
    }

    let m = if sorted.len() < 20 {
        sorted.len()
    } else {
        20
    };
    let mut out: Vec<FileChurn> = Vec::new();
    let mut k2: usize = 0;
    while k2 < m
        invariant
            churn_views(acc@) == agg,
            m <= sorted@.len() == agg.len(),
            m <= 20,
            sorted@.len() < 20 ==> m == sorted@.len(),
            ranked(sorted@),
            forall|q: int|
                0 <= q < sorted@.len() ==> (#[trigger] sorted@[q]).1 < agg.len() && sorted@[q].0
                    as int == agg[sorted@[q].1 as int].times_changed,
            k2 <= m,
            out@.len() == k2,
            forall|q: int|
                0 <= q < k2 ==> #[trigger] out@[q]@ == agg[sorted@[q].1 as int],
        decreases m - k2,
    {
        let idx = sorted[k2].1;
        let e = &acc[idx];
        out.push(
            FileChurn {
                path: e.path.clone(),
                times_changed: e.times_changed,
                total_insertions: e.total_insertions,
                total_deletions: e.total_deletions,
                last_modified: e.last_modified.clone(),
            },
        );
        proof {
            assert(out@[k2 as int]@ == acc@[idx as int]@);
            assert(acc@[idx as int]@ == agg[idx as int]);
        }
        k2 = k2 + 1;
    }

    // Hotspots among the ranked top files.
    let mut hot: Vec<String> = Vec::new();
    let mut h: usize = 0;
    proof {
        assert(churn_views(out@).take(0) =~= Seq::<FileChurnV>::empty());
    }
    while h < out.len()
        invariant
            h <= out@.len(),
            seq_views(hot@) =~~= hotspots_of(churn_views(out@).take(h as int)),
        decreases out@.len() - h,
    {
        let ghost prefix = churn_views(out@).take(h as int);
        proof {
            assert(churn_views(out@).take(h + 1 as int).drop_last() =~= prefix);
            assert(churn_views(out@).take(h + 1 as int).last() == out@[h as int]@);
        }
        if out[h].times_changed > 5 {
            hot.push(out[h].path.clone());
            proof {
                assert(seq_views(hot@) =~~= hotspots_of(churn_views(out@).take(h + 1 as int)));
            }
        } else {
            proof {
                assert(seq_views(hot@) =~~= hotspots_of(churn_views(out@).take(h + 1 as int)));
            }
        }
        h = h + 1;
    }
    proof {
        assert(churn_views(out@).take(out@.len() as int) =~= churn_views(out@));
    }

    // The ensured ranking facts, derived from the sorted pairs.
    proof {
        let ghost ov = churn_views(out@);
        assert(ov.len() == m);
        assert forall|k: int| 0 <= k < out@.len() implies {
            let e = #[trigger] out@[k]@;
            let t = idx_of_path(agg, e.path);
            0 <= t < agg.len() && agg[t] == e && t == sorted@[k].1 as int
        } by {
            assert(out@[k]@ == agg[sorted@[k].1 as int]);
            lemma_idx_of_path_self(agg, sorted@[k].1 as int);
        }
        assert forall|q1: int, q2: int| 0 <= q1 < q2 < m implies (#[trigger] ov[q1]).path != (
        #[trigger] ov[q2]).path by {
            assert(pair_before(sorted@[q1], sorted@[q2]));
            assert(ov[q1] == out@[q1]@);
            assert(ov[q2] == out@[q2]@);
            if sorted@[q1].1 != sorted@[q2].1 {
                lemma_idx_of_path_self(agg, sorted@[q1].1 as int);
                lemma_idx_of_path_self(agg, sorted@[q2].1 as int);
            }
        }
        assert forall|k1: int, k2: int| 0 <= k1 < k2 < out@.len() implies churn_rank_before(
            #[trigger] out@[k1]@,
            idx_of_path(agg, out@[k1]@.path),
            #[trigger] out@[k2]@,
            idx_of_path(agg, out@[k2]@.path),
        ) by {
            assert(pair_before(sorted@[k1], sorted@[k2]));
            lemma_idx_of_path_self(agg, sorted@[k1].1 as int);
            lemma_idx_of_path_self(agg, sorted@[k2].1 as int);
        }
        assert forall|t: int, k: int|
            0 <= t < agg.len() && 0 <= k < out@.len() && !path_in(ov, agg[t].path) implies
            churn_rank_before(
            #[trigger] out@[k]@,
            idx_of_path(agg, out@[k]@.path),
            #[trigger] agg[t],
            t,
        ) by {
            // the pair of agg[t] sits in `sorted` beyond position m
            assert(pairs@[t] == (acc@[t].times_changed, t as usize));
            assert(pairs@.contains(pairs@[t])) by {
                assert(0 <= t < pairs@.len() && pairs@[t] == pairs@[t]);
            }
            assert(pairs@.to_multiset().count(pairs@[t]) > 0);
            assert(sorted@.to_multiset().count(pairs@[t]) > 0);
            assert(sorted@.contains(pairs@[t]));
            let w = choose|w: int| 0 <= w < sorted@.len() && sorted@[w] == pairs@[t];
            assert(sorted@[w].1 as int == t);
            if w < m {
                assert(ov[w] == out@[w]@);
                assert(out@[w]@ == agg[t]);
                assert(path_in(ov, agg[t].path)) by {
                    assert(0 <= w < ov.len() && ov[w].path == agg[t].path);
                }
            }
            assert(w >= m);
            assert(pair_before(sorted@[k], sorted@[w]));
            lemma_idx_of_path_self(agg, sorted@[k].1 as int);
        }
    }

    CodeChurn { most_changed_files: out, total_files_ever_changed: total, hotspots: hot }
}

} // verus!
