//! Contributor insights, in two passes: a lightweight `name|email` log gives
//! per-email commit counts (email is the de-duplication key, the display
//! name is the first one seen); a per-contributor stats log then gives
//! lines added and deleted, files touched, first and last activity, and a
//! weighted impact score.

use vstd::prelude::*;
use crate::keyed::{bump_by, lemma_bump_by_absent, lemma_bump_by_found};
use crate::sat_add;
use crate::sat_add_usize;
use crate::sat_mul;
use crate::sat_mul_usize;
use crate::text::{
    has_char, lines_of, parse_usize, parsed_usize, seq_views, split_char, split_lines, split_on,
    split_whitespace_vec, split_ws, str_contains_char, trim_spec, trim_str, usize_parsable,
};

verus! {

/// One contributor of the first pass: email key, first-seen display name,
/// commits in the window.
#[derive(Clone, Debug)]
pub struct ContributorCount {
    pub name: String,
    pub email: String,
    pub commits: usize,
}

/// The mathematical image of a [`ContributorCount`].
pub ghost struct ContributorCountV {
    pub name: Seq<char>,
    pub email: Seq<char>,
    pub commits: int,
}

impl View for ContributorCount {
    type V = ContributorCountV;

    open spec fn view(&self) -> ContributorCountV {
        ContributorCountV { name: self.name@, email: self.email@, commits: self.commits as int }
    }
}

pub open spec fn contrib_views(s: Seq<ContributorCount>) -> Seq<ContributorCountV> {
    s.map_values(|c: ContributorCount| c@)
}

pub open spec fn contrib_key_fn() -> spec_fn(ContributorCountV) -> Seq<char> {
    |c: ContributorCountV| c.email
}

pub open spec fn contrib_merge_fn() -> spec_fn(ContributorCountV) -> ContributorCountV {
    |c: ContributorCountV|
        ContributorCountV { name: c.name, email: c.email, commits: sat_add(c.commits, 1) }
}

/// Count one `(name, email)` sighting: the entry keyed by that email gains a
/// commit (its name stays as first seen); a new email opens a new entry.
pub open spec fn bump_contrib(
    acc: Seq<ContributorCountV>,
    name: Seq<char>,
    email: Seq<char>,
) -> Seq<ContributorCountV> {
    bump_by(
        acc,
        contrib_key_fn(),
        email,
        ContributorCountV { name, email, commits: 1 },
        contrib_merge_fn(),
    )
}

pub open spec fn contrib_fold_fn() -> spec_fn(Seq<ContributorCountV>, Seq<char>) -> Seq<
    ContributorCountV,
> {
    |acc: Seq<ContributorCountV>, l: Seq<char>|
        {
            let ps = split_on(l, '|');
            if ps.len() >= 2 {
                bump_contrib(acc, trim_spec(ps[0]), trim_spec(ps[1]))
            } else {
                acc
            }
        }
}

/// The contributor counts of a `name|email` log, keyed by email in
/// first-occurrence order.
pub open spec fn contrib_counts_of(s: Seq<char>) -> Seq<ContributorCountV> {
    lines_of(s).fold_left(Seq::<ContributorCountV>::empty(), contrib_fold_fn())
}

/// Pairwise-distinct email keys.
pub open spec fn distinct_emails(s: Seq<ContributorCountV>) -> bool {
    forall|i: int, j: int|
        0 <= i < j < s.len() ==> (#[trigger] s[i]).email != (#[trigger] s[j]).email
}

fn bump_contrib_exec(v: &mut Vec<ContributorCount>, name: String, email: String)
    ensures
        contrib_views(final(v)@) == bump_contrib(contrib_views(old(v)@), name@, email@),
        distinct_emails(contrib_views(old(v)@)) ==> distinct_emails(contrib_views(final(v)@)),
{
    let n = v.len();
    let mut j: usize = 0;
    while j < n
        invariant
            n == v@.len(),
            j <= n,
            v@ == old(v)@,
            forall|i: int| 0 <= i < j ==> #[trigger] v@[i].email@ != email@,
        decreases n - j,
    {
        if v[j].email == email {
            let c = v[j].commits;
            let kept_name = v[j].name.clone();
            let ghost before = contrib_views(v@);
            v.set(
                j,
                ContributorCount { name: kept_name, email, commits: sat_add_usize(c, 1) },
            );
            proof {
                assert(forall|i: int|
                    0 <= i < j ==> contrib_key_fn()(#[trigger] before[i]) != email@);
                assert(contrib_key_fn()(before[j as int]) == email@);
                lemma_bump_by_found(
                    before,
                    contrib_key_fn(),
                    email@,
                    ContributorCountV { name: name@, email: email@, commits: 1 },
                    contrib_merge_fn(),
                    j as int,
                );
                assert(contrib_views(v@) =~= before.update(
                    j as int,
                    contrib_merge_fn()(before[j as int]),
                ));
            }
            return;
        }
        j = j + 1;
    }
    let ghost before = contrib_views(v@);
    v.push(ContributorCount { name, email, commits: 1 });
    proof {
        assert(forall|i: int|
            0 <= i < before.len() ==> contrib_key_fn()(#[trigger] before[i]) != email@);
        lemma_bump_by_absent(
            before,
            contrib_key_fn(),
            email@,
            ContributorCountV { name: name@, email: email@, commits: 1 },
            contrib_merge_fn(),
        );
        assert(contrib_views(v@) =~= before.push(
            ContributorCountV { name: name@, email: email@, commits: 1 },
        ));
    }
}

/// First pass of contributor insights: fold every `name|email` line into
/// per-email counts. The result's emails are pairwise distinct — two
/// sightings that share an email always land in one entry.
pub fn count_contributor_commits(log_output: &str) -> (r: Vec<ContributorCount>)
    ensures
        contrib_views(r@) == contrib_counts_of(log_output@),
        distinct_emails(contrib_views(r@)),
{
    let lines = split_lines(log_output);
    let ghost lv = lines_of(log_output@);
    let mut r: Vec<ContributorCount> = Vec::new();
    let mut i: usize = 0;
    proof {
        assert(lv.take(0) =~= Seq::<Seq<char>>::empty());
    }
    while i < lines.len()
        invariant
            seq_views(lines@) == lv,
            i <= lines@.len(),
            contrib_views(r@) == lv.take(i as int).fold_left(
                Seq::<ContributorCountV>::empty(),
                contrib_fold_fn(),
            ),
            distinct_emails(contrib_views(r@)),
        decreases lines@.len() - i,
    {
        proof {
            assert(lv.take(i + 1 as int).drop_last() =~= lv.take(i as int));
            assert(lv.take(i + 1 as int).last() == lv[i as int]);
            assert(lines@[i as int]@ == lv[i as int]);
        }
        let parts = split_char(lines[i].as_str(), '|');
        if parts.len() >= 2 {
            let name = trim_str(parts[0].as_str());
            let email = trim_str(parts[1].as_str());
            bump_contrib_exec(&mut r, name, email);
        }
        i = i + 1;
    }
    proof {
        assert(lv.take(lines@.len() as int) =~= lv);
    }
    r
}

/// Whether some entry of `acc` is keyed by `e`.
pub open spec fn has_email(acc: Seq<ContributorCountV>, e: Seq<char>) -> bool {
    exists|i: int| 0 <= i < acc.len() && (#[trigger] acc[i]).email == e
}

proof fn lemma_bump_contrib_distinct(acc: Seq<ContributorCountV>, name: Seq<char>, email: Seq<char>)
    requires
        distinct_emails(acc),
    ensures
        distinct_emails(bump_contrib(acc, name, email)),
        forall|q: int|
            0 <= q < bump_contrib(acc, name, email).len() ==> (#[trigger] bump_contrib(
                acc,
                name,
                email,
            )[q]).email == email || has_email(acc, bump_contrib(acc, name, email)[q].email),
    decreases acc.len(),
{
    let r = bump_contrib(acc, name, email);
    if acc.len() == 0 {
        assert(r =~= seq![ContributorCountV { name, email, commits: 1 }]);
    } else if acc[0].email == email {
        assert(r == seq![contrib_merge_fn()(acc[0])] + acc.skip(1));
        assert forall|i: int, j: int| 0 <= i < j < r.len() implies (#[trigger] r[i]).email != (
        #[trigger] r[j]).email by {
            assert(r[i].email == acc[i].email);
            assert(r[j].email == acc[j].email);
        }
        assert forall|q: int| 0 <= q < r.len() implies (#[trigger] r[q]).email == email
            || has_email(acc, r[q].email) by {
            assert(r[q].email == acc[q].email);
            assert(has_email(acc, acc[q].email)) by {
                assert(0 <= q < acc.len() && acc[q].email == acc[q].email);
            }
        }
    } else {
        assert(distinct_emails(acc.skip(1))) by {
            assert(forall|i: int, j: int|
                0 <= i < j < acc.skip(1).len() ==> (#[trigger] acc.skip(1)[i]).email != (
                #[trigger] acc.skip(1)[j]).email);
        }
        lemma_bump_contrib_distinct(acc.skip(1), name, email);
        let rt = bump_contrib(acc.skip(1), name, email);
        assert(r == seq![acc[0]] + rt);
        assert forall|q: int| 0 <= q < r.len() implies (#[trigger] r[q]).email == email
            || has_email(acc, r[q].email) by {
            if q == 0 {
                assert(has_email(acc, acc[0].email)) by {
                    assert(0 <= 0 < acc.len() && acc[0].email == acc[0].email);
                }
            } else {
                assert(r[q] == rt[q - 1]);
                if rt[q - 1].email != email {
                    assert(has_email(acc.skip(1), rt[q - 1].email));
                    let w = choose|w: int|
                        0 <= w < acc.skip(1).len() && (#[trigger] acc.skip(1)[w]).email == rt[q
                            - 1].email;
                    assert(acc[w + 1].email == rt[q - 1].email);
                    assert(has_email(acc, rt[q - 1].email)) by {
                        assert(0 <= w + 1 < acc.len() && acc[w + 1].email == rt[q - 1].email);
                    }
                }
            }
        }
        assert forall|i: int, j: int| 0 <= i < j < r.len() implies (#[trigger] r[i]).email != (
        #[trigger] r[j]).email by {
            if i == 0 {
                // the head's email is neither `email` nor any tail email
                assert(r[j] == rt[j - 1]);
                if rt[j - 1].email == email {
                    assert(acc[0].email != email);
                } else {
                    assert(has_email(acc.skip(1), rt[j - 1].email));
                    let w = choose|w: int|
                        0 <= w < acc.skip(1).len() && (#[trigger] acc.skip(1)[w]).email == rt[j
                            - 1].email;
                    assert(acc[w + 1].email == rt[j - 1].email);
                    assert(acc[0].email != acc[w + 1].email);
                }
            } else {
                assert(r[i] == rt[i - 1]);
                assert(r[j] == rt[j - 1]);
            }
        }
    }
}

proof fn lemma_contrib_fold_distinct(lines: Seq<Seq<char>>)
    ensures
        distinct_emails(
            lines.fold_left(Seq::<ContributorCountV>::empty(), contrib_fold_fn()),
        ),
    decreases lines.len(),
{
    if lines.len() == 0 {
    } else {
        lemma_contrib_fold_distinct(lines.drop_last());
        let prev = lines.drop_last().fold_left(
            Seq::<ContributorCountV>::empty(),
            contrib_fold_fn(),
        );
        let l = lines.last();
        let ps = split_on(l, '|');
        if ps.len() >= 2 {
            lemma_bump_contrib_distinct(prev, trim_spec(ps[0]), trim_spec(ps[1]));
        }
    }
}

/// Two sightings that share an email always land in one contributor entry:
/// for any `name|email` log, the contributor counts are keyed by pairwise
/// distinct emails, whatever display names the sightings carried.
pub proof fn lemma_contributor_emails_distinct(s: Seq<char>)
    ensures
        distinct_emails(contrib_counts_of(s)),
{
    lemma_contrib_fold_distinct(lines_of(s));
}

// ---------------------------------------------------------------------------
// Second pass: per-contributor stats
// ---------------------------------------------------------------------------

/// Accumulated stats of one contributor's log: a line holding both `-` and
/// `:` is taken for a date line (the last one seen becomes the first
/// activity, the first one the last activity — the log is newest-first);
/// other lines with two leading parsable counts accumulate.
pub ghost struct ContribStats {
    pub lines_added: int,
    pub lines_deleted: int,
    pub files_modified: int,
    pub first_date: Seq<char>,
    pub last_date: Seq<char>,
}

pub open spec fn contrib_stats_init() -> ContribStats {
    ContribStats {
        lines_added: 0,
        lines_deleted: 0,
        files_modified: 0,
        first_date: Seq::empty(),
        last_date: Seq::empty(),
    }
}

pub open spec fn contrib_stats_step(st: ContribStats, l: Seq<char>) -> ContribStats {
    if has_char(l, '-') && has_char(l, ':') {
        ContribStats {
            lines_added: st.lines_added,
            lines_deleted: st.lines_deleted,
            files_modified: st.files_modified,
            first_date: l,
            last_date: if st.last_date.len() == 0 {
                l
            } else {
                st.last_date
            },
        }
    } else {
        let ps = split_ws(l);
        if ps.len() >= 2 && usize_parsable(ps[0]) && usize_parsable(ps[1]) {
            ContribStats {
                lines_added: sat_add(st.lines_added, parsed_usize(ps[0])),
                lines_deleted: sat_add(st.lines_deleted, parsed_usize(ps[1])),
                files_modified: sat_add(st.files_modified, 1),
                first_date: st.first_date,
                last_date: st.last_date,
            }
        } else {
            st
        }
    }
}

pub open spec fn contrib_stats_fn() -> spec_fn(ContribStats, Seq<char>) -> ContribStats {
    |st: ContribStats, l: Seq<char>| contrib_stats_step(st, l)
}

/// The stats of one contributor's whole log output.
pub open spec fn contrib_stats_of(s: Seq<char>) -> ContribStats {
    lines_of(s).fold_left(contrib_stats_init(), contrib_stats_fn())
}

/// The impact score in tenths of a point:
/// `commits*10 + lines_added*0.1 + files*0.5`, scaled by ten and saturated.
pub open spec fn impact_score_tenths_spec(commits: int, lines_added: int, files: int) -> int {
    sat_add(sat_add(sat_mul(commits, 100), lines_added), sat_mul(files, 5))
}

/// One contributor's insight record. `impact_score_tenths` holds the
/// weighted impact score scaled by ten, so it stays an exact integer.
#[derive(Clone, Debug)]
pub struct ContributorInsight {
    pub name: String,
    pub email: String,
    pub total_commits: usize,
    pub first_commit_date: String,
    pub last_commit_date: String,
    pub lines_added: usize,
    pub lines_deleted: usize,
    pub files_modified: usize,
    pub impact_score_tenths: usize,
}

/// Second pass of contributor insights: fold one contributor's stats log
/// into the insight record.
pub fn analyze_contributor(
    stats_output: &str,
    name: &str,
    email: &str,
    commits_count: usize,
) -> (r: ContributorInsight)
    ensures
        r.name@ == name@,
        r.email@ == email@,
        r.total_commits == commits_count,
        r.lines_added as int == contrib_stats_of(stats_output@).lines_added,
        r.lines_deleted as int == contrib_stats_of(stats_output@).lines_deleted,
        r.files_modified as int == contrib_stats_of(stats_output@).files_modified,
        r.first_commit_date@ == contrib_stats_of(stats_output@).first_date,
        r.last_commit_date@ == contrib_stats_of(stats_output@).last_date,
        r.impact_score_tenths as int == impact_score_tenths_spec(
            commits_count as int,
            contrib_stats_of(stats_output@).lines_added,
            contrib_stats_of(stats_output@).files_modified,
        ),
{
    let lines = split_lines(stats_output);
    let ghost lv = lines_of(stats_output@);
    let mut lines_added: usize = 0;
    let mut lines_deleted: usize = 0;
    let mut files_modified: usize = 0;
    let mut first_date = String::new();
    let mut last_date = String::new();
    let mut i: usize = 0;
    proof {
        assert(lv.take(0) =~= Seq::<Seq<char>>::empty());
    }
    while i < lines.len()
        invariant
            seq_views(lines@) == lv,
            i <= lines@.len(),
            lines_added as int == lv.take(i as int).fold_left(
                contrib_stats_init(),
                contrib_stats_fn(),
            ).lines_added,
            lines_deleted as int == lv.take(i as int).fold_left(
                contrib_stats_init(),
                contrib_stats_fn(),
            ).lines_deleted,
            files_modified as int == lv.take(i as int).fold_left(
                contrib_stats_init(),
                contrib_stats_fn(),
            ).files_modified,
            first_date@ == lv.take(i as int).fold_left(
                contrib_stats_init(),
                contrib_stats_fn(),
            ).first_date,
            last_date@ == lv.take(i as int).fold_left(
                contrib_stats_init(),
                contrib_stats_fn(),
            ).last_date,
        decreases lines@.len() - i,
    {
        proof {
            assert(lv.take(i + 1 as int).drop_last() =~= lv.take(i as int));
            assert(lv.take(i + 1 as int).last() == lv[i as int]);
            assert(lines@[i as int]@ == lv[i as int]);
        }
        let line = &lines[i];
        if str_contains_char(line.as_str(), '-') && str_contains_char(line.as_str(), ':') {
            if last_date.as_str().unicode_len() == 0 {
                last_date = line.clone();
            }
            first_date = line.clone();
        } else {
            let ps = split_whitespace_vec(line.as_str());
            if ps.len() >= 2 {
                match (parse_usize(ps[0].as_str()), parse_usize(ps[1].as_str())) {
                    (Some(ins), Some(del)) => {
                        lines_added = sat_add_usize(lines_added, ins);
                        lines_deleted = sat_add_usize(lines_deleted, del);
                        files_modified = sat_add_usize(files_modified, 1);
                    },
                    _ => {},
                }
            }
        }
        i = i + 1;
    }
    proof {
        assert(lv.take(lines@.len() as int) =~= lv);
    }
    let score = sat_add_usize(
        sat_add_usize(sat_mul_usize(commits_count, 100), lines_added),
        sat_mul_usize(files_modified, 5),
    );
    ContributorInsight {
        name: name.to_owned(),
        email: email.to_owned(),
        total_commits: commits_count,
        first_commit_date: first_date,
        last_commit_date: last_date,
        lines_added,
        lines_deleted,
        files_modified,
        impact_score_tenths: score,
    }
}

} // verus!
