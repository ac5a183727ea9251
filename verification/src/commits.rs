//! Commit records and the log parser: one pipe-delimited header line per
//! commit (`hash|author|email|date|subject`) followed by any number of
//! whitespace-delimited numeric stat lines (`insertions deletions path`).

use vstd::prelude::*;
use crate::sat_add;
use crate::sat_add_usize;
use crate::text::{
    has_char, is_digit_char, join_pipe, join_with_pipe, parse_usize, parsed_usize, seq_views,
    split_char, split_lines, split_on, split_whitespace_vec, split_ws, starts_with_digit,
    str_contains_char, lines_of, usize_parsable,
};

verus! {

/// One parsed commit: the header fields, plus per-file stats accumulated
/// from the numeric stat lines that follow the header.
#[derive(Clone, Debug)]
pub struct CommitInfo {
    pub hash: String,
    pub author: String,
    pub email: String,
    pub date: String,
    pub message: String,
    pub files_changed: usize,
    pub insertions: usize,
    pub deletions: usize,
}

/// The mathematical image of a [`CommitInfo`].
pub ghost struct CommitInfoV {
    pub hash: Seq<char>,
    pub author: Seq<char>,
    pub email: Seq<char>,
    pub date: Seq<char>,
    pub message: Seq<char>,
    pub files_changed: int,
    pub insertions: int,
    pub deletions: int,
}

impl View for CommitInfo {
    type V = CommitInfoV;

    open spec fn view(&self) -> CommitInfoV {
        CommitInfoV {
            hash: self.hash@,
            author: self.author@,
            email: self.email@,
            date: self.date@,
            message: self.message@,
            files_changed: self.files_changed as int,
            insertions: self.insertions as int,
            deletions: self.deletions as int,
        }
    }
}

/// The views of a vector of commits.
pub open spec fn commit_views(s: Seq<CommitInfo>) -> Seq<CommitInfoV> {
    s.map_values(|c: CommitInfo| c@)
}

pub open spec fn opt_commit_view(c: Option<CommitInfo>) -> Option<CommitInfoV> {
    match c {
        Some(x) => Some(x@),
        None => None,
    }
}

/// A line is taken for a commit header when it contains a pipe and does not
/// start with a digit. (A hash that begins with a digit therefore fails the
/// test and that commit is dropped: this mirrors the documented framing
/// heuristic of the log format.)
pub open spec fn is_header_line(l: Seq<char>) -> bool {
    has_char(l, '|') && !(l.len() > 0 && is_digit_char(l[0]))
}

/// The commit a header line opens: `None` when it has fewer than five
/// pipe-separated fields; the subject may itself contain pipes, so the
/// fifth and following pieces are joined back together.
pub open spec fn header_commit(l: Seq<char>) -> Option<CommitInfoV> {
    let parts = split_on(l, '|');
    if parts.len() >= 5 {
        Some(
            CommitInfoV {
                hash: parts[0],
                author: parts[1],
                email: parts[2],
                date: parts[3],
                message: join_pipe(parts.skip(4)),
                files_changed: 0,
                insertions: 0,
                deletions: 0,
            },
        )
    } else {
        None
    }
}

/// The (insertions, deletions) of a stat line, or `None` when the line has
/// fewer than three whitespace-separated fields or either count fails to
/// parse (a binary-file marker has `-` in both count fields).
pub open spec fn stat_line_counts(l: Seq<char>) -> Option<(int, int)> {
    let ps = split_ws(l);
    if ps.len() >= 3 && usize_parsable(ps[0]) && usize_parsable(ps[1]) {
        Some((parsed_usize(ps[0]), parsed_usize(ps[1])))
    } else {
        None
    }
}

/// One counted stat line folded into the current commit.
pub open spec fn add_stat(c: CommitInfoV, ins: int, del: int) -> CommitInfoV {
    CommitInfoV {
        hash: c.hash,
        author: c.author,
        email: c.email,
        date: c.date,
        message: c.message,
        files_changed: sat_add(c.files_changed, 1),
        insertions: sat_add(c.insertions, ins),
        deletions: sat_add(c.deletions, del),
    }
}

/// The parser state: finished commits, and the commit whose stat lines are
/// still being consumed.
pub ghost struct LogAcc {
    pub commits: Seq<CommitInfoV>,
    pub cur: Option<CommitInfoV>,
}

/// One line of log output applied to the parser state. A header line closes
/// the current commit and opens a new one; a counted stat line accumulates
/// into the current commit; anything else—including a numeric-looking line
/// before any header—is discarded.
pub open spec fn log_step(st: LogAcc, l: Seq<char>) -> LogAcc {
    if is_header_line(l) {
        let done = match st.cur {
            Some(c) => st.commits.push(c),
            None => st.commits,
        };
        LogAcc { commits: done, cur: header_commit(l) }
    } else {
        match st.cur {
            Some(c) => match stat_line_counts(l) {
                Some(nums) => LogAcc { commits: st.commits, cur: Some(add_stat(c, nums.0, nums.1)) },
                None => st,
            },
            None => st,
        }
    }
}

pub open spec fn log_step_fn() -> spec_fn(LogAcc, Seq<char>) -> LogAcc {
    |st: LogAcc, l: Seq<char>| log_step(st, l)
}

pub open spec fn log_acc_init() -> LogAcc {
    LogAcc { commits: Seq::empty(), cur: None }
}

/// The parser state after all lines of `s`.
pub open spec fn log_acc_of(s: Seq<char>) -> LogAcc {
    lines_of(s).fold_left(log_acc_init(), log_step_fn())
}

/// All commits parsed from a log text, in order of appearance.
pub open spec fn parse_log_spec(s: Seq<char>) -> Seq<CommitInfoV> {
    let st = log_acc_of(s);
    match st.cur {
        Some(c) => st.commits.push(c),
        None => st.commits,
    }
}

/// Parse a log text into commits: each header line opens a commit and the
/// counted stat lines after it accumulate into `files_changed`,
/// `insertions` and `deletions`.
pub fn parse_git_log_with_stats(log_output: &str) -> (r: Vec<CommitInfo>)
    ensures
        commit_views(r@) == parse_log_spec(log_output@),
{
    let lines = split_lines(log_output);
    let ghost lv = lines_of(log_output@);
    let mut commits: Vec<CommitInfo> = Vec::new();
    let mut cur: Option<CommitInfo> = None;
    let mut i: usize = 0;
    proof {
        assert(lv.take(0) =~= Seq::<Seq<char>>::empty());
    }
    while i < lines.len()
        invariant
            seq_views(lines@) == lv,
            i <= lines@.len(),
            commit_views(commits@) == lv.take(i as int).fold_left(
                log_acc_init(),
                log_step_fn(),
            ).commits,
            opt_commit_view(cur) == lv.take(i as int).fold_left(
                log_acc_init(),
                log_step_fn(),
            ).cur,
        decreases lines@.len() - i,
    {
        let ghost st0 = lv.take(i as int).fold_left(log_acc_init(), log_step_fn());
        proof {
            assert(lv.take(i + 1 as int).drop_last() =~= lv.take(i as int));
            assert(lv.take(i + 1 as int).last() == lv[i as int]);
            assert(lv.take(i + 1 as int).fold_left(log_acc_init(), log_step_fn()) == log_step(
                st0,
                lv[i as int],
            ));
        }
        let line = &lines[i];
        let has_pipe = str_contains_char(line.as_str(), '|');
        let digit0 = starts_with_digit(line.as_str());
        if has_pipe && !digit0 {
            let prev = cur;
            cur = None;
            match prev {
                Some(c) => {
                    commits.push(c);
                    proof {
                        assert(commit_views(commits@) =~= st0.commits.push(c@));
                    }
                },
                None => {},
            }
            let parts = split_char(line.as_str(), '|');
            if parts.len() >= 5 {
                let message = join_with_pipe(&parts, 4);
                proof {
                    assert(seq_views(parts@).skip(4) == split_on(lv[i as int], '|').skip(4));
                }
                cur = Some(
                    CommitInfo {
                        hash: parts[0].clone(),
                        author: parts[1].clone(),
                        email: parts[2].clone(),
                        date: parts[3].clone(),
                        message,
                        files_changed: 0,
                        insertions: 0,
                        deletions: 0,
                    },
                );
            }
        } else {
            if cur.is_some() {
                let ps = split_whitespace_vec(line.as_str());
                if ps.len() >= 3 {
                    let ins_o = parse_usize(ps[0].as_str());
                    let del_o = parse_usize(ps[1].as_str());
                    match (ins_o, del_o) {
                        (Some(ins), Some(del)) => {
                            let prev = cur;
                            cur = None;
                            match prev {
                                Some(c) => {
                                    let mut c2 = c;
                                    c2.insertions = sat_add_usize(c2.insertions, ins);
                                    c2.deletions = sat_add_usize(c2.deletions, del);
                                    c2.files_changed = sat_add_usize(c2.files_changed, 1);
                                    cur = Some(c2);
                                },
                                None => {},
                            }
                        },
                        _ => {},
                    }
                }
            }
        }
        i = i + 1;
    }
    proof {
        assert(lv.take(lines@.len() as int) =~= lv);
    }
    match cur {
        Some(c) => {
            commits.push(c);
            proof {
                assert(commit_views(commits@) =~= log_acc_of(log_output@).commits.push(c@));
            }
        },
        None => {},
    }
    commits
}

} // verus!
