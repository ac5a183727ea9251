//! Architectural-decision detection: keyword-tagged commit lines
//! (`hash|iso-date|author|subject`) become decision records, with an impact
//! tier read off the subject. A commit matching several keywords yields one
//! record per keyword, by design.

use vstd::prelude::*;
use crate::text::{
    contains_ci, lines_of, pair_views, seq_views, split_char, split_lines, split_on,
    str_contains_ci,
};

verus! {

/// One detected decision commit.
#[derive(Clone, Debug)]
pub struct ArchitecturalDecision {
    pub commit_hash: String,
    pub date: String,
    pub author: String,
    pub message: String,
    pub decision_type: String,
    pub impact: String,
}

/// The mathematical image of an [`ArchitecturalDecision`].
pub ghost struct ArchitecturalDecisionV {
    pub commit_hash: Seq<char>,
    pub date: Seq<char>,
    pub author: Seq<char>,
    pub message: Seq<char>,
    pub decision_type: Seq<char>,
    pub impact: Seq<char>,
}

impl View for ArchitecturalDecision {
    type V = ArchitecturalDecisionV;

    open spec fn view(&self) -> ArchitecturalDecisionV {
        ArchitecturalDecisionV {
            commit_hash: self.commit_hash@,
            date: self.date@,
            author: self.author@,
            message: self.message@,
            decision_type: self.decision_type@,
            impact: self.impact@,
        }
    }
}

pub open spec fn decision_views(s: Seq<ArchitecturalDecision>) -> Seq<ArchitecturalDecisionV> {
    s.map_values(|d: ArchitecturalDecision| d@)
}

pub open spec fn opt_decision_view(d: Option<ArchitecturalDecision>) -> Option<
    ArchitecturalDecisionV,
> {
    match d {
        Some(x) => Some(x@),
        None => None,
    }
}

/// Impact tier of a subject: "high" when it mentions breaking or major
/// work, "low" for minor work or fixes, "medium" otherwise — all matched
/// case-insensitively.
pub open spec fn impact_of(msg: Seq<char>) -> Seq<char> {
    if contains_ci(msg, "breaking"@) || contains_ci(msg, "major"@) {
        "high"@
    } else if contains_ci(msg, "minor"@) || contains_ci(msg, "fix"@) {
        "low"@
    } else {
        "medium"@
    }
}

/// One keyword-tagged commit line: `None` when it has fewer than four
/// pipe-separated fields. The fourth field is the subject; text after a
/// fourth pipe is not part of it.
pub open spec fn parse_decision_spec(l: Seq<char>, kw: Seq<char>) -> Option<
    ArchitecturalDecisionV,
> {
    let parts = split_on(l, '|');
    if parts.len() < 4 {
        None
    } else {
        Some(
            ArchitecturalDecisionV {
                commit_hash: parts[0],
                date: parts[1],
                author: parts[2],
                message: parts[3],
                decision_type: kw,
                impact: impact_of(parts[3]),
            },
        )
    }
}

/// Parse one keyword-tagged commit line into a decision record.
pub fn parse_architectural_decision(line: &str, keyword: &str) -> (r: Option<
    ArchitecturalDecision,
>)
    ensures
        opt_decision_view(r) == parse_decision_spec(line@, keyword@),
{
    let parts = split_char(line, '|');
    if parts.len() < 4 {
        return None;
    }
    let message = parts[3].clone();
    let impact: &str;
    if str_contains_ci(message.as_str(), "breaking") || str_contains_ci(message.as_str(), "major") {
        impact = "high";
    } else if str_contains_ci(message.as_str(), "minor") || str_contains_ci(
        message.as_str(),
        "fix",
    ) {
        impact = "low";
    } else {
        impact = "medium";
    }
    Some(
        ArchitecturalDecision {
            commit_hash: parts[0].clone(),
            date: parts[1].clone(),
            author: parts[2].clone(),
            message,
            decision_type: keyword.to_owned(),
            impact: impact.to_owned(),
        },
    )
}

/// A decision whose subject mentions breaking work is always tiered "high",
/// under whichever keyword's scan it was found — a commit matching several
/// keywords yields one such record per keyword.
pub proof fn lemma_breaking_subject_is_high(l: Seq<char>, kw: Seq<char>)
    requires
        parse_decision_spec(l, kw) is Some,
        contains_ci(split_on(l, '|')[3], "breaking"@),
    ensures
        parse_decision_spec(l, kw).unwrap().impact == "high"@,
        parse_decision_spec(l, kw).unwrap().decision_type == kw,
{
}

/// The fixed keyword set scanned for, in scan order.
pub open spec fn decision_keywords_spec() -> Seq<Seq<char>> {
    seq!["refactor"@, "migrate"@, "architecture"@, "deprecate"@, "breaking"@, "redesign"@]
}

/// The fixed keyword set scanned for, in scan order.
pub fn decision_keywords() -> (r: Vec<String>)
    ensures
        seq_views(r@) == decision_keywords_spec(),
{
    let mut r: Vec<String> = Vec::new();
    r.push("refactor".to_owned());
    r.push("migrate".to_owned());
    r.push("architecture".to_owned());
    r.push("deprecate".to_owned());
    r.push("breaking".to_owned());
    r.push("redesign".to_owned());
    proof {
        assert(seq_views(r@) =~~= decision_keywords_spec());
    }
    r
}

pub open spec fn decision_fold_fn(kw: Seq<char>) -> spec_fn(
    Seq<ArchitecturalDecisionV>,
    Seq<char>,
) -> Seq<ArchitecturalDecisionV> {
    |acc: Seq<ArchitecturalDecisionV>, l: Seq<char>|
        match parse_decision_spec(l, kw) {
            Some(d) => acc.push(d),
            None => acc,
        }
}

/// The decisions of one keyword's query output, in line order.
pub open spec fn decisions_of_output(kw: Seq<char>, out: Seq<char>) -> Seq<
    ArchitecturalDecisionV,
> {
    lines_of(out).fold_left(Seq::<ArchitecturalDecisionV>::empty(), decision_fold_fn(kw))
}

pub open spec fn decisions_concat_fn() -> spec_fn(
    Seq<ArchitecturalDecisionV>,
    (Seq<char>, Seq<char>),
) -> Seq<ArchitecturalDecisionV> {
    |acc: Seq<ArchitecturalDecisionV>, p: (Seq<char>, Seq<char>)| acc + decisions_of_output(
        p.0,
        p.1,
    )
}

/// All decisions of a sequence of (keyword, query output) pairs, keyword by
/// keyword.
pub open spec fn decisions_of(pairs: Seq<(Seq<char>, Seq<char>)>) -> Seq<ArchitecturalDecisionV> {
    pairs.fold_left(Seq::<ArchitecturalDecisionV>::empty(), decisions_concat_fn())
}

/// Collect the decision records of every (keyword, query output) pair, in
/// pair order and line order.
pub fn find_architectural_decisions(outputs: &Vec<(String, String)>) -> (r: Vec<
    ArchitecturalDecision,
>)
    ensures
        decision_views(r@) == decisions_of(pair_views(outputs@)),
{
    let ghost pv = pair_views(outputs@);
    let mut r: Vec<ArchitecturalDecision> = Vec::new();
    let mut i: usize = 0;
    proof {
        assert(pv.take(0) =~= Seq::<(Seq<char>, Seq<char>)>::empty());
    }
    while i < outputs.len()
        invariant
            pv == pair_views(outputs@),
            i <= outputs@.len(),
            decision_views(r@) =~~= pv.take(i as int).fold_left(
                Seq::<ArchitecturalDecisionV>::empty(),
                decisions_concat_fn(),
            ),
        decreases outputs@.len() - i,
    {
        let ghost acc0 = pv.take(i as int).fold_left(
            Seq::<ArchitecturalDecisionV>::empty(),
            decisions_concat_fn(),
        );
        proof {
            assert(pv.take(i + 1 as int).drop_last() =~= pv.take(i as int));
            assert(pv.take(i + 1 as int).last() == pv[i as int]);
        }
        let keyword = &outputs[i].0;
        let out = &outputs[i].1;
        let ghost kw = keyword@;
        let lines = split_lines(out.as_str());
        let ghost lv = lines_of(out@);
        let mut j: usize = 0;
        proof {
            assert(lv.take(0) =~= Seq::<Seq<char>>::empty());
        }
        while j < lines.len()
            invariant
                seq_views(lines@) == lv,
                j <= lines@.len(),
                kw == pv[i as int].0,
                kw == keyword@,
                lv == lines_of(pv[i as int].1),
                decision_views(r@) =~~= acc0 + lv.take(j as int).fold_left(
                    Seq::<ArchitecturalDecisionV>::empty(),
                    decision_fold_fn(kw),
                ),
            decreases lines@.len() - j,
        {
            proof {
                assert(lv.take(j + 1 as int).drop_last() =~= lv.take(j as int));
                assert(lv.take(j + 1 as int).last() == lv[j as int]);
            }
            let ghost inner0 = lv.take(j as int).fold_left(
                Seq::<ArchitecturalDecisionV>::empty(),
                decision_fold_fn(kw),
            );
            proof {
                assert(seq_views(lines@)[j as int] == lines@[j as int]@);
                assert(lines@[j as int]@ == lv[j as int]);
                assert(lv.take(j + 1 as int).fold_left(
                    Seq::<ArchitecturalDecisionV>::empty(),
                    decision_fold_fn(kw),
                ) == decision_fold_fn(kw)(inner0, lv[j as int]));
            }
            match parse_architectural_decision(lines[j].as_str(), keyword.as_str()) {
                Some(d) => {
                    r.push(d);
                    proof {
                        assert(acc0 + inner0.push(d@) =~= (acc0 + inner0).push(d@));
                        assert(decision_views(r@) =~~= (acc0 + inner0).push(d@));
                    }
                },
                None => {},
            }
            j = j + 1;
        }
        proof {
            assert(lv.take(lines@.len() as int) =~= lv);
            assert(decision_views(r@) =~~= pv.take(i + 1 as int).fold_left(
                Seq::<ArchitecturalDecisionV>::empty(),
                decisions_concat_fn(),
            ));
        }
        i = i + 1;
    }
    proof {
        assert(pv.take(outputs@.len() as int) =~= pv);
    }
    r
}

} // verus!
