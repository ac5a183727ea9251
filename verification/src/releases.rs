//! Release cadence: the tag listing gives the total count and a frequency
//! class; per-tag detail lines (`hash|iso-date|subject`) give the recent
//! tags and the mean day-gap between consecutive releases.

use vstd::prelude::*;
use crate::sat_add64;
use crate::sat_add_u64;
use crate::text::{lines_of, pair_views, seq_views, split_char, split_lines, split_on};
use crate::timestamp::{gap_days, gap_days_spec, parse_timestamp, parse_ts_spec};

verus! {

/// One tag with its detail fields.
#[derive(Clone, Debug)]
pub struct TagInfo {
    pub name: String,
    pub date: String,
    pub commit_hash: String,
    pub message: String,
}

/// The mathematical image of a [`TagInfo`].
pub ghost struct TagInfoV {
    pub name: Seq<char>,
    pub date: Seq<char>,
    pub commit_hash: Seq<char>,
    pub message: Seq<char>,
}

impl View for TagInfo {
    type V = TagInfoV;

    open spec fn view(&self) -> TagInfoV {
        TagInfoV {
            name: self.name@,
            date: self.date@,
            commit_hash: self.commit_hash@,
            message: self.message@,
        }
    }
}

pub open spec fn tag_views(s: Seq<TagInfo>) -> Seq<TagInfoV> {
    s.map_values(|t: TagInfo| t@)
}

pub open spec fn opt_tag_view(t: Option<TagInfo>) -> Option<TagInfoV> {
    match t {
        Some(x) => Some(x@),
        None => None,
    }
}

/// The tag record of one detail query output: its first line must have at
/// least three pipe-separated fields (`hash|iso-date|subject`).
pub open spec fn parse_tag_spec(tag: Seq<char>, out: Seq<char>) -> Option<TagInfoV> {
    let ls = lines_of(out);
    if ls.len() == 0 {
        None
    } else {
        let parts = split_on(ls[0], '|');
        if parts.len() < 3 {
            None
        } else {
            Some(TagInfoV { name: tag, commit_hash: parts[0], date: parts[1], message: parts[2] })
        }
    }
}

/// Parse the first line of a tag's detail output.
pub fn parse_tag_info(output: &str, tag: &str) -> (r: Option<TagInfo>)
    ensures
        opt_tag_view(r) == parse_tag_spec(tag@, output@),
{
    let lines = split_lines(output);
    if lines.len() == 0 {
        return None;
    }
    let parts = split_char(lines[0].as_str(), '|');
    if parts.len() < 3 {
        return None;
    }
    Some(
        TagInfo {
            name: tag.to_owned(),
            commit_hash: parts[0].clone(),
            date: parts[1].clone(),
            message: parts[2].clone(),
        },
    )
}

/// The frequency class of a total tag count.
pub open spec fn release_frequency_spec(total: int) -> Seq<char> {
    if total > 50 {
        "Weekly"@
    } else if total > 20 {
        "Monthly"@
    } else if total > 5 {
        "Quarterly"@
    } else {
        "Irregular"@
    }
}

/// Classify a total tag count into a release-frequency label.
pub fn classify_release_frequency(total: usize) -> (r: String)
    ensures
        r@ == release_frequency_spec(total as int),
{
    if total > 50 {
        "Weekly".to_owned()
    } else if total > 20 {
        "Monthly".to_owned()
    } else if total > 5 {
        "Quarterly".to_owned()
    } else {
        "Irregular".to_owned()
    }
}

pub open spec fn tags_fold_fn() -> spec_fn(Seq<TagInfoV>, (Seq<char>, Seq<char>)) -> Seq<
    TagInfoV,
> {
    |acc: Seq<TagInfoV>, p: (Seq<char>, Seq<char>)|
        match parse_tag_spec(p.0, p.1) {
            Some(t) => acc.push(t),
            None => acc,
        }
}

/// The tags parsed from a sequence of (tag name, detail output) pairs, in
/// order; pairs whose detail fails to parse are dropped.
pub open spec fn recent_tags_of(pairs: Seq<(Seq<char>, Seq<char>)>) -> Seq<TagInfoV> {
    pairs.fold_left(Seq::<TagInfoV>::empty(), tags_fold_fn())
}

/// Day-gap accumulation over consecutive tag pairs.
pub ghost struct GapAcc {
    pub total: int,
    pub count: int,
}

/// The day gaps of the first `n` consecutive pairs of `tags`: a pair counts
/// only when both dates parse; the gap total saturates at `u64::MAX`.
pub open spec fn gap_acc(tags: Seq<TagInfoV>, n: int) -> GapAcc
    decreases n,
{
    if n <= 0 {
        GapAcc { total: 0, count: 0 }
    } else {
        let prev = gap_acc(tags, n - 1);
        match (parse_ts_spec(tags[n - 1].date), parse_ts_spec(tags[n].date)) {
            (Some(a), Some(b)) => GapAcc {
                total: sat_add64(prev.total, gap_days_spec(a, b)),
                count: prev.count + 1,
            },
            _ => prev,
        }
    }
}

/// The day gaps over all consecutive pairs of `tags`.
pub open spec fn gaps_of(tags: Seq<TagInfoV>) -> GapAcc {
    gap_acc(tags, tags.len() - 1)
}

/// The release-pattern view of a repository.
#[derive(Debug)]
pub struct ReleasePatterns {
    pub total_tags: usize,
    pub recent_tags: Vec<TagInfo>,
    pub total_gap_days: u64,
    pub gap_count: usize,
    pub release_frequency: String,
}

/// Derive the release patterns from the tag listing (one tag name per line,
/// newest first) and the detail outputs fetched for the most recent tags.
pub fn analyze_release_patterns(tags_output: &str, tag_details: &Vec<(String, String)>) -> (r:
    ReleasePatterns)
    ensures
        r.total_tags == lines_of(tags_output@).len(),
        tag_views(r.recent_tags@) == recent_tags_of(pair_views(tag_details@)),
        r.release_frequency@ == release_frequency_spec(lines_of(tags_output@).len() as int),
        r.total_gap_days as int == gaps_of(tag_views(r.recent_tags@)).total,
        r.gap_count as int == gaps_of(tag_views(r.recent_tags@)).count,
{
    let tag_lines = split_lines(tags_output);
    let total_tags = tag_lines.len();
    proof {
        assert(seq_views(tag_lines@).len() == tag_lines@.len());
    }
    let freq = classify_release_frequency(total_tags);

    let ghost pv = pair_views(tag_details@);
    let mut recent: Vec<TagInfo> = Vec::new();
    let mut i: usize = 0;
    proof {
        assert(pv.take(0) =~= Seq::<(Seq<char>, Seq<char>)>::empty());
    }
    while i < tag_details.len()
        invariant
            pv == pair_views(tag_details@),
            i <= tag_details@.len(),
            tag_views(recent@) =~~= pv.take(i as int).fold_left(
                Seq::<TagInfoV>::empty(),
                tags_fold_fn(),
            ),
        decreases tag_details@.len() - i,
    {
        proof {
            assert(pv.take(i + 1 as int).drop_last() =~= pv.take(i as int));
            assert(pv.take(i + 1 as int).last() == pv[i as int]);
            assert(pv[i as int] == (tag_details@[i as int].0@, tag_details@[i as int].1@));
        }
        match parse_tag_info(tag_details[i].1.as_str(), tag_details[i].0.as_str()) {
            Some(t) => {
                recent.push(t);
            },
            None => {},
        }
        i = i + 1;
    }
    proof {
        assert(pv.take(tag_details@.len() as int) =~= pv);
    }

    let mut total_gap: u64 = 0;
    let mut count: usize = 0;
    let n = recent.len();
    if n > 0 {
        let mut k: usize = 0;
        while k < n - 1
            invariant
                n == recent@.len() >= 1,
                k <= n - 1,
                count <= k,
                total_gap as int == gap_acc(tag_views(recent@), k as int).total,
                count as int == gap_acc(tag_views(recent@), k as int).count,
            decreases n - 1 - k,
        {
            proof {
                assert(tag_views(recent@)[k as int] == recent@[k as int]@);
                assert(tag_views(recent@)[k + 1 as int] == recent@[k + 1 as int]@);
            }
            let a_o = parse_timestamp(recent[k].date.as_str());
            let b_o = parse_timestamp(recent[k + 1].date.as_str());
            match (a_o, b_o) {
                (Some(a), Some(b)) => {
                    let g = gap_days(&a, &b);
                    total_gap = sat_add_u64(total_gap, g);
                    count = count + 1;
                },
                _ => {},
            }
            k = k + 1;
        }
    }

    ReleasePatterns {
        total_tags,
        recent_tags: recent,
        total_gap_days: total_gap,
        gap_count: count,
        release_frequency: freq,
    }
}

} // verus!
