//! Repository info: the current branch, optional remote URL, total commit
//! count and the boundary commit dates, with the repository age in whole
//! days between them. The scalar parses here are strict: a bad count or an
//! unparseable boundary date fails the whole view.

use vstd::prelude::*;
use crate::text::{parse_usize, parsed_usize, trim_spec, trim_str, usize_parsable};
use crate::timestamp::{diff_days, diff_days_spec, parse_timestamp, parse_ts_spec};

verus! {

/// The repository-info view.
#[derive(Clone, Debug)]
pub struct RepositoryInfo {
    pub path: String,
    pub remote_url: Option<String>,
    pub default_branch: String,
    pub total_commits: usize,
    pub first_commit_date: String,
    pub last_commit_date: String,
    pub repository_age_days: i64,
}

/// Whether the raw query outputs make a well-formed repository info.
pub open spec fn repo_info_ok(count_raw: Seq<char>, first_raw: Seq<char>, last_raw: Seq<char>) -> bool {
    &&& usize_parsable(trim_spec(count_raw))
    &&& parse_ts_spec(trim_spec(first_raw)) is Some
    &&& parse_ts_spec(trim_spec(last_raw)) is Some
}

/// Assemble the repository info from the raw outputs of the branch, remote,
/// count and boundary-date queries. The remote URL is passed through: its
/// absence is not an error. Fails exactly when the commit count does not
/// parse as an integer or a boundary date is not in the expected
/// `YYYY-MM-DD HH:MM:SS` shape, in that order of checks.
pub fn get_repository_info(
    repo_path: &str,
    default_branch_raw: &str,
    remote_url: Option<String>,
    count_raw: &str,
    first_raw: &str,
    last_raw: &str,
) -> (r: Result<RepositoryInfo, String>)
    ensures
        r is Ok <==> repo_info_ok(count_raw@, first_raw@, last_raw@),
        r matches Ok(info) ==> {
            &&& info.path@ == repo_path@
            &&& info.remote_url == remote_url
            &&& info.default_branch@ == trim_spec(default_branch_raw@)
            &&& info.total_commits as int == parsed_usize(trim_spec(count_raw@))
            &&& info.first_commit_date@ == trim_spec(first_raw@)
            &&& info.last_commit_date@ == trim_spec(last_raw@)
            &&& info.repository_age_days as int == diff_days_spec(
                parse_ts_spec(trim_spec(last_raw@)).unwrap(),
                parse_ts_spec(trim_spec(first_raw@)).unwrap(),
            )
        },
        r matches Err(e) ==> {
            if !usize_parsable(trim_spec(count_raw@)) {
                e@ == "Failed to parse commit count: "@ + trim_spec(count_raw@)
            } else if parse_ts_spec(trim_spec(first_raw@)) is None {
                e@ == "Failed to parse first commit date: "@ + trim_spec(first_raw@)
            } else {
                e@ == "Failed to parse last commit date: "@ + trim_spec(last_raw@)
            }
        },
{
    let default_branch = trim_str(default_branch_raw);
    let count_trimmed = trim_str(count_raw);
    let total_commits = match parse_usize(count_trimmed.as_str()) {
        Some(v) => v,
        None => {
            let mut e = "Failed to parse commit count: ".to_owned();
            e.append(count_trimmed.as_str());
            return Err(e);
        },
    };
    let first_trimmed = trim_str(first_raw);
    let first_ts = match parse_timestamp(first_trimmed.as_str()) {
        Some(t) => t,
        None => {
            let mut e = "Failed to parse first commit date: ".to_owned();
            e.append(first_trimmed.as_str());
            return Err(e);
        },
    };
    let last_trimmed = trim_str(last_raw);
    let last_ts = match parse_timestamp(last_trimmed.as_str()) {
        Some(t) => t,
        None => {
            let mut e = "Failed to parse last commit date: ".to_owned();
            e.append(last_trimmed.as_str());
            return Err(e);
        },
    };
    let age_days = diff_days(&last_ts, &first_ts);
    Ok(
        RepositoryInfo {
            path: repo_path.to_owned(),
            remote_url,
            default_branch,
            total_commits,
            first_commit_date: first_trimmed,
            last_commit_date: last_trimmed,
            repository_age_days: age_days,
        },
    )
}

} // verus!
