//! Verified analytics over the textual output of a version-control tool.
//!
//! The crate parses the free-text output of repository queries (commit logs
//! with per-file numeric stats, branch listings, tag listings, keyword-tagged
//! commit lines) into structured records and derives analytics views from
//! them: repository info, commit history, branch health, contributor impact,
//! code churn ranking, development patterns, architectural-decision commits,
//! and release cadence.
//!
//! Everything here is pure text-to-value computation; running the
//! version-control tool and scheduling the queries is the caller's business.

use vstd::prelude::*;

pub mod branches;
pub mod churn;
pub mod commits;
pub mod contributors;
pub mod decisions;
pub mod history;
pub mod keyed;
pub mod patterns;
pub mod rank;
pub mod releases;
pub mod repoinfo;
pub mod report;
pub mod text;
pub mod timestamp;

verus! {

/// A saturating sum capped at `usize::MAX`; accumulators in the analytics
/// use it so that pathological inputs clamp instead of overflowing.
pub open spec fn sat_add(a: int, b: int) -> int {
    if a + b > usize::MAX { usize::MAX as int } else { a + b }
}

/// Executable counterpart of [`sat_add`].
pub(crate) fn sat_add_usize(a: usize, b: usize) -> (r: usize)
    ensures
        r == sat_add(a as int, b as int),
{
    if a > usize::MAX - b {
        usize::MAX
    } else {
        a + b
    }
}

/// A saturating product capped at `usize::MAX`.
pub open spec fn sat_mul(a: int, b: int) -> int {
    if a * b > usize::MAX {
        usize::MAX as int
    } else {
        a * b
    }
}

/// Executable counterpart of [`sat_mul`] for small constant factors.
pub(crate) fn sat_mul_usize(a: usize, b: usize) -> (r: usize)
    requires
        b <= 1000,
    ensures
        r == sat_mul(a as int, b as int),
{
    proof {
        assert((a as int) * (b as int) <= (u64::MAX as int) * 1000) by (nonlinear_arith)
            requires
                0 <= a as int <= u64::MAX as int,
                0 <= b as int <= 1000,
        ;
    }
    let wide: u128 = a as u128 * b as u128;
    if wide > usize::MAX as u128 {
        usize::MAX
    } else {
        wide as usize
    }
}

/// A saturating sum capped at `u64::MAX`, for day-gap accumulators.
pub open spec fn sat_add64(a: int, b: int) -> int {
    if a + b > u64::MAX {
        u64::MAX as int
    } else {
        a + b
    }
}

/// Executable counterpart of [`sat_add64`].
pub(crate) fn sat_add_u64(a: u64, b: u64) -> (r: u64)
    ensures
        r == sat_add64(a as int, b as int),
{
    if a > u64::MAX - b {
        u64::MAX
    } else {
        a + b
    }
}

} // verus!
