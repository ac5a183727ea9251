//! The aggregate analysis report: one instance of each aspect view,
//! assembled once and immutable. A report exists only when every required
//! aspect succeeded; no partial report is ever built.

use vstd::prelude::*;
use crate::branches::BranchAnalysis;
use crate::churn::CodeChurn;
use crate::contributors::ContributorInsight;
use crate::decisions::ArchitecturalDecision;
use crate::history::CommitHistory;
use crate::patterns::DevelopmentPatterns;
use crate::releases::ReleasePatterns;
use crate::repoinfo::RepositoryInfo;

verus! {

/// The seven aspect views of one repository analysis.
#[derive(Debug)]
pub struct GitAnalysis {
    pub repository_info: RepositoryInfo,
    pub commit_history: CommitHistory,
    pub branch_analysis: BranchAnalysis,
    pub contributor_insights: Vec<ContributorInsight>,
    pub code_churn: CodeChurn,
    pub development_patterns: DevelopmentPatterns,
    pub architectural_decisions: Vec<ArchitecturalDecision>,
    pub release_patterns: ReleasePatterns,
}

} // verus!
