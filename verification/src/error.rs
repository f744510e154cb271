use vstd::prelude::*;

verus! {

/// Every way a run of the release-notes core can fail.
///
/// All variants are fatal: the run halts before report assembly. Commit ids
/// are carried so the caller can name the offending commit.
#[derive(Clone, Copy, Debug, PartialEq, Eq, Structural)]
pub enum ReleaseError {
    /// A branch head id was not present in the commit store.
    BranchNotFound(u64),
    /// Base and release resolve to the same head commit.
    IdenticalBranches,
    /// A visited commit has two or more parents; merge histories are out of
    /// scope. Carries the commit id and its parent count.
    UnsupportedMergeCommit(u64, u64),
    /// A commit claims a single parent that the store cannot resolve.
    MissingParent(u64),
    /// Both walk fronts were exhausted without meeting: the branches share
    /// no history.
    NoCommonAncestor,
    /// Filtering left no release commits while base-only commits exist: the
    /// two branches were almost certainly given in the wrong order.
    BranchesReversed,
    /// A commit's message cannot be reduced to a non-empty first line.
    EmptyCommitMessage(u64),
}

} // verus!
