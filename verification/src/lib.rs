//! Release-notes core: given two linear branch histories, find the commits
//! unique to the release branch, drop cherry-picked duplicates, extract the
//! ticket identifiers from each surviving commit message, and assemble the
//! ordered list of report entries.

pub mod cli;
pub mod commit;
pub mod error;
pub mod extract;
pub mod filter;
pub mod release_item;
pub mod target_process;
pub mod walker;

pub use commit::{Commit, CommitModel, CommitStore};
pub use error::ReleaseError;
pub use extract::ReleaseIdentifier;
pub use release_item::ReleaseItem;

use vstd::prelude::*;

verus! {

/// The commits unique to the release branch, as a function of the store
/// and the two branch heads: walk to the common ancestor, take the
/// release-side private commits, and drop the ones cherry-picked into the
/// base branch; reject a filter result that is empty while base-side
/// commits exist.
pub open spec fn get_commits_spec(
    store: Seq<CommitModel>,
    base_head: u64,
    release_head: u64,
) -> Result<Seq<CommitModel>, ReleaseError> {
    match walker::diverge_spec(store, base_head, release_head) {
        Err(e) => Err(e),
        Ok(t) => {
            let unique = filter::filter_dups(t.1, t.2);
            if unique.len() == 0 && t.1.len() > 0 {
                Err(ReleaseError::BranchesReversed)
            } else {
                Ok(unique)
            }
        },
    }
}

/// Find the commits unique to the release branch: everything between the
/// release head (inclusive) and the common ancestor (exclusive), in
/// newest-first order, minus the commits cherry-picked into the base
/// branch.
pub fn get_commits(store: &CommitStore, base_head: u64, release_head: u64) -> (r: Result<
    Vec<Commit>,
    ReleaseError,
>)
    ensures
        match r {
            Ok(v) => {
                &&& get_commits_spec(store@, base_head, release_head) matches Ok(s)
                &&& commit::models(v@) == s
            },
            Err(e) => get_commits_spec(store@, base_head, release_head) == Err::<
                Seq<CommitModel>,
                ReleaseError,
            >(e),
        },
{
    match walker::diverge(store, base_head, release_head) {
        Err(e) => Err(e),
        Ok(d) => match filter::filter_duplicates(&d.base_only, &d.release_only) {
            Err(e) => Err(e),
            Ok(v) => Ok(v),
        },
    }
}

} // verus!
