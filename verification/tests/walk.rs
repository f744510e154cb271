use release_diff::commit::{Commit, CommitStore};
use release_diff::walker::diverge;
use release_diff::{get_commits, ReleaseError};

fn walk_commit(id: u64, parents: &[u64], email: Option<&str>, message: Option<&str>) -> Commit {
    Commit {
        id,
        parents: parents.to_vec(),
        author_email: email.map(|s| s.to_string()),
        message: message.map(|s| s.to_string()),
    }
}

fn store_of(commits: Vec<Commit>) -> CommitStore {
    CommitStore { commits }
}

fn ids_of(commits: &[Commit]) -> Vec<u64> {
    commits.iter().map(|c| c.id).collect()
}

/// Base history A<-B (B head), release history A<-B<-C<-D (D head): the
/// walker finds ancestor B, an empty base side and release side [D, C].
#[test]
fn shared_prefix_yields_release_side_only() {
    let store = store_of(vec![
        walk_commit(1, &[], Some("a@x"), Some("A")),
        walk_commit(2, &[1], Some("a@x"), Some("B")),
        walk_commit(3, &[2], Some("a@x"), Some("C")),
        walk_commit(4, &[3], Some("a@x"), Some("D")),
    ]);
    let d = diverge(&store, 2, 4).unwrap();
    assert_eq!(d.ancestor, 2);
    assert_eq!(ids_of(&d.base_only), Vec::<u64>::new());
    assert_eq!(ids_of(&d.release_only), vec![4, 3]);
}

/// Two branches forked from a common root: each side keeps exactly its
/// private commits, newest first, and the ancestor appears in neither.
#[test]
fn forked_branches_split_cleanly() {
    let store = store_of(vec![
        walk_commit(10, &[], Some("a@x"), Some("root")),
        walk_commit(11, &[10], Some("a@x"), Some("base one")),
        walk_commit(12, &[11], Some("a@x"), Some("base two")),
        walk_commit(21, &[10], Some("b@x"), Some("rel one")),
        walk_commit(22, &[21], Some("b@x"), Some("rel two")),
        walk_commit(23, &[22], Some("b@x"), Some("rel three")),
    ]);
    let d = diverge(&store, 12, 23).unwrap();
    assert_eq!(d.ancestor, 10);
    assert_eq!(ids_of(&d.base_only), vec![12, 11]);
    assert_eq!(ids_of(&d.release_only), vec![23, 22, 21]);
    assert!(!ids_of(&d.base_only).contains(&d.ancestor));
    assert!(!ids_of(&d.release_only).contains(&d.ancestor));
}

/// Identical heads fail with IdenticalBranches and produce no output.
#[test]
fn identical_heads_are_rejected() {
    let store = store_of(vec![
        walk_commit(1, &[], Some("a@x"), Some("A")),
        walk_commit(2, &[1], Some("a@x"), Some("B")),
    ]);
    assert_eq!(get_commits(&store, 2, 2).unwrap_err(), ReleaseError::IdenticalBranches);
}

/// A merge commit in the walked path aborts the run before any output.
#[test]
fn merge_commit_is_rejected() {
    let store = store_of(vec![
        walk_commit(1, &[], Some("a@x"), Some("A")),
        walk_commit(2, &[1], Some("a@x"), Some("B")),
        walk_commit(3, &[1, 2], Some("a@x"), Some("merge")),
        walk_commit(4, &[3], Some("a@x"), Some("D")),
    ]);
    assert_eq!(
        get_commits(&store, 2, 4).unwrap_err(),
        ReleaseError::UnsupportedMergeCommit(3, 2)
    );
}

/// Two fully disjoint histories exhaust both fronts and report no common
/// ancestor rather than looping.
#[test]
fn disjoint_histories_have_no_ancestor() {
    let store = store_of(vec![
        walk_commit(1, &[], Some("a@x"), Some("A")),
        walk_commit(2, &[1], Some("a@x"), Some("B")),
        walk_commit(7, &[], Some("b@x"), Some("G")),
        walk_commit(8, &[7], Some("b@x"), Some("H")),
    ]);
    assert_eq!(get_commits(&store, 2, 8).unwrap_err(), ReleaseError::NoCommonAncestor);
}

/// A commit claiming a parent the store cannot resolve aborts the walk.
#[test]
fn unresolvable_parent_is_reported() {
    let store = store_of(vec![
        walk_commit(2, &[99], Some("a@x"), Some("B")),
        walk_commit(3, &[2], Some("a@x"), Some("C")),
    ]);
    assert_eq!(get_commits(&store, 2, 3).unwrap_err(), ReleaseError::MissingParent(99));
}

/// A head id absent from the store is reported as an unresolved branch.
#[test]
fn unknown_head_is_reported() {
    let store = store_of(vec![walk_commit(1, &[], Some("a@x"), Some("A"))]);
    assert_eq!(get_commits(&store, 5, 1).unwrap_err(), ReleaseError::BranchNotFound(5));
}

/// Running the walker twice over the same immutable store yields
/// identical, order-preserving lists.
#[test]
fn walker_is_idempotent() {
    let store = store_of(vec![
        walk_commit(10, &[], Some("a@x"), Some("root")),
        walk_commit(11, &[10], Some("a@x"), Some("base one")),
        walk_commit(21, &[10], Some("b@x"), Some("rel one")),
        walk_commit(22, &[21], Some("b@x"), Some("rel two")),
    ]);
    let first = diverge(&store, 11, 22).unwrap();
    let second = diverge(&store, 11, 22).unwrap();
    assert_eq!(first.ancestor, second.ancestor);
    assert_eq!(ids_of(&first.base_only), ids_of(&second.base_only));
    assert_eq!(ids_of(&first.release_only), ids_of(&second.release_only));
}
