use release_diff::commit::{Commit, CommitStore};
use release_diff::filter::filter_duplicates;
use release_diff::{get_commits, ReleaseError};

fn dup_commit(id: u64, parents: &[u64], email: Option<&str>, message: Option<&str>) -> Commit {
    Commit {
        id,
        parents: parents.to_vec(),
        author_email: email.map(|s| s.to_string()),
        message: message.map(|s| s.to_string()),
    }
}

/// A release commit with the same present author email and byte-equal
/// message as a base commit, under a different id, is dropped as a
/// cherry-pick.
#[test]
fn cherry_pick_is_dropped() {
    let store = CommitStore {
        commits: vec![
            dup_commit(1, &[], Some("a@x"), Some("root")),
            dup_commit(2, &[1], Some("x@y.com"), Some("fix: id:9")),
            dup_commit(3, &[1], Some("x@y.com"), Some("fix: id:9")),
            dup_commit(4, &[3], Some("b@x"), Some("feature")),
        ],
    };
    let unique = get_commits(&store, 2, 4).unwrap();
    let ids: Vec<u64> = unique.iter().map(|c| c.id).collect();
    assert_eq!(ids, vec![4]);
}

/// A commit without an author email is never classified as a duplicate:
/// the filter fails open and keeps it.
#[test]
fn missing_email_fails_open() {
    let base = vec![dup_commit(2, &[1], None, Some("same text"))];
    let release = vec![dup_commit(3, &[1], None, Some("same text"))];
    let kept = filter_duplicates(&base, &release).unwrap();
    assert_eq!(kept.len(), 1);
    assert_eq!(kept[0].id, 3);
}

/// Equal emails with differing messages are no duplicate.
#[test]
fn differing_messages_are_kept() {
    let base = vec![dup_commit(2, &[1], Some("a@x"), Some("one"))];
    let release = vec![dup_commit(3, &[1], Some("a@x"), Some("two"))];
    let kept = filter_duplicates(&base, &release).unwrap();
    assert_eq!(kept.len(), 1);
}

/// Filtering that leaves nothing while base-only commits exist signals
/// swapped branch arguments.
#[test]
fn empty_result_signals_reversed_branches() {
    let base = vec![
        dup_commit(2, &[1], Some("a@x"), Some("one")),
        dup_commit(4, &[2], Some("a@x"), Some("two")),
    ];
    let release = vec![dup_commit(3, &[1], Some("a@x"), Some("one"))];
    assert_eq!(
        filter_duplicates(&base, &release).unwrap_err(),
        ReleaseError::BranchesReversed
    );
}

/// With no base-side commits an empty release side is not an error.
#[test]
fn empty_both_sides_is_not_reversed() {
    let base: Vec<Commit> = vec![];
    let release: Vec<Commit> = vec![];
    assert_eq!(filter_duplicates(&base, &release).unwrap().len(), 0);
}

/// Two commits whose messages are both absent count as equal messages: the
/// cherry-pick rule compares the full optional message.
#[test]
fn absent_messages_compare_equal() {
    let base = vec![dup_commit(2, &[1], Some("a@x"), None)];
    let release = vec![dup_commit(3, &[1], Some("a@x"), None), dup_commit(5, &[3], Some("b@x"), Some("kept"))];
    let kept = filter_duplicates(&base, &release).unwrap();
    let ids: Vec<u64> = kept.iter().map(|c| c.id).collect();
    assert_eq!(ids, vec![5]);
}
