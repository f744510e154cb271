use release_diff::commit::Commit;
use release_diff::release_item::{assemble, ReleaseItem};
use release_diff::ReleaseError;
use release_diff::ReleaseIdentifier::{RequestId, TrackerId};

fn asm_commit(id: u64, message: Option<&str>) -> Commit {
    Commit {
        id,
        parents: vec![],
        author_email: Some("a@x".to_string()),
        message: message.map(|s| s.to_string()),
    }
}

/// The summary is the first message line only, and the identifiers come
/// from that line.
#[test]
fn summary_is_first_line() {
    let item = ReleaseItem::new(&asm_commit(7, Some("Fix id:7 RRQ:2\nLong body id:999"))).unwrap();
    assert_eq!(item.sha1, 7);
    assert_eq!(item.commit_summary, "Fix id:7 RRQ:2");
    assert_eq!(item.ids, vec![TrackerId(7), RequestId(2)]);
    assert!(item.assignables.is_none());
}

/// A carriage-return line ending is stripped from the summary.
#[test]
fn carriage_return_is_stripped() {
    let item = ReleaseItem::new(&asm_commit(1, Some("Tidy output\r\nrest"))).unwrap();
    assert_eq!(item.commit_summary, "Tidy output");
}

/// A commit without a message cannot be summarized.
#[test]
fn absent_message_fails() {
    assert_eq!(
        ReleaseItem::new(&asm_commit(9, None)).unwrap_err(),
        ReleaseError::EmptyCommitMessage(9)
    );
}

/// An empty message, or one whose first line is empty, cannot be
/// summarized.
#[test]
fn empty_first_line_fails() {
    assert_eq!(
        ReleaseItem::new(&asm_commit(3, Some(""))).unwrap_err(),
        ReleaseError::EmptyCommitMessage(3)
    );
    assert_eq!(
        ReleaseItem::new(&asm_commit(4, Some("\nbody"))).unwrap_err(),
        ReleaseError::EmptyCommitMessage(4)
    );
}

/// Assembly is a pure per-element transform: one entry per commit, in the
/// given order.
#[test]
fn assembly_preserves_order() {
    let commits = vec![asm_commit(4, Some("newest")), asm_commit(3, Some("older id:1"))];
    let items = assemble(&commits).unwrap();
    assert_eq!(items.len(), 2);
    assert_eq!(items[0].sha1, 4);
    assert_eq!(items[0].commit_summary, "newest");
    assert_eq!(items[1].sha1, 3);
    assert_eq!(items[1].ids, vec![TrackerId(1)]);
}

/// Assembly stops at the first commit that cannot be summarized.
#[test]
fn assembly_reports_first_bad_commit() {
    let commits = vec![asm_commit(4, Some("fine")), asm_commit(3, Some(""))];
    assert_eq!(assemble(&commits).unwrap_err(), ReleaseError::EmptyCommitMessage(3));
}

/// The whole pipeline: walk, filter, assemble. The cherry-picked commit is
/// gone, the remaining entries carry their summaries and identifiers,
/// newest first.
#[test]
fn pipeline_end_to_end() {
    let full = |id: u64, parents: &[u64], email: &str, message: &str| Commit {
        id,
        parents: parents.to_vec(),
        author_email: Some(email.to_string()),
        message: Some(message.to_string()),
    };
    let store = release_diff::CommitStore {
        commits: vec![
            full(1, &[], "root@x", "root"),
            full(2, &[1], "a@x", "base work id:5"),
            full(3, &[1], "x@y.com", "fix: id:9"),
            full(4, &[3], "x@y.com", "feat id:3 RRQ:4\ndetails"),
            full(5, &[2], "x@y.com", "fix: id:9"),
        ],
    };
    let commits = release_diff::get_commits(&store, 5, 4).unwrap();
    let items = assemble(&commits).unwrap();
    assert_eq!(items.len(), 1);
    assert_eq!(items[0].sha1, 4);
    assert_eq!(items[0].commit_summary, "feat id:3 RRQ:4");
    assert_eq!(items[0].ids, vec![TrackerId(3), RequestId(4)]);
}
