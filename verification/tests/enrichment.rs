use release_diff::release_item::ReleaseItem;
use release_diff::target_process::{
    apply_enrichment, clean_description, filter_for, needs_enrichment, Assignable, EntityType,
};
use release_diff::ReleaseIdentifier::{RequestId, TrackerId};

fn enr_item(ids: Vec<release_diff::ReleaseIdentifier>) -> ReleaseItem {
    ReleaseItem { sha1: 5, commit_summary: "s".to_string(), ids, assignables: None }
}

fn enr_assignable(id: u32, description: &str) -> Assignable {
    Assignable {
        id,
        name: "n".to_string(),
        description: description.to_string(),
        entity_type: EntityType { id: 1 },
    }
}

/// The tracker query for a request id matches by name, the one for a
/// tracker id by numeric id.
#[test]
fn query_filters_are_exact() {
    assert_eq!(filter_for(&RequestId(7)), "Name contains 'RRQ:7'");
    assert_eq!(filter_for(&TrackerId(42)), "id eq 42");
}

/// Decimal rendering covers zero and the largest 32-bit id.
#[test]
fn query_filter_number_edges() {
    assert_eq!(filter_for(&TrackerId(0)), "id eq 0");
    assert_eq!(filter_for(&TrackerId(4294967295)), "id eq 4294967295");
    assert_eq!(filter_for(&RequestId(100)), "Name contains 'RRQ:100'");
}

/// Only items that carry at least one identifier take part in enrichment.
#[test]
fn enrichment_dispatch_by_ids() {
    assert!(needs_enrichment(&enr_item(vec![TrackerId(1)])));
    assert!(!needs_enrichment(&enr_item(vec![])));
}

/// Fetched records land only in their own item; an empty fetch leaves the
/// item untouched.
#[test]
fn enrichment_is_written_back() {
    let mut item = enr_item(vec![TrackerId(1)]);
    apply_enrichment(&mut item, vec![]);
    assert!(item.assignables.is_none());
    apply_enrichment(&mut item, vec![enr_assignable(3, "d")]);
    let got = item.assignables.as_ref().unwrap();
    assert_eq!(got.len(), 1);
    assert_eq!(got[0].id, 3);
    assert_eq!(item.sha1, 5);
    assert_eq!(item.ids, vec![TrackerId(1)]);
}

/// Description fragments are trimmed, empty ones dropped, and the rest
/// joined with a line break plus tab indent.
#[test]
fn description_fragments_are_tidied() {
    let fragments = vec![
        "  hello  ".to_string(),
        "".to_string(),
        " \t ".to_string(),
        "world".to_string(),
    ];
    assert_eq!(clean_description(&fragments), "hello\n\tworld");
}

#[test]
fn description_single_fragment() {
    assert_eq!(clean_description(&vec![" just one ".to_string()]), "just one");
    assert_eq!(clean_description(&vec!["   ".to_string()]), "");
    assert_eq!(clean_description(&Vec::new()), "");
}
