use release_diff::extract::extract;
use release_diff::ReleaseIdentifier::{RequestId, TrackerId};

/// Mixed tracker and request ids come out as all tracker ids first, then
/// all request ids, each group in order of appearance.
#[test]
fn tracker_then_request() {
    assert_eq!(extract("Fix bug id:42 and RRQ:7"), vec![TrackerId(42), RequestId(7)]);
}

#[test]
fn repeated_tracker_ids_in_order() {
    assert_eq!(extract("id:1 id:2"), vec![TrackerId(1), TrackerId(2)]);
}

#[test]
fn no_matches_yield_empty() {
    assert_eq!(extract("no tickets here"), Vec::new());
}

/// The two passes are concatenated, never interleaved, whatever the order
/// of appearance in the text.
#[test]
fn request_before_tracker_still_concatenates() {
    assert_eq!(extract("RRQ:5 then id:3"), vec![TrackerId(3), RequestId(5)]);
}

/// Both spellings of each key match; mixed case does not.
#[test]
fn key_case_forms() {
    assert_eq!(extract("ID:8 rrq:9"), vec![TrackerId(8), RequestId(9)]);
    assert_eq!(extract("Id:8 rRq:9"), Vec::new());
}

/// A key with no digit directly after the colon is no match.
#[test]
fn key_without_digits_is_no_match() {
    assert_eq!(extract("id: 5 rrq:x"), Vec::new());
}

/// The key may start inside a longer word, as a plain text scan finds it.
#[test]
fn key_inside_word_matches() {
    assert_eq!(extract("void:3"), vec![TrackerId(3)]);
}

/// Leading zeros are part of the digit run and parse normally.
#[test]
fn leading_zeros_parse() {
    assert_eq!(extract("id:007"), vec![TrackerId(7)]);
}

/// A digit run too large for a 32-bit id is skipped, and scanning
/// continues after it.
#[test]
fn oversized_number_is_skipped() {
    assert_eq!(extract("id:99999999999 id:6"), vec![TrackerId(6)]);
    assert_eq!(extract("id:4294967295"), vec![TrackerId(4294967295)]);
    assert_eq!(extract("id:4294967296"), Vec::new());
}

/// Matches do not overlap: scanning resumes after each digit run.
#[test]
fn matches_do_not_overlap() {
    assert_eq!(extract("rrq:12id:3"), vec![TrackerId(3), RequestId(12)]);
}
