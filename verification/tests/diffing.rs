use feed_notify::store::{decode, encode, DecodeError};
use feed_notify::diff::{check, fingerprints, new_indices};
use feed_notify::store::cache_path;
use feed_notify::fingerprint::fingerprint;
use feed_notify::Entry;

fn entry(link: Option<&str>, title: Option<&str>, description: Option<&str>) -> Entry {
    Entry {
        link: link.map(str::to_string),
        title: title.map(str::to_string),
        description: description.map(str::to_string),
    }
}

#[test]
fn fingerprint_depends_only_on_link() {
    let a = entry(Some("https://example.org/post/1"), Some("old title"), Some("old body"));
    let b = entry(Some("https://example.org/post/1"), Some("new title"), Some("new body"));
    assert_eq!(fingerprint(&a), fingerprint(&b));
}

#[test]
fn fingerprint_is_deterministic() {
    let a = entry(Some("https://example.org/post/1"), None, None);
    assert_eq!(fingerprint(&a), fingerprint(&a));
}

#[test]
fn fingerprint_changes_with_link() {
    let a = entry(Some("https://example.org/post/1"), Some("t"), None);
    let b = entry(Some("https://example.org/post/2"), Some("t"), None);
    assert_ne!(fingerprint(&a), fingerprint(&b));
}

#[test]
fn fingerprint_of_absent_link_differs_from_empty_link() {
    let a = entry(None, None, None);
    let b = entry(Some(""), None, None);
    assert_eq!(fingerprint(&a), 0);
    assert_ne!(fingerprint(&a), fingerprint(&b));
}

#[test]
fn first_run_reports_nothing_and_snapshots_everything() {
    let entries = vec![
        entry(Some("https://example.org/a"), Some("a"), None),
        entry(Some("https://example.org/b"), Some("b"), None),
        entry(Some("https://example.org/c"), Some("c"), None),
    ];
    let outcome = check(&entries, &None);
    assert!(outcome.new_indices.is_empty());
    assert_eq!(outcome.snapshot, fingerprints(&entries));
    assert_eq!(outcome.snapshot.len(), 3);
}

#[test]
fn second_run_reports_exactly_the_appended_entry() {
    let mut entries = vec![
        entry(Some("https://example.org/a"), Some("a"), None),
        entry(Some("https://example.org/b"), Some("b"), None),
    ];
    let first = check(&entries, &None);
    entries.push(entry(Some("https://example.org/c"), Some("c"), None));
    let second = check(&entries, &Some(first.snapshot));
    assert_eq!(second.new_indices, vec![2]);
    assert_eq!(second.snapshot, fingerprints(&entries));
}

#[test]
fn second_run_with_no_change_reports_nothing() {
    let entries = vec![
        entry(Some("https://example.org/a"), Some("a"), None),
        entry(Some("https://example.org/b"), Some("b"), None),
    ];
    let first = check(&entries, &None);
    let second = check(&entries, &Some(first.snapshot.clone()));
    assert!(second.new_indices.is_empty());
    assert_eq!(second.snapshot, first.snapshot);
}

#[test]
fn new_entries_keep_feed_order() {
    let old = vec![entry(Some("https://example.org/b"), None, None)];
    let prior = fingerprints(&old);
    let now = vec![
        entry(Some("https://example.org/x"), None, None),
        entry(Some("https://example.org/b"), None, None),
        entry(Some("https://example.org/y"), None, None),
    ];
    let idx = new_indices(&fingerprints(&now), &prior);
    assert_eq!(idx, vec![0, 2]);
}

#[test]
fn snapshot_round_trips_through_the_codec() {
    let fps = vec![5, 0, u64::MAX, 5, 12345678901234567890];
    let text = encode(&fps);
    assert_eq!(decode(&text), Ok(fps));
}

#[test]
fn empty_snapshot_round_trips() {
    let fps: Vec<u64> = Vec::new();
    let text = encode(&fps);
    assert_eq!(text, "");
    assert_eq!(decode(&text), Ok(fps));
}

#[test]
fn save_then_load_keeps_membership() {
    let entries = vec![
        entry(Some("https://example.org/a"), None, None),
        entry(Some("https://example.org/b"), None, None),
    ];
    let outcome = check(&entries, &None);
    let reloaded = decode(&encode(&outcome.snapshot)).unwrap();
    assert_eq!(reloaded, outcome.snapshot);
    let again = check(&entries, &Some(reloaded));
    assert!(again.new_indices.is_empty());
}

#[test]
fn encode_writes_decimal_joined_by_spaces() {
    assert_eq!(encode(&vec![10, 0, 7]), "10 0 7");
}

#[test]
fn decode_rejects_corrupt_snapshots() {
    assert_eq!(decode("01"), Err(DecodeError));
    assert_eq!(decode("1 x"), Err(DecodeError));
    assert_eq!(decode("1  2"), Err(DecodeError));
    assert_eq!(decode(" "), Err(DecodeError));
    assert_eq!(decode("18446744073709551616"), Err(DecodeError));
}

#[test]
fn decode_accepts_the_largest_fingerprint() {
    assert_eq!(decode("18446744073709551615"), Ok(vec![u64::MAX]));
}

#[test]
fn cache_path_derives_from_the_feed_identifier() {
    assert_eq!(cache_path("myfeed"), "./myfeed.cache");
}
