use portable_git::index::{Index, IndexEntry, Stat};
use portable_git::objects::EntryMode;
use portable_git::oid::ObjectId;

fn entry(path: &str, fill: u8) -> IndexEntry {
    IndexEntry {
        path: path.as_bytes().to_vec(),
        id: ObjectId::new(vec![fill; 20]),
        mode: EntryMode::Blob,
        stat: Stat { mtime_secs: 0, size: 0 },
        flags: 0,
    }
}

fn paths(index: &Index) -> Vec<String> {
    index
        .entries
        .iter()
        .map(|e| String::from_utf8(e.path.clone()).unwrap())
        .collect()
}

#[test]
fn insert_keeps_strict_order() {
    let mut index = Index::empty();
    for p in ["b.txt", "a.txt", "dir/file", "a.txt", "c", "aa"] {
        index.insert_or_replace(entry(p, 1));
    }
    let got = paths(&index);
    assert_eq!(got, vec!["a.txt", "aa", "b.txt", "c", "dir/file"]);
    for w in got.windows(2) {
        assert!(w[0].as_bytes() < w[1].as_bytes(), "strictly ascending, no duplicates");
    }
}

#[test]
fn insert_replaces_existing_path() {
    let mut index = Index::empty();
    assert!(index.insert_or_replace(entry("a", 1)));
    assert!(index.insert_or_replace(entry("a", 2)));
    assert_eq!(index.len(), 1);
    assert_eq!(index.entries[0].id.bytes, vec![2u8; 20]);
}

#[test]
fn reinserting_equal_entry_changes_nothing() {
    let mut index = Index::empty();
    assert!(index.insert_or_replace(entry("a", 1)));
    index.write();
    assert!(!index.changed);
    assert!(!index.insert_or_replace(entry("a", 1)));
    assert!(!index.changed, "an unchanged entry must not mark the index modified");
}

#[test]
fn write_reports_pending_changes_once() {
    let mut index = Index::empty();
    assert!(!index.write());
    index.insert_or_replace(entry("a", 1));
    assert!(index.write());
    assert!(!index.write());
}

#[test]
fn find_entry_by_path() {
    let mut index = Index::empty();
    index.insert_or_replace(entry("x", 1));
    index.insert_or_replace(entry("y", 2));
    assert_eq!(index.find_entry(b"x"), Some(0));
    assert_eq!(index.find_entry(b"y"), Some(1));
    assert_eq!(index.find_entry(b"z"), None);
}
