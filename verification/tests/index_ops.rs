// The directory index: insertion, overwrite, lookup and enumeration.

use airfile::index::DirectoryIndex;

#[test]
fn empty_index() {
    let index = DirectoryIndex::new();
    assert_eq!(index.len(), 0);
    assert!(index.lookup(b"anything").is_none());
    assert!(index.list().is_empty());
}

#[test]
fn insert_and_lookup() {
    let mut index = DirectoryIndex::new();
    index.insert(b"aa11".to_vec(), b"one.txt".to_vec());
    index.insert(b"bb22".to_vec(), b"two.txt".to_vec());
    assert_eq!(index.len(), 2);
    assert_eq!(index.lookup(b"aa11"), Some(&b"one.txt".to_vec()));
    assert_eq!(index.lookup(b"bb22"), Some(&b"two.txt".to_vec()));
    assert!(index.lookup(b"cc33").is_none());
    let entries = index.list();
    assert_eq!(entries.len(), 2);
    assert_eq!(entries[0].hash, b"aa11".to_vec());
    assert_eq!(entries[0].name, b"one.txt".to_vec());
    assert_eq!(entries[1].hash, b"bb22".to_vec());
    assert_eq!(entries[1].name, b"two.txt".to_vec());
}

#[test]
fn insert_same_hash_overwrites() {
    let mut index = DirectoryIndex::new();
    index.insert(b"aa11".to_vec(), b"one.txt".to_vec());
    index.insert(b"aa11".to_vec(), b"renamed.txt".to_vec());
    assert_eq!(index.len(), 1);
    assert_eq!(index.lookup(b"aa11"), Some(&b"renamed.txt".to_vec()));
}
