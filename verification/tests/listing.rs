// The LIST exchange and the fate of unknown hashes.

use airfile::command::classify_list_reply;
use airfile::command::get_command;
use airfile::command::ListReply;
use airfile::index::DirectoryIndex;
use airfile::server::handle_list;
use airfile::server::UploaderError;

// An empty directory: the listing frame carries no entries, the sentinel
// ends the listing, and the client prints an empty list.
#[test]
fn empty_directory_listing() {
    let index = DirectoryIndex::new();
    let (listing, sentinel) = handle_list(&index, 77);
    assert_eq!(listing, b"l 77\n".to_vec());
    assert_eq!(sentinel, b"l 77".to_vec());
    match classify_list_reply(&listing, 77) {
        ListReply::Entries { lines } => assert!(lines.is_empty()),
        other => panic!("not Entries: {:?}", other),
    }
    assert!(matches!(classify_list_reply(&sentinel, 77), ListReply::End));
}

// A listing travels to the client and comes back as exactly the indexed
// pairs, so repeating LIST over an unchanged directory repeats the pairs.
#[test]
fn listing_round_trip() {
    let mut index = DirectoryIndex::new();
    index.insert(b"aa11".to_vec(), b"one.txt".to_vec());
    index.insert(b"bb22".to_vec(), b"two.txt".to_vec());
    let (listing, _) = handle_list(&index, 5);
    assert_eq!(listing, b"l 5\naa11 one.txt\nbb22 two.txt\n".to_vec());
    match classify_list_reply(&listing, 5) {
        ListReply::Entries { lines } => {
            assert_eq!(lines, vec![b"aa11 one.txt".to_vec(), b"bb22 two.txt".to_vec()]);
        },
        other => panic!("not Entries: {:?}", other),
    }
    let (again, _) = handle_list(&index, 5);
    assert_eq!(again, listing);
}

// A client listening for one tag ignores listings framed with another.
#[test]
fn listing_wrong_tag_ignored() {
    let mut index = DirectoryIndex::new();
    index.insert(b"aa11".to_vec(), b"one.txt".to_vec());
    let (listing, sentinel) = handle_list(&index, 5);
    assert!(matches!(classify_list_reply(&listing, 6), ListReply::NoMatch));
    assert!(matches!(classify_list_reply(&sentinel, 6), ListReply::NoMatch));
}

// A hash the server does not hold: the lookup misses, the server logs
// HashNotFound and stays silent, and the client can only resend its GET
// with an unchanged byte count.
#[test]
fn unknown_hash_is_not_served() {
    let mut index = DirectoryIndex::new();
    index.insert(b"aa11".to_vec(), b"one.txt".to_vec());
    assert!(index.lookup(b"deadbeef").is_none());
    let err = UploaderError::HashNotFound;
    assert!(matches!(err, UploaderError::HashNotFound));
    let first = get_command(321, 0, b"deadbeef");
    assert_eq!(first, b"G 321 0 0 deadbeef".to_vec());
    let resend = get_command(321, 0, b"deadbeef");
    assert_eq!(resend, first);
}
