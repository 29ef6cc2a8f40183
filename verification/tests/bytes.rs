//! The byte-string helpers the classifier and planner are built on.
use debscraper::text::{bytes_eq, clone_bytes, count_byte, find_last, has_suffix};

#[test]
fn suffix_check_handles_edges() {
    assert!(has_suffix(b"pool/a.deb", b".deb"));
    assert!(has_suffix(b"anything", b""));
    assert!(has_suffix(b"", b""));
    assert!(!has_suffix(b"deb", b".deb"));
    assert!(!has_suffix(b"a.web", b".deb"));
}

#[test]
fn byte_counting_is_exact() {
    assert_eq!(count_byte(b"/ubuntu/pool/", b'/'), 3);
    assert_eq!(count_byte(b"", b'/'), 0);
    assert_eq!(count_byte(b"///", b'/'), 3);
    assert_eq!(count_byte(b"abc", b'/'), 0);
}

#[test]
fn last_separator_is_found() {
    assert_eq!(find_last(b"/a/b/c.deb", b'/'), Some(4));
    assert_eq!(find_last(b"nope", b'/'), None);
    assert_eq!(find_last(b"/", b'/'), Some(0));
}

#[test]
fn byte_equality_and_copy() {
    assert!(bytes_eq(b"same", b"same"));
    assert!(!bytes_eq(b"same", b"sane"));
    assert!(!bytes_eq(b"same", b"sam"));
    let v = b"copy me".to_vec();
    assert_eq!(clone_bytes(&v), v);
}
