//! What watching a document decides at each look.

use emark_syntax::watch::poll;

#[test]
fn new_content_is_rebuilt_and_remembered() {
    let mut seen = b"old".to_vec();

    assert!(poll(&mut seen, Some(b"new".to_vec())));
    assert_eq!(seen, b"new".to_vec());
}

#[test]
fn unchanged_content_is_not_rebuilt() {
    let mut seen = b"same".to_vec();

    assert!(!poll(&mut seen, Some(b"same".to_vec())));
    assert_eq!(seen, b"same".to_vec());
}

#[test]
fn a_failed_read_changes_nothing() {
    let mut seen = b"kept".to_vec();

    assert!(!poll(&mut seen, None));
    assert_eq!(seen, b"kept".to_vec());
}

#[test]
fn an_unreadable_start_counts_the_first_read_as_a_change() {
    let mut seen = Vec::new();

    assert!(poll(&mut seen, Some(b"@module x".to_vec())));
    assert!(!poll(&mut seen, Some(b"@module x".to_vec())));
}
