use std::cmp::Ordering;
use std::collections::hash_map::DefaultHasher;
use std::hash::Hasher;
use str_intern::order::{comes_before, compare_text};
use str_intern::text::{digest_of, same_text};

#[test]
fn same_text_compares_every_byte() {
    assert!(same_text("", ""));
    assert!(same_text("foo", "foo"));
    assert!(!same_text("foo", "fop"));
    assert!(!same_text("foo", "fo"));
    assert!(!same_text("", "a"));
    assert!(same_text("na\u{ef}ve", "na\u{ef}ve"));
    assert!(!same_text("na\u{ef}ve", "naive"));
}

#[test]
fn digest_is_that_of_one_write_of_the_bytes() {
    let mut hasher = DefaultHasher::new();
    hasher.write("Hello World!".as_bytes());
    assert_eq!(digest_of("Hello World!"), hasher.finish());
    assert_eq!(digest_of("abc"), digest_of(&String::from("abc")));
    assert_ne!(digest_of("abc"), digest_of("abd"));
    let mut empty = DefaultHasher::new();
    empty.write(&[]);
    assert_eq!(digest_of(""), empty.finish());
}

#[test]
fn texts_are_ordered_by_their_bytes() {
    assert_eq!(compare_text("", ""), Ordering::Equal);
    assert_eq!(compare_text("", "a"), Ordering::Less);
    assert_eq!(compare_text("a", ""), Ordering::Greater);
    assert_eq!(compare_text("abc", "abd"), Ordering::Less);
    assert_eq!(compare_text("abd", "abc"), Ordering::Greater);
    assert_eq!(compare_text("ab", "abc"), Ordering::Less);
    assert_eq!(compare_text("abc", "abc"), Ordering::Equal);
    assert_eq!(compare_text("Z", "a"), Ordering::Less);
    assert_eq!(compare_text("z", "\u{e9}"), Ordering::Less);
    assert_eq!(compare_text("\u{10000}", "\u{ffff}"), Ordering::Greater);
    for (a, b) in [("", "x"), ("a", "b"), ("\u{e9}", "z"), ("same", "same"), ("ab", "a")] {
        assert_eq!(compare_text(a, b), a.cmp(b));
        assert_eq!(comes_before(a, b), a < b);
    }
}
