use std::cmp::Ordering;
use str_intern::handle::Handle;
use str_intern::{InternedStr, Interner};

fn holding(texts: &[&str]) -> Interner {
    let mut interner = Interner::new();
    for text in texts {
        interner.intern(text);
    }
    interner
}

fn texts(handles: &[InternedStr]) -> Vec<String> {
    let mut texts = Vec::new();
    for handle in handles {
        texts.push(handle.as_str().to_string());
    }
    texts
}

#[test]
fn iter_gives_the_texts_in_the_order_of_interning() {
    let mut interner = holding(&["pear", "apple", "pear", "fig"]);
    let pear = interner.intern("pear");
    let mut iter = interner.iter();
    assert_eq!(iter.len(), 3);
    assert_eq!(iter.size_hint(), (3, Some(3)));
    let first = iter.next().unwrap();
    assert!(InternedStr::ptr_eq(first, &pear));
    assert_eq!(iter.len(), 2);
    assert_eq!(iter.next().unwrap().as_str(), "apple");
    assert_eq!(iter.next().unwrap().as_str(), "fig");
    assert!(iter.next().is_none());
    assert!(iter.next().is_none());
    assert_eq!(iter.size_hint(), (0, Some(0)));
}

#[test]
fn iter_counts_and_collects() {
    let interner = holding(&["c", "a", "b"]);
    assert_eq!(interner.iter().count(), 3);
    assert_eq!(texts(&interner.iter().collect()), vec!["c", "a", "b"]);
    assert_eq!(interner.iter().last().unwrap().as_str(), "b");
    assert!(holding(&[]).iter().last().is_none());
    assert_eq!(holding(&[]).iter().count(), 0);
}

#[test]
fn iter_nth_passes_over_handles() {
    let interner = holding(&["a", "b", "c", "d"]);
    let mut iter = interner.iter();
    assert_eq!(iter.nth(1).unwrap().as_str(), "b");
    assert_eq!(iter.len(), 2);
    assert_eq!(iter.nth(0).unwrap().as_str(), "c");
    assert!(iter.nth(1).is_none());
    assert_eq!(iter.len(), 0);
    let mut other = interner.iter();
    assert!(other.nth(4).is_none());
    assert!(other.next().is_none());
}

#[test]
fn iter_finds_the_greatest_and_the_least_text() {
    let interner = holding(&["pear", "apple", "zebra", "fig"]);
    assert_eq!(interner.iter().max().unwrap().as_str(), "zebra");
    assert_eq!(interner.iter().min().unwrap().as_str(), "apple");
    assert!(holding(&[]).iter().max().is_none());
    assert!(holding(&[]).iter().min().is_none());
    let accents = holding(&["z", "\u{e9}", "Z", "a"]);
    assert_eq!(accents.iter().max().unwrap().as_str(), "\u{e9}");
    assert_eq!(accents.iter().min().unwrap().as_str(), "Z");
    let mut rest = interner.iter();
    rest.nth(2);
    assert_eq!(rest.max().unwrap().as_str(), "fig");
}

#[test]
fn iters_compare_text_by_text() {
    let ab = holding(&["a", "b"]);
    let abc = holding(&["a", "b", "c"]);
    let ac = holding(&["a", "c"]);
    let none = holding(&[]);
    assert_eq!(ab.iter().cmp(ab.iter()), Ordering::Equal);
    assert_eq!(ab.iter().cmp(abc.iter()), Ordering::Less);
    assert_eq!(abc.iter().cmp(ab.iter()), Ordering::Greater);
    assert_eq!(ac.iter().cmp(abc.iter()), Ordering::Greater);
    assert_eq!(abc.iter().cmp(ac.iter()), Ordering::Less);
    assert_eq!(none.iter().cmp(none.iter()), Ordering::Equal);
    assert_eq!(none.iter().cmp(ab.iter()), Ordering::Less);
    assert_eq!(ab.iter().partial_cmp(ac.iter()), Some(Ordering::Less));
    assert!(ab.iter().eq(holding(&["a", "b"]).iter()));
    assert!(!ab.iter().eq(holding(&["b", "a"]).iter()));
    assert!(ab.iter().ne(abc.iter()));
    assert!(!ab.iter().ne(ab.iter()));
    assert!(ab.iter().lt(ac.iter()));
    assert!(!ab.iter().lt(ab.iter()));
    assert!(ab.iter().le(ab.iter()));
    assert!(!ac.iter().le(ab.iter()));
    assert!(ac.iter().gt(ab.iter()));
    assert!(!ab.iter().gt(ab.iter()));
    assert!(ab.iter().ge(ab.iter()));
    assert!(!ab.iter().ge(ac.iter()));
}

#[test]
fn into_iter_gives_every_text_once() {
    let mut interner = holding(&["pear", "apple", "pear"]);
    let pear = interner.intern("pear");
    let mut iter = interner.into_iter();
    assert_eq!(iter.len(), 2);
    assert_eq!(iter.size_hint(), (2, Some(2)));
    let first = iter.next().unwrap();
    assert!(InternedStr::ptr_eq(&first, &pear));
    assert_eq!(iter.next().unwrap().as_str(), "apple");
    assert!(iter.next().is_none());
    assert_eq!(iter.len(), 0);
}

#[test]
fn into_iter_counts_and_collects() {
    assert_eq!(holding(&["c", "a", "b"]).into_iter().count(), 3);
    assert_eq!(texts(&holding(&["c", "a", "b"]).into_iter().collect()), vec!["c", "a", "b"]);
    assert_eq!(holding(&["c", "a", "b"]).into_iter().last().unwrap().as_str(), "b");
    assert!(holding(&[]).into_iter().last().is_none());
    let mut iter = holding(&["a", "b", "c", "d"]).into_iter();
    assert_eq!(iter.nth(2).unwrap().as_str(), "c");
    assert_eq!(texts(&iter.collect()), vec!["d"]);
    let mut short = holding(&["a"]).into_iter();
    assert!(short.nth(1).is_none());
    assert!(short.next().is_none());
}

#[test]
fn into_iter_finds_the_greatest_and_the_least_text() {
    assert_eq!(holding(&["pear", "apple", "zebra"]).into_iter().max().unwrap().as_str(), "zebra");
    assert_eq!(holding(&["pear", "apple", "zebra"]).into_iter().min().unwrap().as_str(), "apple");
    assert!(holding(&[]).into_iter().max().is_none());
    assert!(holding(&[]).into_iter().min().is_none());
}

#[test]
fn into_iters_compare_text_by_text() {
    let ab = || holding(&["a", "b"]).into_iter();
    let abc = || holding(&["a", "b", "c"]).into_iter();
    let b = || holding(&["b"]).into_iter();
    assert_eq!(ab().cmp(ab()), Ordering::Equal);
    assert_eq!(ab().cmp(abc()), Ordering::Less);
    assert_eq!(b().cmp(abc()), Ordering::Greater);
    assert_eq!(abc().partial_cmp(b()), Some(Ordering::Less));
    assert!(ab().eq(ab()));
    assert!(ab().ne(abc()));
    assert!(ab().lt(b()));
    assert!(ab().le(ab()));
    assert!(b().gt(ab()));
    assert!(b().ge(b()));
    assert!(!b().lt(ab()));
    assert!(!b().le(ab()));
    assert!(!ab().gt(b()));
    assert!(!ab().ge(b()));
}

#[test]
fn iter_asks_a_test_of_the_handles() {
    let interner = holding(&["pear", "apple", "plum", "fig"]);
    let mut iter = interner.iter();
    assert!(iter.all(|handle| handle.as_str().len() >= 3));
    assert_eq!(iter.len(), 0);
    let mut iter = interner.iter();
    assert!(!iter.all(|handle| handle.as_str().starts_with('p')));
    assert_eq!(texts(&iter.collect()), vec!["plum", "fig"]);
    let mut iter = interner.iter();
    assert!(iter.any(|handle| handle.as_str() == "apple"));
    assert_eq!(iter.next().unwrap().as_str(), "plum");
    assert!(!iter.any(|handle| handle.as_str() == "apple"));
    assert_eq!(iter.len(), 0);
    assert!(holding(&[]).iter().all(|_| false));
    assert!(!holding(&[]).iter().any(|_| true));
}

#[test]
fn iter_finds_the_first_handle_that_passes() {
    let interner = holding(&["pear", "apple", "plum", "fig"]);
    let mut iter = interner.iter();
    assert_eq!(iter.find(|handle| handle.as_str().len() == 4).unwrap().as_str(), "pear");
    assert_eq!(iter.find(|handle| handle.as_str().len() == 4).unwrap().as_str(), "plum");
    assert!(iter.find(|handle| handle.as_str().len() == 4).is_none());
    assert_eq!(iter.len(), 0);
    let mut iter = interner.iter();
    assert_eq!(iter.position(|handle| handle.as_str() == "plum"), Some(2));
    assert_eq!(iter.position(|handle| handle.as_str() == "fig"), Some(0));
    assert_eq!(iter.position(|handle| handle.as_str() == "fig"), None);
    assert_eq!(interner.iter().position(|handle| handle.as_str() == "none"), None);
}

#[test]
fn iter_folds_from_the_left() {
    let interner = holding(&["a", "bc", "def"]);
    let joined = interner.iter().fold(String::new(), |mut so_far, handle| {
        so_far.push_str(handle.as_str());
        so_far.push('.');
        so_far
    });
    assert_eq!(joined, "a.bc.def.");
    assert_eq!(interner.iter().fold(0, |sum, handle| sum + handle.as_str().len()), 6);
    assert_eq!(holding(&[]).iter().fold(7, |sum, _| sum + 1), 7);
}

#[test]
fn into_iter_asks_a_test_of_the_handles() {
    let mut iter = holding(&["pear", "apple", "plum", "fig"]).into_iter();
    assert!(!iter.all(|handle| handle.as_str().starts_with('p')));
    assert_eq!(iter.len(), 2);
    assert!(iter.any(|handle| handle.as_str() == "fig"));
    assert_eq!(iter.len(), 0);
    let mut iter = holding(&["pear", "apple", "plum", "fig"]).into_iter();
    assert_eq!(iter.find(|handle| handle.as_str().len() == 5).unwrap().as_str(), "apple");
    assert_eq!(iter.position(|handle| handle.as_str() == "fig"), Some(1));
    assert!(iter.find(|_| true).is_none());
}

#[test]
fn into_iter_folds_from_the_left() {
    let total = holding(&["a", "bc", "def"]).into_iter().fold(0, |sum, handle| {
        sum * 10 + handle.as_str().len()
    });
    assert_eq!(total, 123);
}
