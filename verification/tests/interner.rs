use std::collections::hash_map::RandomState;
use str_intern::handle::Handle;
use str_intern::{InternedStr, Interner};

fn texts(handles: &[InternedStr]) -> Vec<String> {
    let mut texts = Vec::new();
    for handle in handles {
        texts.push(handle.as_str().to_string());
    }
    texts
}

#[test]
fn interning_twice_aliases_one_allocation() {
    let mut interner = Interner::new();
    let foo0 = interner.intern(&String::from("foo"));
    let foo1 = interner.intern(&String::from("foo"));
    assert!(InternedStr::ptr_eq(&foo0, &foo1));
    assert_eq!(foo0.as_str(), "foo");
    assert_eq!(interner.len(), 1);
}

#[test]
fn different_texts_get_different_allocations() {
    let mut interner = Interner::new();
    assert_eq!(interner.len(), 0);
    let foo = interner.intern("foo");
    assert_eq!(interner.len(), 1);
    let bar = interner.intern("bar");
    assert_eq!(interner.len(), 2);
    let again = interner.intern("foo");
    assert_eq!(interner.len(), 2);
    assert!(!InternedStr::ptr_eq(&foo, &bar));
    assert!(InternedStr::ptr_eq(&foo, &again));
    assert_eq!(foo.as_str(), "foo");
    assert_eq!(bar.as_str(), "bar");
}

#[test]
fn the_store_grows_by_the_distinct_texts() {
    let mut interner = Interner::new();
    for text in ["a", "b", "a", "c", "b", "a", ""] {
        interner.intern(text);
    }
    assert_eq!(interner.len(), 4);
    assert!(interner.contains("a"));
    assert!(interner.contains(""));
    assert!(!interner.contains("d"));
}

#[test]
fn clearing_lets_go_of_the_store_only() {
    let mut interner = Interner::new();
    let before = interner.intern("foo");
    interner.clear();
    assert_eq!(interner.len(), 0);
    assert!(!interner.contains("foo"));
    let after = interner.intern("foo");
    assert_eq!(before.as_str(), "foo");
    assert_eq!(after.as_str(), before.as_str());
    assert!(!InternedStr::ptr_eq(&before, &after));
    assert_eq!(interner.len(), 1);
}

#[test]
fn two_interners_share_nothing() {
    let mut first = Interner::new();
    let mut second = Interner::new();
    let a = first.intern("x");
    let b = second.intern("x");
    assert_eq!(a.as_str(), b.as_str());
    assert!(!InternedStr::ptr_eq(&a, &b));
}

#[test]
fn interners_compare_by_their_texts() {
    let mut first = Interner::new();
    let mut second = Interner::with_hasher(RandomState::new());
    assert!(first == second);
    first.intern("a");
    first.intern("b");
    assert!(first != second);
    second.intern("b");
    assert!(first != second);
    assert!(second != first);
    second.intern("a");
    assert!(first == second);
    second.intern("c");
    assert!(first != second);
    second.clear();
    first.clear();
    assert!(first == second);
    assert!(first == Interner::default());
}

#[test]
fn into_set_gives_what_was_interned_and_not_cleared() {
    let mut interner = Interner::new();
    interner.intern("gone");
    interner.intern("also gone");
    interner.clear();
    interner.intern("b");
    let a = interner.intern("a");
    interner.intern("b");
    let set = interner.into_set();
    assert_eq!(texts(&set), vec!["b", "a"]);
    assert!(InternedStr::ptr_eq(&set[1], &a));
}

#[test]
fn into_set_of_a_new_interner_is_empty() {
    assert!(Interner::new().into_set().is_empty());
    assert!(Interner::default().into_iter().next().is_none());
}

#[test]
fn from_set_keeps_the_first_handle_of_each_text() {
    let mut source = Interner::new();
    let one = source.intern("one");
    let two = source.intern("two");
    let twin = Interner::new().intern("one");
    let mut interner = Interner::from_set(vec![one.clone(), two.clone(), twin.clone()]);
    assert_eq!(interner.len(), 2);
    let kept = interner.intern("one");
    assert!(InternedStr::ptr_eq(&kept, &one));
    assert!(!InternedStr::ptr_eq(&kept, &twin));
    let three = interner.intern("three");
    assert_eq!(three.as_str(), "three");
    assert_eq!(texts(&interner.into_set()), vec!["one", "two", "three"]);
}

#[test]
fn from_set_of_into_set_holds_the_same() {
    let mut interner = Interner::new();
    let foo = interner.intern("foo");
    interner.intern("bar");
    let copy = interner.clone();
    let mut again = Interner::from_set(interner.into_set());
    assert!(again == copy);
    assert!(InternedStr::ptr_eq(&again.intern("foo"), &foo));
}

#[test]
fn a_clone_shares_the_allocations() {
    let mut interner = Interner::new();
    let foo = interner.intern("foo");
    let mut copy = interner.clone();
    assert!(copy == interner);
    let from_copy = copy.intern("foo");
    assert!(InternedStr::ptr_eq(&foo, &from_copy));
    copy.intern("bar");
    assert_eq!(copy.len(), 2);
    assert_eq!(interner.len(), 1);
    let bar = interner.intern("bar");
    assert!(!InternedStr::ptr_eq(&bar, &copy.intern("bar")));
}

#[test]
fn handles_clone_to_the_same_allocation() {
    let mut interner = Interner::new();
    let foo = interner.intern("foo");
    let copy = foo.clone();
    assert!(InternedStr::ptr_eq(&foo, &copy));
    assert_eq!(copy.as_str(), "foo");
    let shared = foo.share();
    assert!(InternedStr::ptr_eq(&foo, &shared));
    drop(interner);
    assert_eq!(foo.as_str(), "foo");
}

#[test]
fn many_texts_stay_apart() {
    let mut interner = Interner::new();
    let mut handles = Vec::new();
    for i in 0..500 {
        handles.push(interner.intern(&format!("text {}", i)));
    }
    assert_eq!(interner.len(), 500);
    for i in 0..500 {
        let again = interner.intern(&format!("text {}", i));
        assert!(InternedStr::ptr_eq(&again, &handles[i]));
        assert_eq!(again.as_str(), format!("text {}", i));
    }
    assert_eq!(interner.len(), 500);
    assert!(!InternedStr::ptr_eq(&handles[3], &handles[4]));
}

#[test]
fn texts_that_are_not_ascii_are_kept_whole() {
    let mut interner = Interner::new();
    let a = interner.intern("gr\u{fc}\u{df}e \u{4e16}\u{754c}");
    let b = interner.intern("gr\u{fc}\u{df}e \u{4e16}\u{754c}");
    let c = interner.intern("gru\u{df}e \u{4e16}\u{754c}");
    assert!(InternedStr::ptr_eq(&a, &b));
    assert!(!InternedStr::ptr_eq(&a, &c));
    assert_eq!(a.as_str(), "gr\u{fc}\u{df}e \u{4e16}\u{754c}");
    assert_eq!(interner.len(), 2);
}

#[test]
fn from_iter_takes_what_the_iterator_has_left() {
    let mut source = Interner::new();
    source.intern("a");
    let b = source.intern("b");
    source.intern("c");
    let mut iter = source.into_iter();
    iter.next();
    let mut interner = Interner::from_iter(iter);
    assert_eq!(interner.len(), 2);
    assert!(!interner.contains("a"));
    assert!(InternedStr::ptr_eq(&interner.intern("b"), &b));
    assert_eq!(texts(&interner.into_set()), vec!["b", "c"]);
}

#[test]
fn handles_compare_by_their_text() {
    let mut first = Interner::new();
    let mut second = Interner::new();
    let a = first.intern("same");
    let b = second.intern("same");
    let c = first.intern("other");
    assert!(a == b);
    assert!(!InternedStr::ptr_eq(&a, &b));
    assert!(a != c);
    assert!(a == a.clone());
}
