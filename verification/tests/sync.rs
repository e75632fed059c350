use std::collections::hash_map::RandomState;
use std::sync::{LockResult, MutexGuard, PoisonError};
use str_intern::handle::Handle;
use str_intern::sync::{
    intern, GlobalInterner, InternExt, InternedStr, Interner, LockPoisoned, LockedInterner, Strings,
};

fn lock(interner: &Interner) -> LockedInterner<'_> {
    Interner::lock(interner.strings().lock()).unwrap()
}

fn saved(interner: &Interner, text: &str) -> InternedStr {
    Interner::intern(&mut interner.strings().lock(), text).unwrap()
}

fn holding(texts: &[&str]) -> Interner {
    let interner = Interner::new();
    for text in texts {
        saved(&interner, text);
    }
    interner
}

fn poisoned(interner: &Interner) -> LockResult<MutexGuard<'_, Strings>> {
    Err(PoisonError::new(interner.strings().lock().unwrap()))
}

fn texts(handles: &[InternedStr]) -> Vec<String> {
    let mut texts = Vec::new();
    for handle in handles {
        texts.push(handle.as_str().to_string());
    }
    texts
}

#[test]
fn main() {
    let global = GlobalInterner::new();
    let s0 = intern(&mut global.strings().lock(), &"Hello World!".to_string()).unwrap();
    let s1 = "Hello World!".intern(&mut global.strings().lock()).unwrap();
    assert!(InternedStr::ptr_eq(&s0, &s1));
}

#[test]
fn shared_interner_aliases_one_allocation() {
    let interner = Interner::new();
    let foo0 = saved(&interner, "foo");
    let foo1 = saved(&interner, "foo");
    assert!(InternedStr::ptr_eq(&foo0, &foo1));
    assert_eq!(foo0.as_str(), "foo");
    assert_eq!(lock(&interner).len(), 1);
}

#[test]
fn shared_interner_keeps_different_texts_apart() {
    let interner = Interner::new();
    let foo = saved(&interner, "foo");
    let bar = saved(&interner, "bar");
    let again = saved(&interner, "foo");
    assert!(!InternedStr::ptr_eq(&foo, &bar));
    assert!(InternedStr::ptr_eq(&foo, &again));
    assert_eq!(bar.as_str(), "bar");
    assert_eq!(lock(&interner).len(), 2);
}

#[test]
fn texts_are_kept_byte_for_byte() {
    let interner = Interner::new();
    let mut locked = lock(&interner);
    let a = locked.intern("foo");
    let b = locked.intern("Foo");
    let c = locked.intern("foo ");
    let d = locked.intern("");
    assert_eq!(locked.iter().count(), 4);
    assert_eq!(a.as_str(), "foo");
    assert_eq!(b.as_str(), "Foo");
    assert_eq!(c.as_str(), "foo ");
    assert_eq!(d.as_str(), "");
    assert!(!InternedStr::ptr_eq(&a, &b));
    assert!(!InternedStr::ptr_eq(&a, &c));
}

#[test]
fn hundred_callers_converge_on_one_allocation() {
    let interner = Interner::new();
    let shared = &interner;
    let mut handles = Vec::new();
    for _ in 0..100 {
        handles.push(saved(shared, "x"));
    }
    assert_eq!(handles.len(), 100);
    for handle in &handles {
        assert!(InternedStr::ptr_eq(handle, &handles[0]));
        assert_eq!(handle.as_str(), "x");
    }
    let locked = lock(&interner);
    assert_eq!(locked.len(), 1);
    assert!(locked.contains("x"));
    assert!(!locked.contains("y"));
}

#[test]
fn shared_clear_lets_go_of_the_store_only() {
    let interner = Interner::new();
    let before = saved(&interner, "foo");
    assert_eq!(Interner::clear(&mut interner.strings().lock()), Ok(()));
    assert_eq!(lock(&interner).len(), 0);
    let after = saved(&interner, "foo");
    assert_eq!(before.as_str(), "foo");
    assert_eq!(after.as_str(), before.as_str());
    assert!(!InternedStr::ptr_eq(&before, &after));
}

#[test]
fn two_shared_interners_share_nothing() {
    let a = saved(&Interner::new(), "x");
    let b = saved(&Interner::new(), "x");
    assert_eq!(a.as_str(), b.as_str());
    assert!(!InternedStr::ptr_eq(&a, &b));
}

#[test]
fn the_registry_and_a_local_interner_share_nothing() {
    let global = GlobalInterner::new();
    let local = Interner::new();
    let a = intern(&mut global.strings().lock(), "x").unwrap();
    let b = saved(&local, "x");
    assert_eq!(a.as_str(), "x");
    assert_eq!(b.as_str(), "x");
    assert!(!InternedStr::ptr_eq(&a, &b));
}

#[test]
fn the_registry_makes_its_interner_once() {
    let global = GlobalInterner::new();
    assert!(std::ptr::eq(global.deref(), global.deref()));
    assert!(std::ptr::eq(global.strings(), global.deref().strings()));
    let a = saved(global.deref(), "once");
    let b = "once".to_string().intern(&mut global.strings().lock()).unwrap();
    assert!(InternedStr::ptr_eq(&a, &b));
    assert_eq!(lock(global.deref()).len(), 1);
}

#[test]
fn a_lease_batches_operations() {
    let interner = Interner::with_hasher(RandomState::new());
    {
        let mut locked = lock(&interner);
        let a = locked.intern("a");
        let b = locked.intern("b");
        let a2 = locked.intern("a");
        assert!(InternedStr::ptr_eq(&a, &a2));
        assert!(!InternedStr::ptr_eq(&a, &b));
        assert_eq!(locked.len(), 2);
        assert_eq!(texts(&locked.iter().collect()), vec!["a", "b"]);
        assert_eq!(texts(&locked.into_iter().collect()), vec!["a", "b"]);
    }
    let a3 = saved(&interner, "a");
    let mut locked = lock(&interner);
    assert_eq!(locked.len(), 2);
    let a4 = locked.intern("a");
    assert!(InternedStr::ptr_eq(&a3, &a4));
    locked.clear();
    assert_eq!(locked.len(), 0);
    assert!(!locked.contains("a"));
    assert_eq!(locked.iter().count(), 0);
}

#[test]
fn a_lease_works_on_the_interners_own_store() {
    let interner = Interner::new();
    let a = saved(&interner, "k");
    let mut locked = lock(&interner);
    let b = locked.intern("k");
    assert!(InternedStr::ptr_eq(&a, &b));
    assert_eq!(locked.iter().count(), 1);
    drop(locked);
    let again = lock(&interner);
    assert_eq!(again.iter().count(), 1);
    assert!(again.iter().all(|handle| handle.as_str() == "k"));
}

#[test]
fn shared_from_set_and_into_set_round_trip() {
    let source = Interner::new();
    let one = saved(&source, "one");
    let two = saved(&source, "two");
    let twin = saved(&Interner::new(), "one");
    let interner = Interner::from_set(vec![one.clone(), two.clone(), twin.clone()]);
    let kept = saved(&interner, "one");
    assert!(InternedStr::ptr_eq(&kept, &one));
    assert!(!InternedStr::ptr_eq(&kept, &twin));
    assert_eq!(lock(&interner).len(), 2);
    let set = interner.into_set().unwrap();
    assert_eq!(texts(&set), vec!["one", "two"]);
    assert!(InternedStr::ptr_eq(&set[1], &two));
}

#[test]
fn shared_into_set_gives_what_was_interned_and_not_cleared() {
    let interner = holding(&["a", "a", "b"]);
    Interner::clear(&mut interner.strings().lock()).unwrap();
    saved(&interner, "b");
    let set = interner.into_set().unwrap();
    assert_eq!(texts(&set), vec!["b"]);
}

#[test]
fn shared_into_iter_gives_every_text_once() {
    let mut iter = holding(&["b", "a", "b"]).into_iter().unwrap();
    assert_eq!(iter.len(), 2);
    assert_eq!(iter.size_hint(), (2, Some(2)));
    assert_eq!(iter.next().unwrap().as_str(), "b");
    assert_eq!(iter.next().unwrap().as_str(), "a");
    assert!(iter.next().is_none());
}

#[test]
fn shared_interners_compare_by_their_texts() {
    let first = Interner::new();
    let second = Interner::default();
    let same = |a: &Interner, b: &Interner| Interner::eq(&a.strings().lock(), &b.strings().lock());
    let differ = |a: &Interner, b: &Interner| Interner::ne(&a.strings().lock(), &b.strings().lock());
    assert_eq!(same(&first, &second), Ok(true));
    saved(&first, "a");
    saved(&first, "b");
    assert_eq!(same(&first, &second), Ok(false));
    assert_eq!(differ(&first, &second), Ok(true));
    saved(&second, "b");
    assert_eq!(same(&second, &first), Ok(false));
    saved(&second, "a");
    assert_eq!(same(&first, &second), Ok(true));
    assert_eq!(differ(&first, &second), Ok(false));
    let lease = first.strings().lock();
    assert_eq!(Interner::eq(&lease, &lease), Ok(true));
    assert_eq!(Interner::ne(&lease, &lease), Ok(false));
    drop(lease);
    let a = lock(&first);
    let b = lock(&second);
    assert!(a == b);
}

#[test]
fn a_shared_clone_shares_the_allocations() {
    let interner = Interner::new();
    let foo = saved(&interner, "foo");
    let copy = Interner::clone(&interner.strings().lock()).unwrap();
    let from_copy = saved(&copy, "foo");
    assert!(InternedStr::ptr_eq(&foo, &from_copy));
    saved(&copy, "bar");
    assert_eq!(lock(&copy).len(), 2);
    assert_eq!(lock(&interner).len(), 1);
}

#[test]
fn shared_handles_clone_to_the_same_allocation() {
    let foo = saved(&Interner::new(), "foo");
    let copy = foo.clone();
    assert!(InternedStr::ptr_eq(&foo, &copy));
    assert_eq!(copy.as_str(), "foo");
    let shared = foo.share();
    assert!(InternedStr::ptr_eq(&foo, &shared));
}

#[test]
fn shared_handles_compare_by_their_text() {
    let a = saved(&Interner::new(), "same");
    let b = saved(&Interner::new(), "same");
    let c = saved(&Interner::new(), "other");
    assert!(a == b);
    assert!(!InternedStr::ptr_eq(&a, &b));
    assert!(a != c);
}

#[test]
fn the_poison_error_has_its_words() {
    assert_eq!(LockPoisoned.message(), "Interner mutex was poisoned");
    assert_eq!(LockPoisoned, LockPoisoned.clone());
}

#[test]
fn a_poisoned_lock_fails_every_operation_and_changes_nothing() {
    let interner = holding(&["kept"]);
    let other = Interner::new();
    {
        let mut answer = poisoned(&interner);
        assert_eq!(Interner::intern(&mut answer, "x").err(), Some(LockPoisoned));
        assert_eq!(intern(&mut answer, "x").err(), Some(LockPoisoned));
        assert_eq!("x".intern(&mut answer).err(), Some(LockPoisoned));
        assert_eq!(Interner::clear(&mut answer), Err(LockPoisoned));
        assert!(Interner::clone(&answer).is_err());
        assert_eq!(Interner::eq(&answer, &other.strings().lock()), Err(LockPoisoned));
        assert_eq!(Interner::eq(&other.strings().lock(), &answer), Err(LockPoisoned));
        assert_eq!(Interner::ne(&answer, &other.strings().lock()), Err(LockPoisoned));
        assert!(answer.is_err());
        assert!(Interner::lock(answer).is_err());
    }
    assert!(LockedInterner::new(poisoned(&interner)).is_err());
    assert!(Interner::iter_of(Err(LockPoisoned)).is_err());
    let locked = lock(&interner);
    assert_eq!(locked.len(), 1);
    assert!(locked.contains("kept"));
    assert!(!locked.contains("x"));
}

#[test]
fn shared_from_iter_takes_what_the_iterator_has_left() {
    let source = Interner::new();
    saved(&source, "a");
    let b = saved(&source, "b");
    let mut iter = source.into_iter().unwrap();
    iter.next();
    let interner = Interner::from_iter(iter);
    assert_eq!(lock(&interner).len(), 1);
    assert!(InternedStr::ptr_eq(&saved(&interner, "b"), &b));
}

#[test]
fn shared_iterators_find_and_order() {
    let interner = holding(&["pear", "apple", "plum"]);
    let locked = lock(&interner);
    assert_eq!(locked.iter().max().unwrap().as_str(), "plum");
    assert_eq!(locked.iter().min().unwrap().as_str(), "apple");
    assert_eq!(locked.iter().last().unwrap().as_str(), "plum");
    assert_eq!(locked.iter().nth(1).unwrap().as_str(), "apple");
    assert_eq!(locked.iter().position(|handle| handle.as_str() == "plum"), Some(2));
    assert_eq!(locked.iter().find(|handle| handle.as_str().len() == 5).unwrap().as_str(), "apple");
    assert!(locked.iter().all(|handle| handle.as_str().contains('p')));
    assert!(!locked.iter().any(|handle| handle.as_str().is_empty()));
    assert_eq!(locked.iter().fold(0, |sum, handle| sum + handle.as_str().len()), 13);
    assert_eq!(locked.iter().cmp(locked.iter()), std::cmp::Ordering::Equal);
    assert_eq!(locked.iter().partial_cmp(locked.iter()), Some(std::cmp::Ordering::Equal));
    let mut later = locked.iter();
    later.next();
    assert!(later.lt(locked.iter()));
    assert!(locked.iter().eq(locked.iter()));
    assert!(locked.iter().ge(locked.iter()));
    assert!(locked.iter().le(locked.iter()));
    assert!(!locked.iter().gt(locked.iter()));
    assert!(!locked.iter().ne(locked.iter()));
    assert_eq!(locked.iter().count(), 3);
}

#[test]
fn shared_into_iter_finds_and_orders() {
    let made = |texts: &[&str]| holding(texts).into_iter().unwrap();
    assert_eq!(made(&["b", "c", "a"]).max().unwrap().as_str(), "c");
    assert_eq!(made(&["b", "c", "a"]).min().unwrap().as_str(), "a");
    assert_eq!(made(&["b", "c", "a"]).last().unwrap().as_str(), "a");
    assert_eq!(made(&["b", "c", "a"]).count(), 3);
    assert_eq!(made(&["b", "c", "a"]).nth(1).unwrap().as_str(), "c");
    assert_eq!(made(&["b", "c", "a"]).position(|handle| handle.as_str() == "a"), Some(2));
    assert_eq!(made(&["b", "c"]).find(|handle| handle.as_str() > "b").unwrap().as_str(), "c");
    assert!(made(&["b", "c"]).all(|handle| handle.as_str().len() == 1));
    assert!(!made(&["b", "c"]).any(|handle| handle.as_str() == "a"));
    assert_eq!(made(&["b", "cc"]).fold(0, |sum, handle| sum + handle.as_str().len()), 3);
    assert_eq!(made(&["a"]).cmp(made(&["b"])), std::cmp::Ordering::Less);
    assert_eq!(made(&["b"]).partial_cmp(made(&["a"])), Some(std::cmp::Ordering::Greater));
    assert!(made(&["a"]).eq(made(&["a"])));
    assert!(made(&["a"]).ne(made(&["a", "b"])));
    assert!(made(&["a"]).lt(made(&["a", "b"])));
    assert!(made(&["a"]).le(made(&["a"])));
    assert!(made(&["b"]).gt(made(&["a", "b"])));
    assert!(made(&["b"]).ge(made(&["b"])));
    assert_eq!(texts(&made(&["x", "y"]).collect()), vec!["x", "y"]);
}
