//! Deduplicating storage for strings: an interner hands out shared handles,
//! one allocation for each distinct text.

pub mod cursor;
pub mod handle;
pub mod iter;
pub mod model;
pub mod order;
pub mod pool;
pub mod sync;
pub mod text;

use crate::cursor::{Cursor, Drain};
use crate::handle::{first_of_each, held_by, held_by_all, Handle};
use crate::model::{Held, Model};
use crate::pool::Pool;
use crate::text::same_text;
use std::collections::hash_map::RandomState;
use std::rc::Rc;
use vstd::prelude::*;

verus! {

/// One allocated text behind std's `Rc`. Nothing of it is open but through
/// the four functions below, so that two values are equal exactly when they
/// are one allocation, whatever text they hold.
#[verifier::external_body]
pub struct Allocation {
    text: Rc<str>,
}

/// The text that an allocation holds, which never changes.
pub uninterp spec fn rc_text(allocation: Allocation) -> Seq<char>;

/// `Rc::from` of std, on a `&str`: a new allocation that holds a copy of the
/// text.
#[verifier::external_body]
fn rc_from_str(text: &str) -> (made: Allocation)
    ensures
        rc_text(made) == text@,
{
    Allocation { text: Rc::from(text) }
}

/// `Rc::clone` of std: another reference to the same allocation.
#[verifier::external_body]
fn rc_clone(this: &Allocation) -> (copy: Allocation)
    ensures
        copy == *this,
{
    Allocation { text: Rc::clone(&this.text) }
}

/// `Deref::deref` of std's `Rc`: the text in the allocation.
#[verifier::external_body]
fn rc_as_str(this: &Allocation) -> (text: &str)
    ensures
        text@ == rc_text(*this),
{
    &this.text
}

/// `Rc::ptr_eq` of std: whether the two point to one allocation.
#[verifier::external_body]
fn rc_ptr_eq(this: &Allocation, other: &Allocation) -> (same: bool)
    ensures
        same == (*this == *other),
{
    Rc::ptr_eq(&this.text, &other.text)
}

/// A string that has been interned: a shared handle to its allocation.
pub struct InternedStr {
    text: Allocation,
    serial: Ghost<nat>,
}

impl View for InternedStr {
    type V = Seq<char>;

    /// The text of the allocation.
    open spec fn view(&self) -> Seq<char> {
        self.text()
    }
}

impl Handle for InternedStr {
    closed spec fn text(&self) -> Seq<char> {
        rc_text(self.text)
    }

    closed spec fn serial(&self) -> nat {
        self.serial@
    }

    fn allocate(text: &str, serial: Ghost<nat>) -> (made: Self) {
        InternedStr { text: rc_from_str(text), serial }
    }

    fn share(&self) -> (shared: Self) {
        InternedStr { text: rc_clone(&self.text), serial: self.serial }
    }

    fn as_str(&self) -> (text: &str) {
        rc_as_str(&self.text)
    }
}

impl InternedStr {
    /// The allocation that the handle points to.
    pub closed spec fn allocation(&self) -> Allocation {
        self.text
    }

    /// Whether `this` and `other` point to one allocation. A handle and its
    /// clone do; handles of different texts do not.
    pub fn ptr_eq(this: &Self, other: &Self) -> (same: bool)
        ensures
            same == (this.allocation() == other.allocation()),
            *this == *other ==> same,
            same ==> this@ == other@,
    {
        rc_ptr_eq(&this.text, &other.text)
    }
}

impl Clone for InternedStr {
    /// Another handle to the same allocation.
    fn clone(&self) -> (copy: Self)
        ensures
            copy == *self,
    {
        self.share()
    }
}

impl PartialEq for InternedStr {
    /// Two handles are equal when they hold the same text, whether or not
    /// they point to one allocation.
    fn eq(&self, other: &Self) -> (same: bool) {
        same_text(self.as_str(), other.as_str())
    }
}

impl vstd::std_specs::cmp::PartialEqSpecImpl for InternedStr {
    open spec fn obeys_eq_spec() -> bool {
        true
    }

    open spec fn eq_spec(&self, other: &Self) -> bool {
        self@ == other@
    }
}

impl Eq for InternedStr {

}

/// An iterator over the strings in an `Interner`.
pub type Iter<'a> = crate::iter::Iter<'a, InternedStr>;

/// An owning iterator over the strings that were in an `Interner`.
pub type IntoIter = crate::iter::IntoIter<InternedStr>;

/// An interner keeps track of strings and sees to it that there is only one
/// allocation for any given text.
pub struct Interner {
    strings: Pool<InternedStr>,
}

impl View for Interner {
    type V = Model;

    closed spec fn view(&self) -> Model {
        self.strings.model()
    }
}

impl Interner {
    #[verifier::type_invariant]
    spec fn inv(&self) -> bool {
        self.strings.wf()
    }

    /// The handles in the store, in the order in which they entered it.
    pub closed spec fn handles(&self) -> Seq<InternedStr> {
        self.strings.handles()
    }

    /// The handles in the store after `text` was interned and `handle` given
    /// out for it: those that were there, and after them `handle` if the text
    /// was not held.
    pub open spec fn stored(&self, text: Seq<char>, handle: InternedStr) -> Seq<InternedStr> {
        if self@.holds(text) {
            self.handles()
        } else {
            self.handles().push(handle)
        }
    }

    /// Constructs a new `Interner`, which holds nothing.
    pub fn new() -> (interner: Self)
        ensures
            interner@.wf(),
            interner@.held == Seq::<Held>::empty(),
            interner.handles() == Seq::<InternedStr>::empty(),
    {
        let strings = Pool::new();
        proof {
            strings.lemma_model_wf();
        }
        Self::from_pool(strings)
    }

    /// An interner over the store `strings`.
    fn from_pool(strings: Pool<InternedStr>) -> (interner: Self)
        requires
            strings.wf(),
        ensures
            interner@ == strings.model(),
            interner.handles() == strings.handles(),
    {
        Interner { strings }
    }

    /// Constructs a new `Interner`, which holds nothing and whose index
    /// hashes with the given hasher.
    pub fn with_hasher(hasher: RandomState) -> (interner: Self)
        ensures
            interner@.wf(),
            interner@.held == Seq::<Held>::empty(),
            interner.handles() == Seq::<InternedStr>::empty(),
    {
        let strings = Pool::with_hasher(hasher);
        proof {
            strings.lemma_model_wf();
        }
        Self::from_pool(strings)
    }

    /// Constructs a new `Interner` with the given handles already interned.
    /// Where several of them hold the same text, the first is kept.
    pub fn from_set(strings: Vec<InternedStr>) -> (interner: Self)
        ensures
            interner@.wf(),
            interner@ == Model::empty(0).adopt_all(held_by_all(strings@)),
            interner.handles() == first_of_each(strings@),
    {
        let strings = Pool::from_vec(strings);
        proof {
            strings.lemma_model_wf();
        }
        Self::from_pool(strings)
    }

    /// Constructs a new `Interner` with the handles that `strings` has left
    /// already interned. Where several of them hold the same text, the first
    /// is kept.
    pub fn from_iter(strings: IntoIter) -> (interner: Self)
        ensures
            interner@.wf(),
            interner@ == Model::empty(0).adopt_all(held_by_all(strings@)),
            interner.handles() == first_of_each(strings@),
    {
        let handles = strings.collect();
        proof {
            assert(handles@ =~= strings@);
        }
        Self::from_set(handles)
    }

    /// Consumes this `Interner` and returns the handles that were in it, one
    /// for each text, in the order in which the texts were first interned.
    pub fn into_set(self) -> (strings: Vec<InternedStr>)
        ensures
            strings@ == self.handles(),
            held_by_all(strings@) == self@.held,
            strings@.len() == self@.count(),
    {
        proof {
            self.strings.lemma_model_of_handles();
        }
        self.strings.into_vec()
    }

    /// Removes all of the interned strings. Handles that were given out stay
    /// as they are.
    pub fn clear(&mut self)
        ensures
            final(self)@.wf(),
            final(self)@ == old(self)@.clear(),
            final(self).handles() == Seq::<InternedStr>::empty(),
    {
        proof {
            use_type_invariant(&*self);
        }
        let mut strings = Pool::new();
        std::mem::swap(&mut strings, &mut self.strings);
        strings.clear();
        proof {
            strings.lemma_model_wf();
        }
        self.strings = strings;
    }

    /// An iterator over all of the currently interned strings.
    pub fn iter(&self) -> (iter: Iter<'_>)
        ensures
            iter@ == self.handles(),
    {
        Iter::new(Cursor::new(self.strings.entries()))
    }

    /// Consumes this `Interner` for an iterator over the strings that were
    /// interned.
    pub fn into_iter(self) -> (iter: IntoIter)
        ensures
            iter@ == self.handles(),
    {
        IntoIter::new(Drain::new(self.strings.into_vec()))
    }

    /// The state lists the handles' allocations in the handles' order.
    pub proof fn lemma_handles(&self)
        ensures
            self@.held == held_by_all(self.handles()),
    {
        self.strings.lemma_model_of_handles();
    }

    /// The number of interned strings.
    pub fn len(&self) -> (n: usize)
        ensures
            n == self@.count(),
    {
        self.strings.len()
    }

    /// Whether `text` is interned.
    pub fn contains(&self, text: &str) -> (held: bool)
        ensures
            held == self@.holds(text@),
    {
        proof {
            use_type_invariant(self);
        }
        self.strings.position(text).is_some()
    }

    /// Saves the given string if it is not already saved, and returns the
    /// saved string.
    pub fn intern(&mut self, text: &str) -> (handle: InternedStr)
        ensures
            final(self)@.wf(),
            final(self)@ == old(self)@.intern(text@),
            held_by(handle) == old(self)@.interned(text@),
            handle@ == text@,
            final(self)@.holds(text@),
            final(self)@.lookup(text@) == held_by(handle),
            final(self).handles() == old(self).stored(text@, handle),
            old(self)@.holds(text@) ==> handle == old(self).handles()[old(self)@.index_of(text@)],
            final(self).handles()[final(self)@.index_of(text@)] == handle,
    {
        proof {
            use_type_invariant(&*self);
        }
        let mut strings = Pool::new();
        std::mem::swap(&mut strings, &mut self.strings);
        proof {
            strings.lemma_model_wf();
            strings.model().lemma_intern(text@);
        }
        let handle = strings.intern(text);
        proof {
            strings.lemma_model_wf();
        }
        self.strings = strings;
        handle
    }
}

impl Clone for Interner {
    /// An interner of its own that shares every allocation with this one.
    fn clone(&self) -> (copy: Self)
        ensures
            copy@ == self@,
            copy.handles() == self.handles(),
    {
        proof {
            use_type_invariant(self);
        }
        Self::from_pool(self.strings.duplicate())
    }
}

impl PartialEq for Interner {
    /// Two interners are equal when they hold the same texts, whatever the
    /// allocations and the order.
    fn eq(&self, other: &Self) -> (same: bool) {
        proof {
            use_type_invariant(self);
            use_type_invariant(other);
        }
        self.strings.same_contents(&other.strings)
    }
}

impl vstd::std_specs::cmp::PartialEqSpecImpl for Interner {
    open spec fn obeys_eq_spec() -> bool {
        true
    }

    open spec fn eq_spec(&self, other: &Self) -> bool {
        self@.contents() == other@.contents()
    }
}

impl Eq for Interner {

}

impl Default for Interner {
    /// An interner that holds nothing.
    fn default() -> (interner: Self)
        ensures
            interner@.wf(),
            interner@.held == Seq::<Held>::empty(),
            interner.handles() == Seq::<InternedStr>::empty(),
    {
        Self::new()
    }
}

} // verus!
