//! The iterators that an interner hands out over its strings, whichever
//! kind of handle it keeps.

use crate::cursor::{
    every_answer, first_answer, first_least, folds_to, greatest_place, last_greatest, least_place,
    may_ask, may_step, Cursor, Drain,
};
use crate::order::{texts_of, walk_order};
use crate::handle::Handle;
use std::cmp::Ordering;
use vstd::prelude::*;

verus! {

/// An iterator over the strings in an interner: it gives the handles in the
/// order in which their texts were first interned.
pub struct Iter<'a, H: Handle> {
    iter: Cursor<'a, H>,
}

impl<'a, H: Handle> View for Iter<'a, H> {
    type V = Seq<H>;

    /// The handles still to come, in their order.
    closed spec fn view(&self) -> Seq<H> {
        self.iter@
    }
}

impl<'a, H: Handle> Iter<'a, H> {
    /// An iterator over what `iter` has left.
    pub fn new(iter: Cursor<'a, H>) -> (made: Self)
        ensures
            made@ == iter@,
    {
        Iter { iter }
    }

    /// The next handle, if one is left.
    pub fn next(&mut self) -> (item: Option<&'a H>)
        ensures
            match item {
                Some(handle) => old(self)@.len() > 0 && *handle == old(self)@[0] && final(self)@
                    == old(self)@.skip(1),
                None => old(self)@.len() == 0 && final(self)@ == old(self)@,
            },
    {
        self.iter.next()
    }

    /// The bounds on the number of handles left: both are that number.
    pub fn size_hint(&self) -> (bounds: (usize, Option<usize>))
        ensures
            bounds.0 == self@.len(),
            bounds.1 == Some(bounds.0),
    {
        self.iter.size_hint()
    }

    /// Ends the iteration and says how many handles were left.
    pub fn count(self) -> (n: usize)
        ensures
            n == self@.len(),
    {
        self.iter.count()
    }

    /// Ends the iteration and gives the last handle, if one was left.
    pub fn last(self) -> (item: Option<&'a H>)
        ensures
            match item {
                Some(handle) => self@.len() > 0 && *handle == self@.last(),
                None => self@.len() == 0,
            },
    {
        self.iter.last()
    }

    /// Passes over `n` handles and gives the one after them; where no more
    /// than `n` are left, none is left afterwards.
    pub fn nth(&mut self, n: usize) -> (item: Option<&'a H>)
        ensures
            match item {
                Some(handle) => n < old(self)@.len() && *handle == old(self)@[n as int]
                    && final(self)@ == old(self)@.skip(n + 1),
                None => n >= old(self)@.len() && final(self)@.len() == 0,
            },
    {
        self.iter.nth(n)
    }

    /// Ends the iteration and gives a handle to each allocation that was
    /// left, in the order of the iteration.
    pub fn collect(self) -> (handles: Vec<H>)
        ensures
            handles@.len() == self@.len(),
            forall|i: int| 0 <= i < self@.len() ==> handles@[i] == self@[i],
    {
        self.iter.collect()
    }

    /// Ends the iteration and gives, of the handles that were left, the one
    /// with the greatest text.
    pub fn max(self) -> (item: Option<&'a H>)
        ensures
            match item {
                Some(handle) => last_greatest(self@, greatest_place(self@)) && *handle == self@[greatest_place(
                    self@,
                )],
                None => self@.len() == 0,
            },
    {
        self.iter.max()
    }

    /// Ends the iteration and gives, of the handles that were left, the one
    /// with the least text.
    pub fn min(self) -> (item: Option<&'a H>)
        ensures
            match item {
                Some(handle) => first_least(self@, least_place(self@)) && *handle == self@[least_place(
                    self@,
                )],
                None => self@.len() == 0,
            },
    {
        self.iter.min()
    }

    /// Ends both iterations and gives their order: the first place where
    /// their texts differ decides, and the shorter comes first.
    pub fn cmp(self, other: Iter<'_, H>) -> (order: Ordering)
        ensures
            order == walk_order(self@, other@),
    {
        self.iter.cmp(other.iter)
    }

    /// Ends both iterations and gives their order, which every two have.
    pub fn partial_cmp(self, other: Iter<'_, H>) -> (order: Option<Ordering>)
        ensures
            order == Some(walk_order(self@, other@)),
    {
        self.iter.partial_cmp(other.iter)
    }

    /// Ends both iterations and says whether they gave the same texts.
    pub fn eq(self, other: Iter<'_, H>) -> (same: bool)
        ensures
            same == (texts_of(self@) == texts_of(other@)),
    {
        self.iter.eq(other.iter)
    }

    /// Ends both iterations and says whether their texts differed.
    pub fn ne(self, other: Iter<'_, H>) -> (differ: bool)
        ensures
            differ == (texts_of(self@) != texts_of(other@)),
    {
        self.iter.ne(other.iter)
    }

    /// Ends both iterations and says whether this one came before `other`.
    pub fn lt(self, other: Iter<'_, H>) -> (before: bool)
        ensures
            before == (walk_order(self@, other@) == Ordering::Less),
    {
        self.iter.lt(other.iter)
    }

    /// Ends both iterations and says whether this one did not come after
    /// `other`.
    pub fn le(self, other: Iter<'_, H>) -> (not_after: bool)
        ensures
            not_after == (walk_order(self@, other@) != Ordering::Greater),
    {
        self.iter.le(other.iter)
    }

    /// Ends both iterations and says whether this one came after `other`.
    pub fn gt(self, other: Iter<'_, H>) -> (after: bool)
        ensures
            after == (walk_order(self@, other@) == Ordering::Greater),
    {
        self.iter.gt(other.iter)
    }

    /// Ends both iterations and says whether this one did not come before
    /// `other`.
    pub fn ge(self, other: Iter<'_, H>) -> (not_before: bool)
        ensures
            not_before == (walk_order(self@, other@) != Ordering::Less),
    {
        self.iter.ge(other.iter)
    }

    /// Ends the iteration and gives what `step` makes of `start` and the
    /// handles that were left, taken in their order.
    pub fn fold<B, F: Fn(B, &H) -> B>(self, start: B, step: F) -> (end: B)
        requires
            may_step(step, self@),
        ensures
            folds_to(step, start, self@, end),
    {
        self.iter.fold(start, step)
    }

    /// Whether `test` holds of every handle that is left; the iteration ends
    /// behind the first of which it does not.
    pub fn all<F: Fn(&H) -> bool>(&mut self, test: F) -> (holds: bool)
        requires
            may_ask(test, old(self)@),
        ensures
            holds ==> every_answer(test, old(self)@, true) && final(self)@.len() == 0,
            !holds ==> final(self)@.len() < old(self)@.len() && first_answer(
                test,
                old(self)@,
                old(self)@.len() - final(self)@.len() - 1,
                false,
            ),
    {
        self.iter.all(test)
    }

    /// Whether `test` holds of a handle that is left; the iteration ends
    /// behind the first of which it does.
    pub fn any<F: Fn(&H) -> bool>(&mut self, test: F) -> (holds: bool)
        requires
            may_ask(test, old(self)@),
        ensures
            holds ==> final(self)@.len() < old(self)@.len() && first_answer(
                test,
                old(self)@,
                old(self)@.len() - final(self)@.len() - 1,
                true,
            ),
            !holds ==> every_answer(test, old(self)@, false) && final(self)@.len() == 0,
    {
        self.iter.any(test)
    }

    /// The first handle of which `test` holds; the iteration ends behind it.
    pub fn find<F: Fn(&H) -> bool>(&mut self, test: F) -> (item: Option<&'a H>)
        requires
            may_ask(test, old(self)@),
        ensures
            match item {
                Some(handle) => final(self)@.len() < old(self)@.len() && first_answer(
                    test,
                    old(self)@,
                    old(self)@.len() - final(self)@.len() - 1,
                    true,
                ) && *handle == old(self)@[old(self)@.len() - final(self)@.len() - 1],
                None => every_answer(test, old(self)@, false) && final(self)@.len() == 0,
            },
    {
        self.iter.find(test)
    }

    /// The place in the iteration of the first handle of which `test` holds;
    /// the iteration ends behind it.
    pub fn position<F: Fn(&H) -> bool>(&mut self, test: F) -> (place: Option<usize>)
        requires
            may_ask(test, old(self)@),
        ensures
            match place {
                Some(k) => first_answer(test, old(self)@, k as int, true) && final(self)@ == old(
                    self,
                )@.skip(k + 1),
                None => every_answer(test, old(self)@, false) && final(self)@.len() == 0,
            },
    {
        self.iter.position(test)
    }

    /// The number of handles left.
    pub fn len(&self) -> (n: usize)
        ensures
            n == self@.len(),
    {
        self.iter.len()
    }
}

/// An owning iterator over the strings that were in an interner: it gives a
/// handle to each, in the order in which their texts were first interned.
pub struct IntoIter<H: Handle> {
    iter: Drain<H>,
}

impl<H: Handle> View for IntoIter<H> {
    type V = Seq<H>;

    /// The handles still to come, in their order.
    closed spec fn view(&self) -> Seq<H> {
        self.iter@
    }
}

impl<H: Handle> IntoIter<H> {
    /// An iterator over what `iter` has left.
    pub fn new(iter: Drain<H>) -> (made: Self)
        ensures
            made@ == iter@,
    {
        IntoIter { iter }
    }

    /// The next handle, if one is left.
    pub fn next(&mut self) -> (item: Option<H>)
        ensures
            match item {
                Some(handle) => old(self)@.len() > 0 && handle == old(self)@[0]
                    && final(self)@ == old(self)@.skip(1),
                None => old(self)@.len() == 0 && final(self)@ == old(self)@,
            },
    {
        self.iter.next()
    }

    /// The bounds on the number of handles left: both are that number.
    pub fn size_hint(&self) -> (bounds: (usize, Option<usize>))
        ensures
            bounds.0 == self@.len(),
            bounds.1 == Some(bounds.0),
    {
        self.iter.size_hint()
    }

    /// Ends the iteration and says how many handles were left.
    pub fn count(self) -> (n: usize)
        ensures
            n == self@.len(),
    {
        self.iter.count()
    }

    /// Ends the iteration and gives the last handle, if one was left.
    pub fn last(self) -> (item: Option<H>)
        ensures
            match item {
                Some(handle) => self@.len() > 0 && handle == self@.last(),
                None => self@.len() == 0,
            },
    {
        self.iter.last()
    }

    /// Passes over `n` handles and gives the one after them; where no more
    /// than `n` are left, none is left afterwards.
    pub fn nth(&mut self, n: usize) -> (item: Option<H>)
        ensures
            match item {
                Some(handle) => n < old(self)@.len() && handle == old(self)@[n as int] && final(self)@ == old(self)@.skip(n + 1),
                None => n >= old(self)@.len() && final(self)@.len() == 0,
            },
    {
        self.iter.nth(n)
    }

    /// Ends the iteration and gives the handles that were left, in the order
    /// of the iteration.
    pub fn collect(self) -> (handles: Vec<H>)
        ensures
            handles@.len() == self@.len(),
            forall|i: int| 0 <= i < self@.len() ==> handles@[i] == self@[i],
    {
        self.iter.collect()
    }

    /// Ends the iteration and gives, of the handles that were left, the one
    /// with the greatest text.
    pub fn max(self) -> (item: Option<H>)
        ensures
            match item {
                Some(handle) => last_greatest(self@, greatest_place(self@)) && handle == self@[greatest_place(self@)],
                None => self@.len() == 0,
            },
    {
        self.iter.max()
    }

    /// Ends the iteration and gives, of the handles that were left, the one
    /// with the least text.
    pub fn min(self) -> (item: Option<H>)
        ensures
            match item {
                Some(handle) => first_least(self@, least_place(self@)) && handle == self@[least_place(self@)],
                None => self@.len() == 0,
            },
    {
        self.iter.min()
    }

    /// Ends both iterations and gives their order: the first place where
    /// their texts differ decides, and the shorter comes first.
    pub fn cmp(self, other: IntoIter<H>) -> (order: Ordering)
        ensures
            order == walk_order(self@, other@),
    {
        self.iter.rest().cmp(other.iter.rest())
    }

    /// Ends both iterations and gives their order, which every two have.
    pub fn partial_cmp(self, other: IntoIter<H>) -> (order: Option<Ordering>)
        ensures
            order == Some(walk_order(self@, other@)),
    {
        self.iter.rest().partial_cmp(other.iter.rest())
    }

    /// Ends both iterations and says whether they gave the same texts.
    pub fn eq(self, other: IntoIter<H>) -> (same: bool)
        ensures
            same == (texts_of(self@) == texts_of(other@)),
    {
        self.iter.rest().eq(other.iter.rest())
    }

    /// Ends both iterations and says whether their texts differed.
    pub fn ne(self, other: IntoIter<H>) -> (differ: bool)
        ensures
            differ == (texts_of(self@) != texts_of(other@)),
    {
        self.iter.rest().ne(other.iter.rest())
    }

    /// Ends both iterations and says whether this one came before `other`.
    pub fn lt(self, other: IntoIter<H>) -> (before: bool)
        ensures
            before == (walk_order(self@, other@) == Ordering::Less),
    {
        self.iter.rest().lt(other.iter.rest())
    }

    /// Ends both iterations and says whether this one did not come after
    /// `other`.
    pub fn le(self, other: IntoIter<H>) -> (not_after: bool)
        ensures
            not_after == (walk_order(self@, other@) != Ordering::Greater),
    {
        self.iter.rest().le(other.iter.rest())
    }

    /// Ends both iterations and says whether this one came after `other`.
    pub fn gt(self, other: IntoIter<H>) -> (after: bool)
        ensures
            after == (walk_order(self@, other@) == Ordering::Greater),
    {
        self.iter.rest().gt(other.iter.rest())
    }

    /// Ends both iterations and says whether this one did not come before
    /// `other`.
    pub fn ge(self, other: IntoIter<H>) -> (not_before: bool)
        ensures
            not_before == (walk_order(self@, other@) != Ordering::Less),
    {
        self.iter.rest().ge(other.iter.rest())
    }

    /// Ends the iteration and gives what `step` makes of `start` and the
    /// handles that were left, taken in their order.
    pub fn fold<B, F: Fn(B, &H) -> B>(self, start: B, step: F) -> (end: B)
        requires
            may_step(step, self@),
        ensures
            folds_to(step, start, self@, end),
    {
        self.iter.fold(start, step)
    }

    /// Whether `test` holds of every handle that is left; the iteration ends
    /// behind the first of which it does not.
    pub fn all<F: Fn(&H) -> bool>(&mut self, test: F) -> (holds: bool)
        requires
            may_ask(test, old(self)@),
        ensures
            holds ==> every_answer(test, old(self)@, true) && final(self)@.len() == 0,
            !holds ==> final(self)@.len() < old(self)@.len() && first_answer(
                test,
                old(self)@,
                old(self)@.len() - final(self)@.len() - 1,
                false,
            ),
    {
        self.iter.all(test)
    }

    /// Whether `test` holds of a handle that is left; the iteration ends
    /// behind the first of which it does.
    pub fn any<F: Fn(&H) -> bool>(&mut self, test: F) -> (holds: bool)
        requires
            may_ask(test, old(self)@),
        ensures
            holds ==> final(self)@.len() < old(self)@.len() && first_answer(
                test,
                old(self)@,
                old(self)@.len() - final(self)@.len() - 1,
                true,
            ),
            !holds ==> every_answer(test, old(self)@, false) && final(self)@.len() == 0,
    {
        self.iter.any(test)
    }

    /// The first handle of which `test` holds; the iteration ends behind it.
    pub fn find<F: Fn(&H) -> bool>(&mut self, test: F) -> (item: Option<H>)
        requires
            may_ask(test, old(self)@),
        ensures
            match item {
                Some(handle) => final(self)@.len() < old(self)@.len() && first_answer(
                    test,
                    old(self)@,
                    old(self)@.len() - final(self)@.len() - 1,
                    true,
                ) && handle == old(self)@[old(self)@.len() - final(self)@.len() - 1],
                None => every_answer(test, old(self)@, false) && final(self)@.len() == 0,
            },
    {
        self.iter.find(test)
    }

    /// The place in the iteration of the first handle of which `test` holds;
    /// the iteration ends behind it.
    pub fn position<F: Fn(&H) -> bool>(&mut self, test: F) -> (place: Option<usize>)
        requires
            may_ask(test, old(self)@),
        ensures
            match place {
                Some(k) => first_answer(test, old(self)@, k as int, true) && final(self)@ == old(
                    self,
                )@.skip(k + 1),
                None => every_answer(test, old(self)@, false) && final(self)@.len() == 0,
            },
    {
        self.iter.position(test)
    }

    /// The number of handles left.
    pub fn len(&self) -> (n: usize)
        ensures
            n == self@.len(),
    {
        self.iter.len()
    }
}

} // verus!
