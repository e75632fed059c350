//! Walks over the handles of a store, from the first that entered to the
//! last: one that borrows the handles and one that owns them.

use crate::handle::Handle;
use crate::order::{
    comes_before, lemma_text_le_self, lemma_text_order_chain, lemma_text_order_flip, text_le,
    text_lt,
};
use vstd::prelude::*;

verus! {

/// Whether the text at place `k` of `handles` is the greatest, and the last
/// of them where several are.
pub open spec fn last_greatest<H: Handle>(handles: Seq<H>, k: int) -> bool {
    &&& 0 <= k < handles.len()
    &&& forall|i: int| 0 <= i < handles.len() ==> text_le(handles[i].text(), handles[k].text())
    &&& forall|i: int| k < i < handles.len() ==> text_lt(handles[i].text(), handles[k].text())
}

/// Whether the text at place `k` of `handles` is the least, and the first of
/// them where several are.
pub open spec fn first_least<H: Handle>(handles: Seq<H>, k: int) -> bool {
    &&& 0 <= k < handles.len()
    &&& forall|i: int| 0 <= i < handles.len() ==> text_le(handles[k].text(), handles[i].text())
    &&& forall|i: int| 0 <= i < k ==> text_lt(handles[k].text(), handles[i].text())
}

/// The place of the greatest text of `handles`, where they have one.
pub open spec fn greatest_place<H: Handle>(handles: Seq<H>) -> int {
    choose|k: int| last_greatest(handles, k)
}

/// The place of the least text of `handles`, where they have one.
pub open spec fn least_place<H: Handle>(handles: Seq<H>) -> int {
    choose|k: int| first_least(handles, k)
}

/// Only one place holds the last of the greatest texts.
pub proof fn lemma_greatest_place<H: Handle>(handles: Seq<H>, k: int)
    requires
        last_greatest(handles, k),
    ensures
        greatest_place(handles) == k,
{
    let c = greatest_place(handles);
    assert(last_greatest(handles, c));
    if c < k {
        lemma_text_order_flip(handles[k].text(), handles[c].text());
    }
    if k < c {
        lemma_text_order_flip(handles[c].text(), handles[k].text());
    }
}

/// Only one place holds the first of the least texts.
pub proof fn lemma_least_place<H: Handle>(handles: Seq<H>, k: int)
    requires
        first_least(handles, k),
    ensures
        least_place(handles) == k,
{
    let c = least_place(handles);
    assert(first_least(handles, c));
    if c < k {
        lemma_text_order_flip(handles[k].text(), handles[c].text());
    }
    if k < c {
        lemma_text_order_flip(handles[c].text(), handles[k].text());
    }
}

/// A walk over borrowed handles.
pub struct Cursor<'a, H> {
    items: &'a Vec<H>,
    at: usize,
}

impl<'a, H> View for Cursor<'a, H> {
    type V = Seq<H>;

    /// The handles still to come, in their order.
    closed spec fn view(&self) -> Seq<H> {
        self.items@.skip(self.at as int)
    }
}

impl<'a, H> Cursor<'a, H> {
    #[verifier::type_invariant]
    spec fn inv(&self) -> bool {
        self.at <= self.items@.len()
    }

    /// A walk over all of `items`.
    pub fn new(items: &'a Vec<H>) -> (cursor: Self)
        ensures
            cursor@ == items@,
    {
        proof {
            assert(items@.skip(0) =~= items@);
        }
        Cursor { items, at: 0 }
    }

    /// A walk over `items` from place `at` on.
    pub(crate) fn starting(items: &'a Vec<H>, at: usize) -> (cursor: Self)
        requires
            at <= items@.len(),
        ensures
            cursor@ == items@.skip(at as int),
    {
        Cursor { items, at }
    }

    /// The next handle, if one is left.
    pub fn next(&mut self) -> (item: Option<&'a H>)
        ensures
            match item {
                Some(handle) => old(self)@.len() > 0 && *handle == old(self)@[0] && final(self)@
                    == old(self)@.skip(1),
                None => old(self)@.len() == 0 && final(self)@ == old(self)@,
            },
    {
        proof {
            use_type_invariant(&*self);
        }
        if self.at < self.items.len() {
            let handle = &self.items[self.at];
            self.at = self.at + 1;
            proof {
                assert(self@ =~= old(self)@.skip(1));
            }
            Some(handle)
        } else {
            None
        }
    }

    /// The number of handles left.
    pub fn len(&self) -> (n: usize)
        ensures
            n == self@.len(),
    {
        proof {
            use_type_invariant(self);
        }
        self.items.len() - self.at
    }

    /// The bounds on the number of handles left: both are that number.
    pub fn size_hint(&self) -> (bounds: (usize, Option<usize>))
        ensures
            bounds.0 == self@.len(),
            bounds.1 == Some(bounds.0),
    {
        let n = self.len();
        (n, Some(n))
    }

    /// Ends the walk and says how many handles were left.
    pub fn count(self) -> (n: usize)
        ensures
            n == self@.len(),
    {
        self.len()
    }

    /// Ends the walk and gives the last handle, if one was left.
    pub fn last(self) -> (item: Option<&'a H>)
        ensures
            match item {
                Some(handle) => self@.len() > 0 && *handle == self@.last(),
                None => self@.len() == 0,
            },
    {
        proof {
            use_type_invariant(&self);
        }
        if self.at < self.items.len() {
            Some(&self.items[self.items.len() - 1])
        } else {
            None
        }
    }

    /// Passes over `n` handles and gives the one after them; where no more
    /// than `n` are left, none is left afterwards.
    pub fn nth(&mut self, n: usize) -> (item: Option<&'a H>)
        ensures
            match item {
                Some(handle) => n < old(self)@.len() && *handle == old(self)@[n as int]
                    && final(self)@ == old(self)@.skip(n + 1),
                None => n >= old(self)@.len() && final(self)@.len() == 0,
            },
    {
        proof {
            use_type_invariant(&*self);
        }
        if n < self.items.len() - self.at {
            let handle = &self.items[self.at + n];
            self.at = self.at + n + 1;
            proof {
                assert(self@ =~= old(self)@.skip(n + 1));
            }
            Some(handle)
        } else {
            self.at = self.items.len();
            None
        }
    }
}

/// Whether `test` answers `answer` for the handle at place `k` of `handles`
/// and the other answer for every handle before it.
pub open spec fn first_answer<H, F: Fn(&H) -> bool>(
    test: F,
    handles: Seq<H>,
    k: int,
    answer: bool,
) -> bool {
    &&& 0 <= k < handles.len()
    &&& call_ensures(test, (&handles[k],), answer)
    &&& forall|i: int| 0 <= i < k ==> call_ensures(test, (&#[trigger] handles[i],), !answer)
}

/// Whether `test` answers `answer` for every one of `handles`.
pub open spec fn every_answer<H, F: Fn(&H) -> bool>(test: F, handles: Seq<H>, answer: bool) -> bool {
    forall|i: int| 0 <= i < handles.len() ==> call_ensures(test, (&#[trigger] handles[i],), answer)
}

/// Whether `test` may be asked of every one of `handles`.
pub open spec fn may_ask<H, F: Fn(&H) -> bool>(test: F, handles: Seq<H>) -> bool {
    forall|i: int| 0 <= i < handles.len() ==> call_requires(test, (&#[trigger] handles[i],))
}

/// Whether `values` are what `step` passes through on its way from `start`
/// to `end`, taken with each of `handles` in their order.
pub open spec fn trail<H, B, F: Fn(B, &H) -> B>(
    step: F,
    start: B,
    handles: Seq<H>,
    end: B,
    values: Seq<B>,
) -> bool {
    &&& values.len() == handles.len() + 1
    &&& values[0] == start
    &&& values[handles.len() as int] == end
    &&& forall|i: int|
        0 <= i < handles.len() ==> call_ensures(
            step,
            (values[i], &#[trigger] handles[i]),
            values[i + 1],
        )
}

/// Whether `step`, taken with each of `handles` in their order, can lead
/// from `start` to `end`.
pub open spec fn folds_to<H, B, F: Fn(B, &H) -> B>(step: F, start: B, handles: Seq<H>, end: B) -> bool {
    exists|values: Seq<B>| trail(step, start, handles, end, values)
}

/// Whether `step` may be taken from every value with every one of `handles`.
pub open spec fn may_step<H, B, F: Fn(B, &H) -> B>(step: F, handles: Seq<H>) -> bool {
    forall|from: B, i: int|
        0 <= i < handles.len() ==> call_requires(step, (from, &#[trigger] handles[i]))
}

impl<'a, H> Cursor<'a, H> {
    /// Ends the walk and gives what `step` makes of `start` and the handles
    /// that were left, taken in their order.
    pub fn fold<B, F: Fn(B, &H) -> B>(self, start: B, step: F) -> (end: B)
        requires
            may_step(step, self@),
        ensures
            folds_to(step, start, self@, end),
    {
        proof {
            use_type_invariant(&self);
        }
        let ghost mut values = seq![start];
        let mut value = start;
        let mut at = self.at;
        while at < self.items.len()
            invariant
                self.at <= at <= self.items@.len(),
                may_step(step, self@),
                values.len() == at - self.at + 1,
                values[0] == start,
                values[at - self.at] == value,
                forall|i: int|
                    0 <= i < at - self.at ==> call_ensures(
                        step,
                        (values[i], &#[trigger] self@[i]),
                        values[i + 1],
                    ),
            decreases self.items@.len() - at,
        {
            proof {
                assert(self@[at - self.at] == self.items@[at as int]);
            }
            value = step(value, &self.items[at]);
            at += 1;
            proof {
                values = values.push(value);
            }
        }
        proof {
            assert(trail(step, start, self@, value, values));
        }
        value
    }

    /// Passes over the handles for which `test` does not answer `answer`, and
    /// over the first for which it does, whose place in the walk is given.
    pub fn seek<F: Fn(&H) -> bool>(&mut self, test: F, answer: bool) -> (place: Option<usize>)
        requires
            may_ask(test, old(self)@),
        ensures
            match place {
                Some(k) => first_answer(test, old(self)@, k as int, answer) && final(self)@ == old(
                    self,
                )@.skip(k + 1),
                None => every_answer(test, old(self)@, !answer) && final(self)@.len() == 0,
            },
    {
        proof {
            use_type_invariant(&*self);
        }
        let start = self.at;
        while self.at < self.items.len()
            invariant
                self.items == old(self).items,
                start == old(self).at,
                start <= self.at <= self.items@.len(),
                may_ask(test, old(self)@),
                forall|i: int|
                    start <= i < self.at ==> call_ensures(
                        test,
                        (&#[trigger] self.items@[i],),
                        !answer,
                    ),
            decreases self.items@.len() - self.at,
        {
            let at = self.at;
            proof {
                assert(old(self)@[at - start] == self.items@[at as int]);
            }
            let found = test(&self.items[at]) == answer;
            self.at = at + 1;
            if found {
                proof {
                    assert(self@ =~= old(self)@.skip(at - start + 1));
                    assert forall|i: int| 0 <= i < at - start implies call_ensures(
                        test,
                        (&#[trigger] old(self)@[i],),
                        !answer,
                    ) by {
                        assert(old(self)@[i] == self.items@[start + i]);
                    }
                }
                return Some(at - start);
            }
        }
        proof {
            assert forall|i: int| 0 <= i < old(self)@.len() implies call_ensures(
                test,
                (&#[trigger] old(self)@[i],),
                !answer,
            ) by {
                assert(old(self)@[i] == self.items@[start + i]);
            }
        }
        None
    }

    /// Whether `test` holds of every handle that is left; the walk ends
    /// behind the first of which it does not.
    pub fn all<F: Fn(&H) -> bool>(&mut self, test: F) -> (holds: bool)
        requires
            may_ask(test, old(self)@),
        ensures
            holds ==> every_answer(test, old(self)@, true) && final(self)@.len() == 0,
            !holds ==> final(self)@.len() < old(self)@.len() && first_answer(
                test,
                old(self)@,
                old(self)@.len() - final(self)@.len() - 1,
                false,
            ),
    {
        self.seek(test, false).is_none()
    }

    /// Whether `test` holds of a handle that is left; the walk ends behind
    /// the first of which it does.
    pub fn any<F: Fn(&H) -> bool>(&mut self, test: F) -> (holds: bool)
        requires
            may_ask(test, old(self)@),
        ensures
            holds ==> final(self)@.len() < old(self)@.len() && first_answer(
                test,
                old(self)@,
                old(self)@.len() - final(self)@.len() - 1,
                true,
            ),
            !holds ==> every_answer(test, old(self)@, false) && final(self)@.len() == 0,
    {
        self.seek(test, true).is_some()
    }

    /// The place in the walk of the first handle of which `test` holds; the
    /// walk ends behind it.
    pub fn position<F: Fn(&H) -> bool>(&mut self, test: F) -> (place: Option<usize>)
        requires
            may_ask(test, old(self)@),
        ensures
            match place {
                Some(k) => first_answer(test, old(self)@, k as int, true) && final(self)@ == old(
                    self,
                )@.skip(k + 1),
                None => every_answer(test, old(self)@, false) && final(self)@.len() == 0,
            },
    {
        self.seek(test, true)
    }

    /// The first handle of which `test` holds; the walk ends behind it.
    pub fn find<F: Fn(&H) -> bool>(&mut self, test: F) -> (item: Option<&'a H>)
        requires
            may_ask(test, old(self)@),
        ensures
            match item {
                Some(handle) => final(self)@.len() < old(self)@.len() && first_answer(
                    test,
                    old(self)@,
                    old(self)@.len() - final(self)@.len() - 1,
                    true,
                ) && *handle == old(self)@[old(self)@.len() - final(self)@.len() - 1],
                None => every_answer(test, old(self)@, false) && final(self)@.len() == 0,
            },
    {
        proof {
            use_type_invariant(&*self);
        }
        let items = self.items;
        let start = self.at;
        match self.seek(test, true) {
            Some(k) => {
                proof {
                    assert(old(self)@.len() == items.len() - start);
                    assert(old(self)@[k as int] == items@[start + k]);
                }
                Some(&items[start + k])
            },
            None => None,
        }
    }
}

impl<'a, H: Handle> Cursor<'a, H> {
    /// Ends the walk and gives a handle to each allocation that was left, in
    /// the order of the walk.
    pub fn collect(self) -> (handles: Vec<H>)
        ensures
            handles@.len() == self@.len(),
            forall|i: int| 0 <= i < self@.len() ==> handles@[i] == self@[i],
    {
        proof {
            use_type_invariant(&self);
        }
        let mut handles: Vec<H> = Vec::new();
        let mut at = self.at;
        while at < self.items.len()
            invariant
                self.at <= at <= self.items@.len(),
                handles@.len() == at - self.at,
                forall|i: int|
                    0 <= i < handles@.len() ==> handles@[i] == self.items@[self.at + i],
            decreases self.items@.len() - at,
        {
            handles.push(self.items[at].share());
            at += 1;
        }
        handles
    }
}

impl<'a, H: Handle> Cursor<'a, H> {
    /// Ends the walk and gives, of the handles that were left, the one with
    /// the greatest text (the last of them where several have it).
    pub fn max(self) -> (item: Option<&'a H>)
        ensures
            match item {
                Some(handle) => last_greatest(self@, greatest_place(self@)) && *handle == self@[greatest_place(
                    self@,
                )],
                None => self@.len() == 0,
            },
    {
        proof {
            use_type_invariant(&self);
        }
        if self.at >= self.items.len() {
            return None;
        }
        let mut best = self.at;
        let mut at = self.at + 1;
        proof {
            lemma_text_le_self(self.items@[best as int].text());
        }
        while at < self.items.len()
            invariant
                self.at <= best < at <= self.items@.len(),
                forall|i: int|
                    self.at <= i < at ==> text_le(
                        #[trigger] self.items@[i].text(),
                        self.items@[best as int].text(),
                    ),
                forall|i: int|
                    best < i < at ==> text_lt(
                        #[trigger] self.items@[i].text(),
                        self.items@[best as int].text(),
                    ),
            decreases self.items@.len() - at,
        {
            let ghost old_best = self.items@[best as int].text();
            let ghost new = self.items@[at as int].text();
            if !comes_before(self.items[at].as_str(), self.items[best].as_str()) {
                proof {
                    lemma_text_order_flip(old_best, new);
                    lemma_text_le_self(new);
                    assert forall|i: int| self.at <= i < at implies text_le(
                        #[trigger] self.items@[i].text(),
                        new,
                    ) by {
                        lemma_text_order_chain(self.items@[i].text(), old_best, new);
                    }
                }
                best = at;
            }
            at += 1;
        }
        proof {
            let k = best - self.at;
            assert forall|i: int| 0 <= i < self@.len() implies text_le(
                self@[i].text(),
                self@[k].text(),
            ) by {
                assert(self@[i] == self.items@[self.at + i]);
            }
            assert forall|i: int| k < i < self@.len() implies text_lt(
                self@[i].text(),
                self@[k].text(),
            ) by {
                assert(self@[i] == self.items@[self.at + i]);
            }
            assert(last_greatest(self@, k));
            lemma_greatest_place(self@, k);
        }
        Some(&self.items[best])
    }

    /// Ends the walk and gives, of the handles that were left, the one with
    /// the least text (the first of them where several have it).
    pub fn min(self) -> (item: Option<&'a H>)
        ensures
            match item {
                Some(handle) => first_least(self@, least_place(self@)) && *handle == self@[least_place(
                    self@,
                )],
                None => self@.len() == 0,
            },
    {
        proof {
            use_type_invariant(&self);
        }
        if self.at >= self.items.len() {
            return None;
        }
        let mut best = self.at;
        let mut at = self.at + 1;
        proof {
            lemma_text_le_self(self.items@[best as int].text());
        }
        while at < self.items.len()
            invariant
                self.at <= best < at <= self.items@.len(),
                forall|i: int|
                    self.at <= i < at ==> text_le(
                        self.items@[best as int].text(),
                        #[trigger] self.items@[i].text(),
                    ),
                forall|i: int|
                    self.at <= i < best ==> text_lt(
                        self.items@[best as int].text(),
                        #[trigger] self.items@[i].text(),
                    ),
            decreases self.items@.len() - at,
        {
            let ghost old_best = self.items@[best as int].text();
            let ghost new = self.items@[at as int].text();
            if comes_before(self.items[at].as_str(), self.items[best].as_str()) {
                proof {
                    lemma_text_le_self(new);
                    assert forall|i: int| self.at <= i < at implies text_lt(
                        new,
                        #[trigger] self.items@[i].text(),
                    ) by {
                        lemma_text_order_chain(new, old_best, self.items@[i].text());
                    }
                }
                best = at;
            } else {
                proof {
                    lemma_text_order_flip(new, old_best);
                }
            }
            at += 1;
        }
        proof {
            let k = best - self.at;
            assert forall|i: int| 0 <= i < self@.len() implies text_le(
                self@[k].text(),
                self@[i].text(),
            ) by {
                assert(self@[i] == self.items@[self.at + i]);
            }
            assert forall|i: int| 0 <= i < k implies text_lt(self@[k].text(), self@[i].text()) by {
                assert(self@[i] == self.items@[self.at + i]);
            }
            assert(first_least(self@, k));
            lemma_least_place(self@, k);
        }
        Some(&self.items[best])
    }
}

/// A walk over handles that it owns.
pub struct Drain<H: Handle> {
    items: Vec<H>,
    at: usize,
}

impl<H: Handle> View for Drain<H> {
    type V = Seq<H>;

    /// The handles still to come, in their order.
    closed spec fn view(&self) -> Seq<H> {
        self.items@.skip(self.at as int)
    }
}

impl<H: Handle> Drain<H> {
    #[verifier::type_invariant]
    spec fn inv(&self) -> bool {
        self.at <= self.items@.len()
    }

    /// A walk over all of `items`.
    pub fn new(items: Vec<H>) -> (drain: Self)
        ensures
            drain@ == items@,
    {
        proof {
            assert(items@.skip(0) =~= items@);
        }
        Drain { items, at: 0 }
    }

    /// A borrowing walk over the handles that are left.
    pub fn rest(&self) -> (cursor: Cursor<'_, H>)
        ensures
            cursor@ == self@,
    {
        proof {
            use_type_invariant(self);
        }
        Cursor::starting(&self.items, self.at)
    }

    /// The next handle, if one is left.
    pub fn next(&mut self) -> (item: Option<H>)
        ensures
            match item {
                Some(handle) => old(self)@.len() > 0 && handle == old(self)@[0]
                    && final(self)@ == old(self)@.skip(1),
                None => old(self)@.len() == 0 && final(self)@ == old(self)@,
            },
    {
        proof {
            use_type_invariant(&*self);
        }
        if self.at < self.items.len() {
            let handle = self.items[self.at].share();
            self.at = self.at + 1;
            proof {
                assert(self@ =~= old(self)@.skip(1));
            }
            Some(handle)
        } else {
            None
        }
    }

    /// The number of handles left.
    pub fn len(&self) -> (n: usize)
        ensures
            n == self@.len(),
    {
        proof {
            use_type_invariant(self);
        }
        self.items.len() - self.at
    }

    /// The bounds on the number of handles left: both are that number.
    pub fn size_hint(&self) -> (bounds: (usize, Option<usize>))
        ensures
            bounds.0 == self@.len(),
            bounds.1 == Some(bounds.0),
    {
        let n = self.len();
        (n, Some(n))
    }

    /// Ends the walk and says how many handles were left.
    pub fn count(self) -> (n: usize)
        ensures
            n == self@.len(),
    {
        self.len()
    }

    /// Ends the walk and gives the last handle, if one was left.
    pub fn last(self) -> (item: Option<H>)
        ensures
            match item {
                Some(handle) => self@.len() > 0 && handle == self@.last(),
                None => self@.len() == 0,
            },
    {
        match self.rest().last() {
            Some(handle) => Some(handle.share()),
            None => None,
        }
    }

    /// Passes over `n` handles and gives the one after them; where no more
    /// than `n` are left, none is left afterwards.
    pub fn nth(&mut self, n: usize) -> (item: Option<H>)
        ensures
            match item {
                Some(handle) => n < old(self)@.len() && handle == old(self)@[n as int] && final(self)@ == old(self)@.skip(n + 1),
                None => n >= old(self)@.len() && final(self)@.len() == 0,
            },
    {
        proof {
            use_type_invariant(&*self);
        }
        if n < self.items.len() - self.at {
            let handle = self.items[self.at + n].share();
            self.at = self.at + n + 1;
            proof {
                assert(self@ =~= old(self)@.skip(n + 1));
            }
            Some(handle)
        } else {
            self.at = self.items.len();
            None
        }
    }

    /// Ends the walk and gives a handle to each allocation that was left, in
    /// the order of the walk.
    pub fn collect(self) -> (handles: Vec<H>)
        ensures
            handles@.len() == self@.len(),
            forall|i: int| 0 <= i < self@.len() ==> handles@[i] == self@[i],
    {
        self.rest().collect()
    }

    /// Ends the walk and gives what `step` makes of `start` and the handles
    /// that were left, taken in their order.
    pub fn fold<B, F: Fn(B, &H) -> B>(self, start: B, step: F) -> (end: B)
        requires
            may_step(step, self@),
        ensures
            folds_to(step, start, self@, end),
    {
        self.rest().fold(start, step)
    }

    /// Passes over the handles for which `test` does not answer `answer`, and
    /// over the first for which it does, whose place among all the handles
    /// is given.
    fn advance<F: Fn(&H) -> bool>(&mut self, test: F, answer: bool) -> (place: Option<usize>)
        requires
            may_ask(test, old(self)@),
        ensures
            final(self).items == old(self).items,
            match place {
                Some(at) => old(self).at <= at < old(self).items@.len() && final(self).at == at
                    + 1 && first_answer(test, old(self)@, at - old(self).at, answer),
                None => every_answer(test, old(self)@, !answer) && final(self).at == old(
                    self,
                ).items@.len(),
            },
    {
        proof {
            use_type_invariant(&*self);
        }
        let start = self.at;
        let mut cursor = Cursor::starting(&self.items, start);
        let place = cursor.seek(test, answer);
        let left = cursor.len();
        proof {
            assert(old(self)@.len() == self.items.len() - start);
        }
        self.at = self.items.len() - left;
        match place {
            Some(k) => Some(start + k),
            None => None,
        }
    }

    /// Passes over the handles for which `test` does not answer `answer`, and
    /// over the first for which it does, whose place in the walk is given.
    pub fn seek<F: Fn(&H) -> bool>(&mut self, test: F, answer: bool) -> (place: Option<usize>)
        requires
            may_ask(test, old(self)@),
        ensures
            match place {
                Some(k) => first_answer(test, old(self)@, k as int, answer) && final(self)@ == old(
                    self,
                )@.skip(k + 1),
                None => every_answer(test, old(self)@, !answer) && final(self)@.len() == 0,
            },
    {
        let start = self.at;
        match self.advance(test, answer) {
            Some(at) => {
                proof {
                    assert(self@ =~= old(self)@.skip(at - start + 1));
                }
                Some(at - start)
            },
            None => None,
        }
    }

    /// Whether `test` holds of every handle that is left; the walk ends
    /// behind the first of which it does not.
    pub fn all<F: Fn(&H) -> bool>(&mut self, test: F) -> (holds: bool)
        requires
            may_ask(test, old(self)@),
        ensures
            holds ==> every_answer(test, old(self)@, true) && final(self)@.len() == 0,
            !holds ==> final(self)@.len() < old(self)@.len() && first_answer(
                test,
                old(self)@,
                old(self)@.len() - final(self)@.len() - 1,
                false,
            ),
    {
        self.seek(test, false).is_none()
    }

    /// Whether `test` holds of a handle that is left; the walk ends behind
    /// the first of which it does.
    pub fn any<F: Fn(&H) -> bool>(&mut self, test: F) -> (holds: bool)
        requires
            may_ask(test, old(self)@),
        ensures
            holds ==> final(self)@.len() < old(self)@.len() && first_answer(
                test,
                old(self)@,
                old(self)@.len() - final(self)@.len() - 1,
                true,
            ),
            !holds ==> every_answer(test, old(self)@, false) && final(self)@.len() == 0,
    {
        self.seek(test, true).is_some()
    }

    /// The place in the walk of the first handle of which `test` holds; the
    /// walk ends behind it.
    pub fn position<F: Fn(&H) -> bool>(&mut self, test: F) -> (place: Option<usize>)
        requires
            may_ask(test, old(self)@),
        ensures
            match place {
                Some(k) => first_answer(test, old(self)@, k as int, true) && final(self)@ == old(
                    self,
                )@.skip(k + 1),
                None => every_answer(test, old(self)@, false) && final(self)@.len() == 0,
            },
    {
        self.seek(test, true)
    }

    /// The first handle of which `test` holds; the walk ends behind it.
    pub fn find<F: Fn(&H) -> bool>(&mut self, test: F) -> (item: Option<H>)
        requires
            may_ask(test, old(self)@),
        ensures
            match item {
                Some(handle) => final(self)@.len() < old(self)@.len() && first_answer(
                    test,
                    old(self)@,
                    old(self)@.len() - final(self)@.len() - 1,
                    true,
                ) && handle == old(self)@[old(self)@.len() - final(self)@.len() - 1],
                None => every_answer(test, old(self)@, false) && final(self)@.len() == 0,
            },
    {
        match self.advance(test, true) {
            Some(at) => {
                proof {
                    assert(old(self)@[at - old(self).at] == self.items@[at as int]);
                }
                Some(self.items[at].share())
            },
            None => None,
        }
    }

    /// Ends the walk and gives, of the handles that were left, the one with
    /// the greatest text (the last of them where several have it).
    pub fn max(self) -> (item: Option<H>)
        ensures
            match item {
                Some(handle) => last_greatest(self@, greatest_place(self@)) && handle == self@[greatest_place(self@)],
                None => self@.len() == 0,
            },
    {
        match self.rest().max() {
            Some(handle) => Some(handle.share()),
            None => None,
        }
    }

    /// Ends the walk and gives, of the handles that were left, the one with
    /// the least text (the first of them where several have it).
    pub fn min(self) -> (item: Option<H>)
        ensures
            match item {
                Some(handle) => first_least(self@, least_place(self@)) && handle == self@[least_place(self@)],
                None => self@.len() == 0,
            },
    {
        match self.rest().min() {
            Some(handle) => Some(handle.share()),
            None => None,
        }
    }
}

} // verus!
