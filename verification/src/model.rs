//! The mathematical model of an interner: which texts it holds, in the order
//! in which they came, and which of its allocations stands for each.

use vstd::prelude::*;

verus! {

/// One allocation of an interner: the text it holds and its number among the
/// allocations that the interner has made.
///
/// An interner numbers its allocations as it makes them and uses no number
/// twice, so that among the handles of one interner two alias one allocation
/// exactly when they agree in both fields.
pub struct Held {
    pub content: Seq<char>,
    pub serial: nat,
}

/// The state of an interner.
pub struct Model {
    /// The allocations in the store, in the order in which they entered it.
    pub held: Seq<Held>,
    /// The number that the next allocation gets.
    pub issued: nat,
}

impl Model {
    /// No two of `held` hold the same text.
    pub open spec fn distinct(held: Seq<Held>) -> bool {
        forall|i: int, j: int| 0 <= i < j < held.len() ==> held[i].content != held[j].content
    }

    /// No text is held twice, and every allocation in the store has a number
    /// that was given out already.
    pub open spec fn wf(self) -> bool {
        &&& Model::distinct(self.held)
        &&& forall|i: int| 0 <= i < self.held.len() ==> self.held[i].serial < self.issued
    }

    /// An interner that holds nothing and has made `issued` allocations.
    pub open spec fn empty(issued: nat) -> Model {
        Model { held: Seq::empty(), issued }
    }

    /// Whether `content` is in the store.
    pub open spec fn holds(self, content: Seq<char>) -> bool {
        exists|i: int| 0 <= i < self.held.len() && #[trigger] self.held[i].content == content
    }

    /// Where `content` stands in the store, if it is held.
    pub open spec fn index_of(self, content: Seq<char>) -> int {
        choose|i: int| 0 <= i < self.held.len() && #[trigger] self.held[i].content == content
    }

    /// The allocation that stands for `content`, if it is held.
    pub open spec fn lookup(self, content: Seq<char>) -> Held {
        self.held[self.index_of(content)]
    }

    /// The texts in the store.
    pub open spec fn contents(self) -> Set<Seq<char>> {
        Set::new(|content: Seq<char>| self.holds(content))
    }

    /// The number of texts in the store.
    pub open spec fn count(self) -> nat {
        self.held.len()
    }

    /// The allocation that interning `content` hands out: the one held for
    /// it, or else a new one.
    pub open spec fn interned(self, content: Seq<char>) -> Held {
        if self.holds(content) {
            self.lookup(content)
        } else {
            Held { content, serial: self.issued }
        }
    }

    /// The state after interning `content`: unchanged where it is held, else
    /// with the new allocation at the end of the store.
    pub open spec fn intern(self, content: Seq<char>) -> Model {
        if self.holds(content) {
            self
        } else {
            Model { held: self.held.push(self.interned(content)), issued: self.issued + 1 }
        }
    }

    /// The state after taking `held` into the store: the store is unchanged
    /// where its text is held already, else it has `held` at its end. Either
    /// way the number of `held` counts as given out from then on.
    pub open spec fn adopt(self, held: Held) -> Model {
        Model {
            held: if self.holds(held.content) {
                self.held
            } else {
                self.held.push(held)
            },
            issued: if held.serial < self.issued {
                self.issued
            } else {
                held.serial + 1
            },
        }
    }

    /// The state after taking each of `handles` into the store, in their
    /// order.
    pub open spec fn adopt_all(self, handles: Seq<Held>) -> Model
        decreases handles.len(),
    {
        if handles.len() == 0 {
            self
        } else {
            self.adopt_all(handles.drop_last()).adopt(handles.last())
        }
    }

    /// The state after clearing: nothing is held, and the numbers given out
    /// stay given out.
    pub open spec fn clear(self) -> Model {
        Model::empty(self.issued)
    }
}

/// One step in the life of an interner.
pub enum Step {
    /// A text is interned.
    Intern(Seq<char>),
    /// The store is cleared.
    Clear,
}

impl Model {
    /// The state after one step.
    pub open spec fn step(self, step: Step) -> Model {
        match step {
            Step::Intern(content) => self.intern(content),
            Step::Clear => self.clear(),
        }
    }

    /// The state after `steps`, taken in their order.
    pub open spec fn run(self, steps: Seq<Step>) -> Model
        decreases steps.len(),
    {
        if steps.len() == 0 {
            self
        } else {
            self.run(steps.drop_last()).step(steps.last())
        }
    }

    /// The state after interning `content` as many times as `times` says.
    pub open spec fn intern_times(self, content: Seq<char>, times: nat) -> Model
        decreases times,
    {
        if times == 0 {
            self
        } else {
            self.intern_times(content, (times - 1) as nat).intern(content)
        }
    }

    /// How many allocations in the store hold `content`.
    pub open spec fn copies(self, content: Seq<char>) -> nat {
        copies_in(self.held, content)
    }
}

/// Whether one of `held` holds `content`.
pub open spec fn mentions(held: Seq<Held>, content: Seq<char>) -> bool {
    exists|i: int| 0 <= i < held.len() && mention_at(held, i, content)
}

/// Whether the allocation at place `i` of `held` holds `content`.
pub open spec fn mention_at(held: Seq<Held>, i: int, content: Seq<char>) -> bool {
    held[i].content == content
}

/// The allocations that hold a text are those before the last that do, and
/// the last if it does.
pub proof fn lemma_mentions_last(held: Seq<Held>, content: Seq<char>)
    requires
        held.len() > 0,
    ensures
        mentions(held, content) <==> mentions(held.drop_last(), content) || held.last().content
            == content,
{
    let front = held.drop_last();
    if mentions(held, content) {
        let i = choose|i: int| 0 <= i < held.len() && mention_at(held, i, content);
        if i < front.len() {
            assert(mention_at(front, i, content));
        }
    }
    if mentions(front, content) {
        let i = choose|i: int| 0 <= i < front.len() && mention_at(front, i, content);
        assert(mention_at(held, i, content));
    }
    if held.last().content == content {
        assert(mention_at(held, held.len() - 1, content));
    }
}

/// How many of `held` hold `content`.
pub open spec fn copies_in(held: Seq<Held>, content: Seq<char>) -> nat
    decreases held.len(),
{
    if held.len() == 0 {
        0
    } else {
        copies_in(held.drop_last(), content) + (if held.last().content == content {
            1nat
        } else {
            0nat
        })
    }
}

/// Where none of `held` holds `content`, there is no copy of it.
pub proof fn lemma_no_copy(held: Seq<Held>, content: Seq<char>)
    requires
        forall|i: int| 0 <= i < held.len() ==> held[i].content != content,
    ensures
        copies_in(held, content) == 0,
    decreases held.len(),
{
    if held.len() > 0 {
        lemma_no_copy(held.drop_last(), content);
    }
}

/// Where no two of `held` hold the same text, each text held has one copy.
pub proof fn lemma_single_copy(held: Seq<Held>, i: int)
    requires
        Model::distinct(held),
        0 <= i < held.len(),
    ensures
        copies_in(held, held[i].content) == 1,
    decreases held.len(),
{
    let last = held.len() - 1;
    let front = held.drop_last();
    if i == last {
        assert forall|j: int| 0 <= j < front.len() implies front[j].content
            != held[i].content by {
            assert(held[j].content != held[last].content);
        }
        lemma_no_copy(front, held[i].content);
    } else {
        assert(held[i].content != held[last].content);
        assert(front[i] == held[i]);
        lemma_single_copy(front, i);
    }
}

/// The texts that `steps` leave in a store that was empty before them: those
/// interned after the last clearing.
pub open spec fn surviving(steps: Seq<Step>) -> Set<Seq<char>>
    decreases steps.len(),
{
    if steps.len() == 0 {
        Set::empty()
    } else {
        match steps.last() {
            Step::Intern(content) => surviving(steps.drop_last()).insert(content),
            Step::Clear => Set::empty(),
        }
    }
}

impl Model {
    /// A held text stands at one place, and its allocation is the one there.
    pub proof fn lemma_lookup(self, i: int)
        requires
            self.wf(),
            0 <= i < self.held.len(),
        ensures
            self.holds(self.held[i].content),
            self.index_of(self.held[i].content) == i,
            self.lookup(self.held[i].content) == self.held[i],
    {
        let content = self.held[i].content;
        let found = self.index_of(content);
        assert(self.held[i].content == content);
        if found < i {
            assert(self.held[found].content != self.held[i].content);
        }
        if i < found {
            assert(self.held[i].content != self.held[found].content);
        }
    }

    /// Interning keeps the state consistent, hands out an allocation of the
    /// text, and leaves that allocation in the store.
    pub proof fn lemma_intern(self, content: Seq<char>)
        requires
            self.wf(),
        ensures
            self.intern(content).wf(),
            self.interned(content).content == content,
            self.intern(content).holds(content),
            self.intern(content).lookup(content) == self.interned(content),
            self.intern(content).issued >= self.issued,
            self.interned(content).serial < self.intern(content).issued,
            self.holds(content) ==> self.interned(content).serial < self.issued,
    {
        let after = self.intern(content);
        if self.holds(content) {
            let i = self.index_of(content);
            self.lemma_lookup(i);
        } else {
            let last = self.held.len() as int;
            assert(after.held[last].content == content);
            assert forall|i: int, j: int| 0 <= i < j < after.held.len() implies after.held[i].content
                != after.held[j].content by {
                if j == last {
                    assert(self.held[i].content != content);
                }
            }
            after.lemma_lookup(last);
        }
    }

    /// After interning, the store holds what it held and the text interned.
    pub proof fn lemma_intern_contents(self, content: Seq<char>)
        requires
            self.wf(),
        ensures
            self.intern(content).contents() == self.contents().insert(content),
            forall|other: Seq<char>|
                self.intern(content).holds(other) <==> self.holds(other) || other == content,
    {
        let after = self.intern(content);
        self.lemma_intern(content);
        assert forall|other: Seq<char>| after.holds(other) <==> self.holds(other) || other
            == content by {
            if self.holds(other) {
                let i = self.index_of(other);
                assert(after.held[i].content == other);
            }
            if after.holds(other) && other != content {
                let i = after.index_of(other);
                assert(self.held[i].content == other);
            }
        }
        assert(after.contents() =~= self.contents().insert(content));
    }

    /// Interning a held text hands out the allocation of the store and
    /// changes nothing; interning another text adds one allocation, which is
    /// new.
    pub proof fn lemma_intern_count(self, content: Seq<char>)
        requires
            self.wf(),
        ensures
            self.holds(content) ==> self.intern(content) == self,
            !self.holds(content) ==> self.intern(content).count() == self.count() + 1,
            !self.holds(content) ==> forall|i: int|
                0 <= i < self.held.len() ==> self.held[i] != self.interned(content),
    {
    }

    /// Interning or taking in a text never changes which allocation stands
    /// for a text that is held.
    pub proof fn lemma_keeps(self, content: Seq<char>, held: Held, other: Seq<char>)
        requires
            self.wf(),
            self.holds(other),
        ensures
            self.intern(content).holds(other),
            self.intern(content).lookup(other) == self.lookup(other),
            self.adopt(held).holds(other),
            self.adopt(held).lookup(other) == self.lookup(other),
    {
        let i = self.index_of(other);
        self.lemma_lookup(i);
        self.lemma_intern(content);
        self.lemma_adopt(held);
        let interned = self.intern(content);
        assert(interned.held[i] == self.held[i]);
        interned.lemma_lookup(i);
        let adopted = self.adopt(held);
        assert(adopted.held[i] == self.held[i]);
        adopted.lemma_lookup(i);
    }

    /// Interning the same text twice gives the same allocation both times,
    /// and the second time changes nothing.
    pub proof fn lemma_intern_twice(self, content: Seq<char>)
        requires
            self.wf(),
        ensures
            self.intern(content).interned(content) == self.interned(content),
            self.intern(content).intern(content) == self.intern(content),
    {
        self.lemma_intern(content);
    }

    /// Interning two different texts gives two allocations, and the store
    /// grows by one for each of the two that it did not hold.
    pub proof fn lemma_intern_two(self, first: Seq<char>, second: Seq<char>)
        requires
            self.wf(),
            first != second,
        ensures
            self.interned(first) != self.intern(first).interned(second),
            self.intern(first).intern(second).count() == self.count() + (if self.holds(first) {
                0nat
            } else {
                1nat
            }) + (if self.holds(second) {
                0nat
            } else {
                1nat
            }),
            self.intern(first).intern(second).lookup(first) == self.interned(first),
            self.intern(first).intern(second).lookup(second) == self.intern(first).interned(
                second,
            ),
    {
        let mid = self.intern(first);
        self.lemma_intern(first);
        self.lemma_intern_contents(first);
        mid.lemma_intern(second);
        mid.lemma_intern_contents(second);
        let after = mid.intern(second);
        let i = mid.index_of(first);
        mid.lemma_lookup(i);
        assert(after.held[i] == mid.held[i]);
        after.lemma_lookup(i);
    }

    /// A text that is interned, cleared away and interned again gets a new
    /// allocation: it holds the same text and is not the earlier one.
    pub proof fn lemma_intern_after_clear(self, content: Seq<char>)
        requires
            self.wf(),
        ensures
            self.intern(content).clear().wf(),
            self.intern(content).clear().interned(content).content == self.interned(
                content,
            ).content,
            self.intern(content).clear().interned(content) != self.interned(content),
    {
        self.lemma_intern(content);
    }

    /// Clearing leaves nothing in the store.
    pub proof fn lemma_clear(self)
        requires
            self.wf(),
        ensures
            self.clear().wf(),
            self.clear().count() == 0,
            self.clear().contents() == Set::<Seq<char>>::empty(),
    {
        assert(self.clear().contents() =~= Set::<Seq<char>>::empty());
    }

    /// However often a text is interned, at least once, the store holds one
    /// allocation of it, and every call hands out that one.
    pub proof fn lemma_intern_times(self, content: Seq<char>, times: nat)
        requires
            self.wf(),
            times >= 1,
        ensures
            self.intern_times(content, times) == self.intern(content),
            self.intern_times(content, times).interned(content) == self.interned(content),
            self.intern_times(content, times).copies(content) == 1,
        decreases times,
    {
        self.lemma_intern(content);
        self.lemma_intern_twice(content);
        if times == 1 {
            assert(self.intern_times(content, 0) == self);
        } else {
            self.lemma_intern_times(content, (times - 1) as nat);
        }
        self.intern(content).lemma_one_copy(content);
    }

    /// A consistent store holds each of its texts once.
    pub proof fn lemma_one_copy(self, content: Seq<char>)
        requires
            self.wf(),
            self.holds(content),
        ensures
            self.copies(content) == 1,
    {
        lemma_single_copy(self.held, self.index_of(content));
    }

    /// Taking an allocation in keeps the state consistent; the store then
    /// holds what it held and the text taken in.
    pub proof fn lemma_adopt(self, held: Held)
        requires
            self.wf(),
        ensures
            self.adopt(held).wf(),
            self.adopt(held).contents() == self.contents().insert(held.content),
            !self.holds(held.content) ==> self.adopt(held).lookup(held.content) == held,
            self.holds(held.content) ==> self.adopt(held).held == self.held,
            self.adopt(held).issued > held.serial,
            self.adopt(held).issued >= self.issued,
    {
        let after = self.adopt(held);
        if self.holds(held.content) {
            assert forall|other: Seq<char>| after.holds(other) <==> self.holds(other) by {
                if self.holds(other) {
                    let i = self.index_of(other);
                    assert(after.held[i].content == other);
                }
                if after.holds(other) {
                    let i = after.index_of(other);
                    assert(self.held[i].content == other);
                }
            }
            assert(after.contents() =~= self.contents().insert(held.content));
        } else {
            let last = self.held.len() as int;
            assert(after.held[last] == held);
            assert forall|i: int, j: int| 0 <= i < j < after.held.len() implies after.held[i].content
                != after.held[j].content by {
                if j == last {
                    assert(self.held[i].content != held.content);
                }
            }
            after.lemma_lookup(last);
            assert forall|other: Seq<char>| after.holds(other) <==> self.holds(other) || other
                == held.content by {
                if self.holds(other) {
                    let i = self.index_of(other);
                    assert(after.held[i].content == other);
                }
                if after.holds(other) && other != held.content {
                    let i = after.index_of(other);
                    assert(self.held[i].content == other);
                }
            }
            assert(after.contents() =~= self.contents().insert(held.content));
        }
    }

    /// Taking allocations in, one after the other, keeps the state
    /// consistent; the store then holds what it held and their texts.
    pub proof fn lemma_adopt_all(self, handles: Seq<Held>)
        requires
            self.wf(),
        ensures
            self.adopt_all(handles).wf(),
            forall|content: Seq<char>|
                self.adopt_all(handles).holds(content) <==> self.holds(content) || mentions(
                    handles,
                    content,
                ),
        decreases handles.len(),
    {
        if handles.len() > 0 {
            let front = handles.drop_last();
            self.lemma_adopt_all(front);
            let before = self.adopt_all(front);
            before.lemma_adopt(handles.last());
            let after = self.adopt_all(handles);
            assert forall|content: Seq<char>|
                after.holds(content) <==> self.holds(content) || mentions(handles, content) by {
                assert(after.contents().contains(content) <==> before.contents().insert(
                    handles.last().content,
                ).contains(content));
                lemma_mentions_last(handles, content);
            }
        }
    }

    /// Every step keeps the state consistent.
    pub proof fn lemma_run_wf(self, steps: Seq<Step>)
        requires
            self.wf(),
        ensures
            self.run(steps).wf(),
        decreases steps.len(),
    {
        if steps.len() > 0 {
            self.lemma_run_wf(steps.drop_last());
            let before = self.run(steps.drop_last());
            match steps.last() {
                Step::Intern(content) => {
                    before.lemma_intern(content);
                },
                Step::Clear => {},
            }
        }
    }

    /// A store that was empty holds, after any steps, exactly the texts
    /// interned since it was last cleared, each of them once.
    pub proof fn lemma_run_contents(issued: nat, steps: Seq<Step>)
        ensures
            Model::empty(issued).run(steps).wf(),
            Model::empty(issued).run(steps).contents() == surviving(steps),
        decreases steps.len(),
    {
        let start = Model::empty(issued);
        start.lemma_run_wf(steps);
        if steps.len() == 0 {
            assert(start.contents() =~= Set::<Seq<char>>::empty());
        } else {
            Model::lemma_run_contents(issued, steps.drop_last());
            let before = start.run(steps.drop_last());
            match steps.last() {
                Step::Intern(content) => {
                    before.lemma_intern_contents(content);
                },
                Step::Clear => {
                    before.lemma_clear();
                },
            }
        }
    }

    /// What two stores hold does not depend on the order in which texts were
    /// interned, nor on which allocations stand for them.
    pub proof fn lemma_contents_order(self, other: Model, first: Seq<char>, second: Seq<char>)
        requires
            self.wf(),
            other.wf(),
            self.contents() == other.contents(),
        ensures
            self.intern(first).intern(second).contents() == other.intern(second).intern(
                first,
            ).contents(),
    {
        self.lemma_intern(first);
        self.lemma_intern_contents(first);
        self.intern(first).lemma_intern_contents(second);
        other.lemma_intern(second);
        other.lemma_intern_contents(second);
        other.intern(second).lemma_intern_contents(first);
        assert(self.contents().insert(first).insert(second) =~= other.contents().insert(
            second,
        ).insert(first));
    }
}

} // verus!
