//! The store behind an interner: the handles in the order in which they
//! entered, and an index from a text's digest to the places where texts with
//! that digest stand.

use crate::handle::{first_of_each, held_by, held_by_all, holds_text, text_at, Handle};
use crate::model::Model;
use crate::text::{digest, digest_of, same_text};
use std::collections::hash_map::RandomState;
use std::collections::HashMap;
use vstd::prelude::*;

verus! {

broadcast use vstd::std_specs::hash::group_hash_axioms;

/// `HashMap::with_hasher` of std: the map it makes has no key.
pub assume_specification<K, V, S>[ HashMap::<K, V, S>::with_hasher ](hash_builder: S) -> (made:
    HashMap<K, V, S>)
    ensures
        made@.dom() == Set::<K>::empty(),
;

/// A set of handles, no two of them with the same text.
pub struct Pool<H: Handle> {
    entries: Vec<H>,
    index: HashMap<u64, Vec<usize>>,
    issued: Ghost<nat>,
}

impl<H: Handle> Pool<H> {
    /// The handles in the store, in the order in which they entered it.
    pub closed spec fn handles(&self) -> Seq<H> {
        self.entries@
    }

    /// The state that the store stands for.
    pub closed spec fn model(&self) -> Model {
        Model { held: held_by_all(self.entries@), issued: self.issued@ }
    }

    /// The handles in the store after `text` was interned and `handle` given
    /// out for it: those that were there, and after them `handle` if the text
    /// was not held.
    pub open spec fn stored(&self, text: Seq<char>, handle: H) -> Seq<H> {
        if self.model().holds(text) {
            self.handles()
        } else {
            self.handles().push(handle)
        }
    }

    /// Whether the index lists place `i` under the digest of the text there.
    spec fn listed(&self, i: int) -> bool {
        let key = digest(self.entries@[i].text());
        self.index@.contains_key(key) && self.index@[key]@.contains(i as usize)
    }

    /// Whether entry `j` of the bucket of `key` is a place of the store whose
    /// text has the digest `key`.
    spec fn bucket_ok(&self, key: u64, j: int) -> bool {
        let place = self.index@[key]@[j];
        place < self.entries@.len() && digest(self.entries@[place as int].text()) == key
    }

    /// The store is consistent: its state is, and the index lists exactly the
    /// places of the store, each under the digest of its text.
    pub closed spec fn wf(&self) -> bool {
        &&& self.model().wf()
        &&& forall|i: int| 0 <= i < self.entries@.len() ==> #[trigger] self.listed(i)
        &&& forall|key: u64, j: int|
            self.index@.contains_key(key) && 0 <= j < self.index@[key]@.len()
                ==> #[trigger] self.bucket_ok(key, j)
    }

    /// The state of a consistent store is consistent.
    pub proof fn lemma_model_wf(&self)
        requires
            self.wf(),
        ensures
            self.model().wf(),
    {
    }

    /// The state lists the handles' allocations in the handles' order.
    pub proof fn lemma_model_of_handles(&self)
        ensures
            self.model().held == held_by_all(self.handles()),
            self.model().held.len() == self.handles().len(),
    {
    }

    /// An empty store that has made no allocation.
    pub fn new() -> (pool: Self)
        ensures
            pool.wf(),
            pool.model() == Model::empty(0),
            pool.handles() == Seq::<H>::empty(),
    {
        let pool = Pool { entries: Vec::new(), index: HashMap::new(), issued: Ghost(0) };
        proof {
            assert(pool.model().held =~= Seq::empty());
        }
        pool
    }

    /// An empty store whose index hashes with `hasher`.
    pub fn with_hasher(hasher: RandomState) -> (pool: Self)
        ensures
            pool.wf(),
            pool.model() == Model::empty(0),
            pool.handles() == Seq::<H>::empty(),
    {
        let pool = Pool {
            entries: Vec::new(),
            index: HashMap::with_hasher(hasher),
            issued: Ghost(0),
        };
        proof {
            assert(pool.model().held =~= Seq::empty());
        }
        pool
    }

    /// The number of texts in the store.
    pub fn len(&self) -> (n: usize)
        ensures
            n == self.model().count(),
    {
        self.entries.len()
    }

    /// The handles in the store, in the order in which they entered it.
    pub fn entries(&self) -> (entries: &Vec<H>)
        ensures
            entries@ == self.handles(),
    {
        &self.entries
    }

    /// The place of `text` in the store, if it is held.
    pub fn position(&self, text: &str) -> (found: Option<usize>)
        requires
            self.wf(),
        ensures
            match found {
                Some(place) => self.model().holds(text@) && place == self.model().index_of(text@),
                None => !self.model().holds(text@),
            },
    {
        let key = digest_of(text);
        let ghost model = self.model();
        match self.index.get(&key) {
            None => {
                proof {
                    assert forall|i: int| 0 <= i < model.held.len() implies model.held[i].content
                        != text@ by {
                        assert(self.listed(i));
                    }
                }
                None
            },
            Some(bucket) => {
                let mut at: usize = 0;
                while at < bucket.len()
                    invariant
                        self.wf(),
                        model == self.model(),
                        self.index@.contains_key(key),
                        *bucket == self.index@[key],
                        key == digest(text@),
                        at <= bucket@.len(),
                        forall|j: int|
                            0 <= j < at ==> self.entries@[bucket@[j] as int].text() != text@,
                    decreases bucket@.len() - at,
                {
                    proof {
                        assert(self.bucket_ok(key, at as int));
                    }
                    let place = bucket[at];
                    if same_text(self.entries[place].as_str(), text) {
                        proof {
                            assert(model.held[place as int].content == text@);
                            self.lemma_place(place as int);
                        }
                        return Some(place);
                    }
                    at += 1;
                }
                proof {
                    assert forall|i: int| 0 <= i < model.held.len() implies model.held[i].content
                        != text@ by {
                        assert(self.listed(i));
                        assert(model.held[i].content == self.entries@[i].text());
                        if self.entries@[i].text() == text@ {
                            assert(self.entries@.len() == self.entries.len());
                            let place = i as usize;
                            assert(bucket@.contains(place));
                            let j = bucket@.index_of(place);
                            assert(self.entries@[bucket@[j] as int].text() != text@);
                        }
                    }
                }
                None
            },
        }
    }

    /// The handle held for `text`, if there is one.
    pub fn get(&self, text: &str) -> (found: Option<&H>)
        requires
            self.wf(),
        ensures
            match found {
                Some(handle) => self.model().holds(text@) && held_by(*handle)
                    == self.model().lookup(text@) && *handle == self.handles()[self.model().index_of(
                    text@,
                )],
                None => !self.model().holds(text@),
            },
    {
        match self.position(text) {
            Some(place) => {
                proof {
                    self.lemma_place(place as int);
                }
                Some(&self.entries[place])
            },
            None => None,
        }
    }

    /// Puts `handle`, whose text is not held, at the end of the store, and
    /// sets the number of the next allocation to `issued`.
    fn append(&mut self, handle: H, issued: Ghost<nat>)
        requires
            old(self).wf(),
            !old(self).model().holds(handle.text()),
            handle.serial() < issued@,
            old(self).model().issued <= issued@,
        ensures
            final(self).wf(),
            final(self).model() == (Model {
                held: old(self).model().held.push(held_by(handle)),
                issued: issued@,
            }),
            final(self).handles() == old(self).handles().push(handle),
    {
        let key = digest_of(handle.as_str());
        let place = self.entries.len();
        let ghost before = old(self).model();
        self.entries.push(handle);
        let mut bucket = match self.index.remove(&key) {
            Some(bucket) => bucket,
            None => Vec::new(),
        };
        let ghost listed_before = bucket@;
        bucket.push(place);
        self.index.insert(key, bucket);
        self.issued = issued;
        proof {
            let after = self.model();
            assert(after.held =~= before.held.push(held_by(handle)));
            assert forall|i: int, j: int| 0 <= i < j < after.held.len() implies after.held[i].content
                != after.held[j].content by {
                if j == place {
                    assert(before.held[i].content != handle.text());
                }
            }
            assert forall|i: int| 0 <= i < self.entries@.len() implies #[trigger] self.listed(
                i,
            ) by {
                if i < place {
                    assert(old(self).listed(i));
                    let at = digest(old(self).entries@[i].text());
                    if at == key {
                        let j = listed_before.index_of(i as usize);
                        assert(bucket@[j] == i as usize);
                    }
                } else {
                    assert(bucket@[listed_before.len() as int] == place);
                }
            }
            assert forall|at: u64, j: int|
                self.index@.contains_key(at) && 0 <= j < self.index@[at]@.len()
                    implies #[trigger] self.bucket_ok(at, j) by {
                if at == key {
                    if j < listed_before.len() {
                        assert(old(self).bucket_ok(at, j));
                    }
                } else {
                    assert(old(self).bucket_ok(at, j));
                }
            }
        }
    }

    /// Takes `handle` into the store unless its text is held already, and
    /// says whether it was taken.
    pub fn adopt(&mut self, handle: H) -> (taken: bool)
        requires
            old(self).wf(),
        ensures
            final(self).wf(),
            final(self).model() == old(self).model().adopt(held_by(handle)),
            taken == !old(self).model().holds(handle.text()),
            final(self).handles() == (if taken {
                old(self).handles().push(handle)
            } else {
                old(self).handles()
            }),
    {
        let ghost issued = if handle.serial() < self.issued@ {
            self.issued@
        } else {
            handle.serial() + 1
        };
        match self.position(handle.as_str()) {
            Some(_) => {
                self.issued = Ghost(issued);
                proof {
                    assert forall|i: int| 0 <= i < self.entries@.len() implies #[trigger] self.listed(
                        i,
                    ) by {
                        assert(old(self).listed(i));
                    }
                    assert forall|key: u64, j: int|
                        self.index@.contains_key(key) && 0 <= j < self.index@[key]@.len()
                            implies #[trigger] self.bucket_ok(key, j) by {
                        assert(old(self).bucket_ok(key, j));
                    }
                }
                false
            },
            None => {
                self.append(handle, Ghost(issued));
                true
            },
        }
    }

    /// Hands out the handle held for `text`; where there is none, allocates
    /// `text` once, keeps one handle to it and hands out another.
    pub fn intern(&mut self, text: &str) -> (handle: H)
        requires
            old(self).wf(),
        ensures
            final(self).wf(),
            final(self).model() == old(self).model().intern(text@),
            held_by(handle) == old(self).model().interned(text@),
            final(self).handles() == old(self).stored(text@, handle),
            old(self).model().holds(text@) ==> handle == old(self).handles()[old(
                self,
            ).model().index_of(text@)],
            final(self).model().holds(text@),
            final(self).handles()[final(self).model().index_of(text@)] == handle,
    {
        proof {
            old(self).model().lemma_intern(text@);
        }
        match self.get(text) {
            Some(kept) => kept.share(),
            None => {
                let handle = H::allocate(text, Ghost(self.issued@));
                let kept = handle.share();
                self.append(kept, Ghost(self.issued@ + 1));
                proof {
                    self.lemma_place(self.entries@.len() - 1);
                }
                handle
            },
        }
    }

    /// Lets go of every handle in the store.
    pub fn clear(&mut self)
        requires
            old(self).wf(),
        ensures
            final(self).wf(),
            final(self).model() == old(self).model().clear(),
            final(self).handles() == Seq::<H>::empty(),
    {
        self.entries.clear();
        self.index.clear();
        proof {
            assert(self.model().held =~= Seq::empty());
        }
    }

    /// A store of its own that shares every allocation with this one.
    pub fn duplicate(&self) -> (copy: Self)
        requires
            self.wf(),
        ensures
            copy.wf(),
            copy.model() == self.model(),
            copy.handles() == self.handles(),
    {
        let mut entries: Vec<H> = Vec::new();
        let mut at: usize = 0;
        while at < self.entries.len()
            invariant
                at <= self.entries@.len(),
                entries@.len() == at,
                forall|i: int| 0 <= i < at ==> entries@[i] == self.entries@[i],
            decreases self.entries@.len() - at,
        {
            entries.push(self.entries[at].share());
            at += 1;
        }
        let copy = Pool { entries, index: self.index.clone(), issued: Ghost(self.issued@) };
        proof {
            assert(copy.entries@ =~= self.entries@);
            assert(copy.model().held =~= self.model().held);
            assert forall|i: int| 0 <= i < copy.entries@.len() implies #[trigger] copy.listed(
                i,
            ) by {
                assert(self.listed(i));
                assert(held_by(copy.entries@[i]) == held_by(self.entries@[i]));
            }
            assert forall|key: u64, j: int|
                copy.index@.contains_key(key) && 0 <= j < copy.index@[key]@.len()
                    implies #[trigger] copy.bucket_ok(key, j) by {
                assert(self.bucket_ok(key, j));
                let place = self.index@[key]@[j] as int;
                assert(held_by(copy.entries@[place]) == held_by(self.entries@[place]));
            }
        }
        copy
    }

    /// The store holds a text exactly when one of its handles does.
    pub proof fn lemma_holds(&self, text: Seq<char>)
        ensures
            self.model().holds(text) == holds_text(self.handles(), text),
    {
        let model = self.model();
        if model.holds(text) {
            let i = model.index_of(text);
            assert(text_at(self.handles(), i) == text);
        }
        if holds_text(self.handles(), text) {
            let i = choose|i: int| 0 <= i < self.handles().len() && text_at(self.handles(), i) == text;
            assert(model.held[i].content == text);
        }
    }

    /// A store that holds `handles`, but for each text only the first handle
    /// with it.
    pub fn from_vec(handles: Vec<H>) -> (pool: Self)
        ensures
            pool.wf(),
            pool.model() == Model::empty(0).adopt_all(held_by_all(handles@)),
            pool.handles() == first_of_each(handles@),
    {
        let mut pool = Self::new();
        let ghost all = held_by_all(handles@);
        let mut at: usize = 0;
        proof {
            assert(all.take(0) =~= Seq::empty());
            assert(handles@.take(0) =~= Seq::empty());
        }
        while at < handles.len()
            invariant
                at <= handles@.len(),
                all == held_by_all(handles@),
                pool.wf(),
                pool.model() == Model::empty(0).adopt_all(all.take(at as int)),
                pool.handles() == first_of_each(handles@.take(at as int)),
            decreases handles@.len() - at,
        {
            proof {
                assert(all.take(at + 1).drop_last() =~= all.take(at as int));
                assert(all.take(at + 1).last() == held_by(handles@[at as int]));
                assert(handles@.take(at + 1).drop_last() =~= handles@.take(at as int));
                assert(handles@.take(at + 1).last() == handles@[at as int]);
                pool.lemma_holds(handles@[at as int].text());
            }
            pool.adopt(handles[at].share());
            at += 1;
        }
        proof {
            assert(all.take(at as int) =~= all);
            assert(handles@.take(at as int) =~= handles@);
        }
        pool
    }

    /// Whether every text of this store is in `other`.
    fn within(&self, other: &Self) -> (all: bool)
        requires
            self.wf(),
            other.wf(),
        ensures
            all == self.model().contents().subset_of(other.model().contents()),
    {
        let mut at: usize = 0;
        while at < self.entries.len()
            invariant
                self.wf(),
                other.wf(),
                at <= self.entries@.len(),
                forall|i: int|
                    0 <= i < at ==> other.model().holds(#[trigger] self.entries@[i].text()),
            decreases self.entries@.len() - at,
        {
            if other.position(self.entries[at].as_str()).is_none() {
                proof {
                    self.lemma_place(at as int);
                    let content = self.entries@[at as int].text();
                    assert(self.model().contents().contains(content));
                    assert(!other.model().contents().contains(content));
                }
                return false;
            }
            at += 1;
        }
        proof {
            assert forall|content: Seq<char>|
                self.model().contents().contains(content) implies other.model().contents().contains(
                content,
            ) by {
                let i = self.model().index_of(content);
                assert(self.model().held[i].content == self.entries@[i].text());
            }
        }
        true
    }

    /// Whether this store and `other` hold the same texts.
    pub fn same_contents(&self, other: &Self) -> (same: bool)
        requires
            self.wf(),
            other.wf(),
        ensures
            same == (self.model().contents() == other.model().contents()),
    {
        let same = self.within(other) && other.within(self);
        proof {
            if same {
                assert(self.model().contents() =~= other.model().contents());
            }
        }
        same
    }

    /// Gives up the store for its handles, in the order in which they entered.
    pub fn into_vec(self) -> (handles: Vec<H>)
        ensures
            handles@ == self.handles(),
    {
        self.entries
    }

    /// In a consistent store a text stands at one place only.
    proof fn lemma_place(&self, place: int)
        requires
            self.model().wf(),
            0 <= place < self.entries@.len(),
        ensures
            self.model().holds(self.entries@[place].text()),
            self.model().index_of(self.entries@[place].text()) == place,
            self.model().lookup(self.entries@[place].text()) == held_by(self.entries@[place]),
    {
        let model = self.model();
        let content = self.entries@[place].text();
        assert(model.held[place].content == content);
        let found = model.index_of(content);
        assert(0 <= found < model.held.len() && model.held[found].content == content);
        if found < place {
            assert(model.held[found].content != model.held[place].content);
        }
        if place < found {
            assert(model.held[place].content != model.held[found].content);
        }
    }
}

} // verus!
