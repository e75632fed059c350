//! A thread-safe variant of the interner: the store stands behind a lock.
//!
//! Nothing here waits. Waiting for a lock is the one step that may never
//! return, so it is the caller's: it asks the lock of `Interner::strings` for
//! a lease, and hands what the lock answered to the functions of this module,
//! which say for each answer what they return and what the lease then holds.

use crate::cursor::{Cursor, Drain};
use crate::handle::{first_of_each, held_by, held_by_all, Handle};
use crate::model::{Held, Model};
use crate::pool::Pool;
use crate::text::same_text;
use std::collections::hash_map::RandomState;
use std::sync::{Arc, LockResult, Mutex, MutexGuard, OnceLock, PoisonError};
use vstd::prelude::*;

verus! {

/// `Mutex` of std: a lock that owns the value it guards.
#[verifier::external_type_specification]
#[verifier::external_body]
#[verifier::reject_recursive_types(T)]
pub struct ExMutex<T: ?Sized>(Mutex<T>);

/// `MutexGuard` of std: the lease on a locked `Mutex`, which ends the lock
/// when it is dropped.
#[verifier::external_type_specification]
#[verifier::external_body]
#[verifier::reject_recursive_types(T)]
pub struct ExMutexGuard<'a, T: ?Sized + 'a>(MutexGuard<'a, T>);

/// `PoisonError` of std: what a poisoned lock answers.
#[verifier::external_type_specification]
#[verifier::external_body]
#[verifier::reject_recursive_types(T)]
pub struct ExPoisonError<T>(PoisonError<T>);

/// `OnceLock` of std: a cell that is written at most once.
#[verifier::external_type_specification]
#[verifier::external_body]
#[verifier::reject_recursive_types(T)]
pub struct ExOnceLock<T>(OnceLock<T>);

/// `OnceLock::new` of std: an empty cell.
pub assume_specification<T>[ OnceLock::<T>::new ]() -> (cell: OnceLock<T>)
;

/// One allocated text behind std's `Arc`. Nothing of it is open but through
/// the four functions below, so that two values are equal exactly when they
/// are one allocation, whatever text they hold.
#[verifier::external_body]
pub struct Allocation {
    text: Arc<str>,
}

/// The text that an allocation holds, which never changes.
pub uninterp spec fn arc_text(allocation: Allocation) -> Seq<char>;

/// `Arc::from` of std, on a `&str`: a new allocation that holds a copy of
/// the text.
#[verifier::external_body]
fn arc_from_str(text: &str) -> (made: Allocation)
    ensures
        arc_text(made) == text@,
{
    Allocation { text: Arc::from(text) }
}

/// `Arc::clone` of std: another reference to the same allocation.
#[verifier::external_body]
fn arc_clone(this: &Allocation) -> (copy: Allocation)
    ensures
        copy == *this,
{
    Allocation { text: Arc::clone(&this.text) }
}

/// `Deref::deref` of std's `Arc`: the text in the allocation.
#[verifier::external_body]
fn arc_as_str(this: &Allocation) -> (text: &str)
    ensures
        text@ == arc_text(*this),
{
    &this.text
}

/// `Arc::ptr_eq` of std: whether the two point to one allocation.
#[verifier::external_body]
fn arc_ptr_eq(this: &Allocation, other: &Allocation) -> (same: bool)
    ensures
        same == (*this == *other),
{
    Arc::ptr_eq(&this.text, &other.text)
}

/// A string that has been interned: a shared handle to its allocation, which
/// may pass between threads.
pub struct InternedStr {
    text: Allocation,
    serial: Ghost<nat>,
}

impl View for InternedStr {
    type V = Seq<char>;

    /// The text of the allocation.
    open spec fn view(&self) -> Seq<char> {
        self.text()
    }
}

impl Handle for InternedStr {
    closed spec fn text(&self) -> Seq<char> {
        arc_text(self.text)
    }

    closed spec fn serial(&self) -> nat {
        self.serial@
    }

    fn allocate(text: &str, serial: Ghost<nat>) -> (made: Self) {
        InternedStr { text: arc_from_str(text), serial }
    }

    fn share(&self) -> (shared: Self) {
        InternedStr { text: arc_clone(&self.text), serial: self.serial }
    }

    fn as_str(&self) -> (text: &str) {
        arc_as_str(&self.text)
    }
}

impl InternedStr {
    /// The allocation that the handle points to.
    pub closed spec fn allocation(&self) -> Allocation {
        self.text
    }

    /// Whether `this` and `other` point to one allocation. A handle and its
    /// clone do; handles of different texts do not.
    pub fn ptr_eq(this: &Self, other: &Self) -> (same: bool)
        ensures
            same == (this.allocation() == other.allocation()),
            *this == *other ==> same,
            same ==> this@ == other@,
    {
        arc_ptr_eq(&this.text, &other.text)
    }
}

impl Clone for InternedStr {
    /// Another handle to the same allocation.
    fn clone(&self) -> (copy: Self)
        ensures
            copy == *self,
    {
        self.share()
    }
}

impl PartialEq for InternedStr {
    /// Two handles are equal when they hold the same text, whether or not
    /// they point to one allocation.
    fn eq(&self, other: &Self) -> (same: bool) {
        same_text(self.as_str(), other.as_str())
    }
}

impl vstd::std_specs::cmp::PartialEqSpecImpl for InternedStr {
    open spec fn obeys_eq_spec() -> bool {
        true
    }

    open spec fn eq_spec(&self, other: &Self) -> bool {
        self@ == other@
    }
}

impl Eq for InternedStr {

}

/// An iterator over the strings in a `LockedInterner`.
pub type Iter<'a> = crate::iter::Iter<'a, InternedStr>;

/// An owning iterator over the strings that were in a shared `Interner`.
pub type IntoIter = crate::iter::IntoIter<InternedStr>;

/// The store as it stands behind the lock.
pub struct Strings {
    pool: Pool<InternedStr>,
}

impl View for Strings {
    type V = Model;

    closed spec fn view(&self) -> Model {
        self.pool.model()
    }
}

impl Strings {
    #[verifier::type_invariant]
    spec fn inv(&self) -> bool {
        self.pool.wf()
    }

    /// The handles in the store, in the order in which they entered it.
    pub closed spec fn handles(&self) -> Seq<InternedStr> {
        self.pool.handles()
    }

    /// The handles in the store after `text` was interned and `handle` given
    /// out for it: those that were there, and after them `handle` if the text
    /// was not held.
    pub open spec fn stored(&self, text: Seq<char>, handle: InternedStr) -> Seq<InternedStr> {
        if self@.holds(text) {
            self.handles()
        } else {
            self.handles().push(handle)
        }
    }

    /// The state lists the handles' allocations in the handles' order.
    pub proof fn lemma_handles(&self)
        ensures
            self@.held == held_by_all(self.handles()),
    {
        self.pool.lemma_model_of_handles();
    }

    /// The store `pool`, ready to stand behind a lock.
    fn holding(pool: Pool<InternedStr>) -> (strings: Self)
        requires
            pool.wf(),
        ensures
            strings@.wf(),
            strings@ == pool.model(),
            strings.handles() == pool.handles(),
    {
        proof {
            pool.lemma_model_wf();
        }
        Strings { pool }
    }

    /// The store as a pool, which is consistent.
    fn pool(&self) -> (pool: &Pool<InternedStr>)
        ensures
            pool.wf(),
            pool.model() == self@,
            pool.handles() == self.handles(),
            self@.wf(),
    {
        proof {
            use_type_invariant(self);
            self.pool.lemma_model_wf();
        }
        &self.pool
    }

    /// Gives up the store for its pool, which is consistent.
    fn into_pool(self) -> (pool: Pool<InternedStr>)
        ensures
            pool.wf(),
            pool.model() == self@,
            pool.handles() == self.handles(),
            self@.wf(),
    {
        proof {
            use_type_invariant(&self);
            self.pool.lemma_model_wf();
        }
        self.pool
    }

    /// Saves the given string if it is not already saved, and returns the
    /// saved string.
    fn intern(&mut self, text: &str) -> (handle: InternedStr)
        ensures
            final(self)@.wf(),
            final(self)@ == old(self)@.intern(text@),
            held_by(handle) == old(self)@.interned(text@),
            handle@ == text@,
            final(self)@.holds(text@),
            final(self)@.lookup(text@) == held_by(handle),
            final(self).handles() == old(self).stored(text@, handle),
            old(self)@.holds(text@) ==> handle == old(self).handles()[old(self)@.index_of(text@)],
            final(self).handles()[final(self)@.index_of(text@)] == handle,
    {
        proof {
            use_type_invariant(&*self);
        }
        let mut pool = Pool::new();
        std::mem::swap(&mut pool, &mut self.pool);
        proof {
            pool.lemma_model_wf();
            pool.model().lemma_intern(text@);
        }
        let handle = pool.intern(text);
        proof {
            pool.lemma_model_wf();
        }
        self.pool = pool;
        handle
    }

    /// Removes all of the interned strings.
    fn clear(&mut self)
        ensures
            final(self)@.wf(),
            final(self)@ == old(self)@.clear(),
            final(self).handles() == Seq::<InternedStr>::empty(),
    {
        proof {
            use_type_invariant(&*self);
        }
        let mut pool = Pool::new();
        std::mem::swap(&mut pool, &mut self.pool);
        pool.clear();
        proof {
            pool.lemma_model_wf();
        }
        self.pool = pool;
    }
}

/// The store with which a lock was made. What the lock guards later is
/// whatever the leases on it have left there; of that this says nothing.
pub uninterp spec fn made_with(lock: Mutex<Strings>) -> Strings;

/// The store that a lease has in hand: what stands behind the lock while the
/// lease lives, which only the holder of the lease can change.
pub uninterp spec fn leased(guard: MutexGuard<'_, Strings>) -> Strings;

/// The one interner that `cell` hands out, whenever it is asked.
pub uninterp spec fn registered(cell: OnceLock<Interner>) -> Interner;

/// Whether `handle` and the lease `after` are what interning `text` under the
/// lease `before` gives: on a lease, the handle that the store in hand gives
/// and the store with it; on the answer of a poisoned lock, the failure, and
/// the answer as it was.
pub open spec fn interned_under(
    before: LockResult<MutexGuard<'_, Strings>>,
    after: LockResult<MutexGuard<'_, Strings>>,
    text: Seq<char>,
    handle: Result<InternedStr, LockPoisoned>,
) -> bool {
    match before {
        Ok(guard) => handle matches Ok(saved) && (after matches Ok(then) && (leased(then)@
            == leased(guard)@.intern(text) && held_by(saved) == leased(guard)@.interned(text)
            && saved@ == text && leased(then).handles() == leased(guard).stored(text, saved) && (
        leased(guard)@.holds(text) ==> saved == leased(guard).handles()[leased(guard)@.index_of(
            text,
        )]) && leased(then)@.wf() && leased(then)@.holds(text) && leased(then).handles()[leased(
            then,
        )@.index_of(text)] == saved)),
        Err(_) => handle is Err && after == before,
    }
}

/// Whether `done` and the lease `after` are what clearing under the lease
/// `before` gives: on a lease, success and an empty store in hand; on the
/// answer of a poisoned lock, the failure, and the answer as it was.
pub open spec fn cleared_under(
    before: LockResult<MutexGuard<'_, Strings>>,
    after: LockResult<MutexGuard<'_, Strings>>,
    done: Result<(), LockPoisoned>,
) -> bool {
    match before {
        Ok(guard) => after matches Ok(then) && (done is Ok && leased(then)@ == leased(
            guard,
        )@.clear() && leased(then).handles() == Seq::<InternedStr>::empty() && leased(
            then,
        )@.wf()),
        Err(_) => done is Err && after == before,
    }
}

/// `Mutex::new` of std: a lock, not locked and not poisoned, that is made to
/// guard `store`.
#[verifier::external_body]
fn locked_up(store: Strings) -> (lock: Mutex<Strings>)
    ensures
        made_with(lock) == store,
{
    Mutex::new(store)
}

/// `Mutex::into_inner` of std: gives up the lock for the store it guards, or
/// reports that the lock is poisoned. It does not wait: who owns the lock is
/// the only one to reach it.
#[verifier::external_body]
fn unlocked(lock: Mutex<Strings>) -> (strings: LockResult<Strings>)
{
    lock.into_inner()
}

/// `Deref::deref` of std's `MutexGuard`: the store that the lease has in
/// hand. It neither waits nor fails.
#[verifier::external_body]
fn held<'g, 'a>(guard: &'g MutexGuard<'a, Strings>) -> (strings: &'g Strings)
    ensures
        *strings == leased(*guard),
{
    &**guard
}

/// `DerefMut::deref_mut` of std's `MutexGuard`: the store that the lease has
/// in hand, to be changed in place; what it is when the borrow ends is what
/// the lease then has in hand. It neither waits nor fails.
#[verifier::external_body]
fn guarded<'g, 'a>(guard: &'g mut MutexGuard<'a, Strings>) -> (strings: &'g mut Strings)
    ensures
        *strings == leased(*old(guard)),
        *final(strings) == leased(*final(guard)),
{
    &mut **guard
}

/// `OnceLock::get_or_init` of std: what the cell holds, after filling an
/// empty cell with a new interner. A cell is written at most once: of several
/// threads that come to an empty cell one fills it, and every call on the
/// cell, then and later, gets that same interner.
#[verifier::external_body]
fn filled(cell: &OnceLock<Interner>) -> (interner: &Interner)
    ensures
        *interner == registered(*cell),
{
    cell.get_or_init(Interner::new)
}

/// The lock of an interner was poisoned: a thread came to harm while it held
/// the lock, so the store may be half changed and is not to be used again.
#[derive(Clone, Copy, Debug, PartialEq, Eq)]
pub struct LockPoisoned;

impl LockPoisoned {
    /// The words for this failure.
    pub fn message(&self) -> (words: &'static str)
        ensures
            words@ == "Interner mutex was poisoned"@,
    {
        "Interner mutex was poisoned"
    }
}

/// An interner that threads can share: it keeps track of strings and sees to
/// it that there is only one allocation for any given text.
pub struct Interner {
    strings: Mutex<Strings>,
}

impl Interner {
    /// The lock behind which the store stands.
    pub closed spec fn mutex(&self) -> Mutex<Strings> {
        self.strings
    }

    /// The state in which the interner was made. What it holds later is
    /// whatever the leases on its lock have left there.
    pub closed spec fn initial(&self) -> Model {
        made_with(self.strings)@
    }

    /// The handles with which the interner was made, in their order.
    pub closed spec fn initial_handles(&self) -> Seq<InternedStr> {
        made_with(self.strings).handles()
    }

    /// Constructs a new `Interner`, which holds nothing.
    pub fn new() -> (interner: Self)
        ensures
            interner.initial().wf(),
            interner.initial().held == Seq::<Held>::empty(),
            interner.initial_handles() == Seq::<InternedStr>::empty(),
    {
        Self::from_pool(Pool::new())
    }

    /// Constructs a new `Interner`, which holds nothing and whose index
    /// hashes with the given hasher.
    pub fn with_hasher(hasher: RandomState) -> (interner: Self)
        ensures
            interner.initial().wf(),
            interner.initial().held == Seq::<Held>::empty(),
            interner.initial_handles() == Seq::<InternedStr>::empty(),
    {
        Self::from_pool(Pool::with_hasher(hasher))
    }

    /// Constructs a new `Interner` with the given handles already interned.
    /// Where several of them hold the same text, the first is kept.
    pub fn from_set(strings: Vec<InternedStr>) -> (interner: Self)
        ensures
            interner.initial().wf(),
            interner.initial() == Model::empty(0).adopt_all(held_by_all(strings@)),
            interner.initial_handles() == first_of_each(strings@),
    {
        Self::from_pool(Pool::from_vec(strings))
    }

    /// Constructs a new `Interner` with the handles that `strings` has left
    /// already interned. Where several of them hold the same text, the first
    /// is kept.
    pub fn from_iter(strings: IntoIter) -> (interner: Self)
        ensures
            interner.initial().wf(),
            interner.initial() == Model::empty(0).adopt_all(held_by_all(strings@)),
            interner.initial_handles() == first_of_each(strings@),
    {
        let handles = strings.collect();
        proof {
            assert(handles@ =~= strings@);
        }
        Self::from_set(handles)
    }

    /// An interner whose lock is made to guard the store `pool`.
    fn from_pool(pool: Pool<InternedStr>) -> (interner: Self)
        requires
            pool.wf(),
        ensures
            interner.initial().wf(),
            interner.initial() == pool.model(),
            interner.initial_handles() == pool.handles(),
    {
        Interner { strings: locked_up(Strings::holding(pool)) }
    }

    /// The lock behind which the store stands, for the caller to ask a lease
    /// of.
    pub fn strings(&self) -> (lock: &Mutex<Strings>)
        ensures
            *lock == self.mutex(),
    {
        &self.strings
    }

    /// What giving up a lock came to: the handles of the store that it
    /// guarded, or the failure of a poisoned lock.
    pub fn set_of(answer: LockResult<Strings>) -> (strings: Result<Vec<InternedStr>, LockPoisoned>)
        ensures
            match answer {
                Ok(store) => strings matches Ok(handles) && handles@ == store.handles()
                    && held_by_all(handles@) == store@.held && store@.wf(),
                Err(_) => strings is Err,
            },
    {
        match answer {
            Ok(store) => {
                proof {
                    store.lemma_handles();
                }
                Ok(store.into_pool().into_vec())
            },
            Err(_) => Err(LockPoisoned),
        }
    }

    /// An iterator over `strings`, or the failure that came in their place.
    pub fn iter_of(strings: Result<Vec<InternedStr>, LockPoisoned>) -> (iter: Result<
        IntoIter,
        LockPoisoned,
    >)
        ensures
            match strings {
                Ok(handles) => iter matches Ok(walk) && walk@ == handles@,
                Err(_) => iter is Err,
            },
    {
        match strings {
            Ok(handles) => Ok(IntoIter::new(Drain::new(handles))),
            Err(poisoned) => Err(poisoned),
        }
    }

    /// Consumes this `Interner` and returns the handles that were in it, one
    /// for each text. Fails if the lock is poisoned.
    pub fn into_set(self) -> (strings: Result<Vec<InternedStr>, LockPoisoned>)
        ensures
            strings matches Ok(handles) ==> Model::distinct(held_by_all(handles@)),
    {
        Self::set_of(unlocked(self.strings))
    }

    /// Consumes this `Interner` for an iterator over the strings that were
    /// interned. Fails if the lock is poisoned.
    pub fn into_iter(self) -> (iter: Result<IntoIter, LockPoisoned>)
        ensures
            iter matches Ok(strings) ==> Model::distinct(held_by_all(strings@)),
    {
        Self::iter_of(self.into_set())
    }

    /// Turns the lock's answer into a `LockedInterner`, which has the store
    /// in hand until it is dropped. Fails if the answer is that the lock is
    /// poisoned.
    pub fn lock<'a>(lease: LockResult<MutexGuard<'a, Strings>>) -> (locked: Result<
        LockedInterner<'a>,
        LockPoisoned,
    >)
        ensures
            match lease {
                Ok(guard) => locked matches Ok(taken) && taken@ == leased(guard)@
                    && taken.handles() == leased(guard).handles() && taken@.wf(),
                Err(_) => locked is Err,
            },
    {
        LockedInterner::new(lease)
    }

    /// Removes all of the interned strings from the store that `lease` has in
    /// hand. Fails, and changes nothing, if the lock's answer is that it is
    /// poisoned.
    pub fn clear(lease: &mut LockResult<MutexGuard<'_, Strings>>) -> (done: Result<(), LockPoisoned>)
        ensures
            cleared_under(*old(lease), *final(lease), done),
    {
        match lease {
            Ok(guard) => {
                guarded(guard).clear();
                Ok(())
            },
            Err(_) => Err(LockPoisoned),
        }
    }

    /// Saves the given string in the store that `lease` has in hand if it is
    /// not already saved there, and returns the saved string. Fails, and
    /// changes nothing, if the lock's answer is that it is poisoned.
    pub fn intern(lease: &mut LockResult<MutexGuard<'_, Strings>>, text: &str) -> (handle: Result<
        InternedStr,
        LockPoisoned,
    >)
        ensures
            interned_under(*old(lease), *final(lease), text@, handle),
    {
        match lease {
            Ok(guard) => Ok(guarded(guard).intern(text)),
            Err(_) => Err(LockPoisoned),
        }
    }

    /// Makes an interner of its own that shares every allocation with the
    /// store that `lease` has in hand. Fails if the lock's answer is that it
    /// is poisoned.
    pub fn clone(lease: &LockResult<MutexGuard<'_, Strings>>) -> (copy: Result<Self, LockPoisoned>)
        ensures
            match *lease {
                Ok(guard) => copy matches Ok(made) && made.initial() == leased(guard)@
                    && made.initial_handles() == leased(guard).handles(),
                Err(_) => copy is Err,
            },
    {
        match lease {
            Ok(guard) => Ok(Self::from_pool(held(guard).pool().duplicate())),
            Err(_) => Err(LockPoisoned),
        }
    }

    /// Says whether the stores that the two leases have in hand hold the same
    /// texts, whatever the allocations and the order. Fails if one of the
    /// locks answered that it is poisoned.
    pub fn eq(
        mine: &LockResult<MutexGuard<'_, Strings>>,
        theirs: &LockResult<MutexGuard<'_, Strings>>,
    ) -> (same: Result<bool, LockPoisoned>)
        ensures
            match (*mine, *theirs) {
                (Ok(left), Ok(right)) => same matches Ok(equal) && equal == (leased(
                    left,
                )@.contents() == leased(right)@.contents()),
                _ => same is Err,
            },
    {
        match mine {
            Ok(left) => match theirs {
                Ok(right) => Ok(held(left).pool().same_contents(held(right).pool())),
                Err(_) => Err(LockPoisoned),
            },
            Err(_) => Err(LockPoisoned),
        }
    }

    /// Says whether the stores that the two leases have in hand differ in the
    /// texts they hold. Fails if one of the locks answered that it is
    /// poisoned.
    pub fn ne(
        mine: &LockResult<MutexGuard<'_, Strings>>,
        theirs: &LockResult<MutexGuard<'_, Strings>>,
    ) -> (differ: Result<bool, LockPoisoned>)
        ensures
            match (*mine, *theirs) {
                (Ok(left), Ok(right)) => differ matches Ok(unequal) && unequal == (leased(
                    left,
                )@.contents() != leased(right)@.contents()),
                _ => differ is Err,
            },
    {
        match Self::eq(mine, theirs) {
            Ok(equal) => Ok(!equal),
            Err(poisoned) => Err(poisoned),
        }
    }
}

impl Default for Interner {
    /// An interner that holds nothing.
    fn default() -> (interner: Self)
        ensures
            interner.initial().wf(),
            interner.initial().held == Seq::<Held>::empty(),
            interner.initial_handles() == Seq::<InternedStr>::empty(),
    {
        Self::new()
    }
}

/// A locked `Interner`: while it lives, the store is this thread's alone, and
/// when it is dropped the lock is free again with the store as it was left.
pub struct LockedInterner<'a> {
    strings: MutexGuard<'a, Strings>,
}

impl<'a> View for LockedInterner<'a> {
    type V = Model;

    /// The state of the store that the lease has in hand.
    closed spec fn view(&self) -> Model {
        leased(self.strings)@
    }
}

impl<'a> LockedInterner<'a> {
    /// The handles in the store, in the order in which they entered it.
    pub closed spec fn handles(&self) -> Seq<InternedStr> {
        leased(self.strings).handles()
    }

    /// The handles in the store after `text` was interned and `handle` given
    /// out for it: those that were there, and after them `handle` if the text
    /// was not held.
    pub open spec fn stored(&self, text: Seq<char>, handle: InternedStr) -> Seq<InternedStr> {
        if self@.holds(text) {
            self.handles()
        } else {
            self.handles().push(handle)
        }
    }

    /// Turns the lock's answer into a `LockedInterner` on the store that the
    /// lease has in hand; a poisoned lock gives none.
    pub fn new(lease: LockResult<MutexGuard<'a, Strings>>) -> (locked: Result<Self, LockPoisoned>)
        ensures
            match lease {
                Ok(guard) => locked matches Ok(taken) && taken@ == leased(guard)@
                    && taken.handles() == leased(guard).handles() && taken@.wf(),
                Err(_) => locked is Err,
            },
    {
        match lease {
            Ok(guard) => {
                let locked = LockedInterner { strings: guard };
                let _ = locked.pool();
                Ok(locked)
            },
            Err(_) => Err(LockPoisoned),
        }
    }

    /// The store as a pool, which is consistent.
    fn pool(&self) -> (pool: &Pool<InternedStr>)
        ensures
            pool.wf(),
            pool.model() == self@,
            pool.handles() == self.handles(),
            self@.wf(),
    {
        held(&self.strings).pool()
    }

    /// The state lists the handles' allocations in the handles' order.
    pub proof fn lemma_handles(&self)
        ensures
            self@.held == held_by_all(self.handles()),
    {
        leased(self.strings).lemma_handles();
    }

    /// Removes all of the interned strings. Handles that were given out stay
    /// as they are.
    pub fn clear(&mut self)
        ensures
            final(self)@.wf(),
            final(self)@ == old(self)@.clear(),
            final(self).handles() == Seq::<InternedStr>::empty(),
    {
        guarded(&mut self.strings).clear();
    }

    /// An iterator over all of the currently interned strings.
    pub fn iter(&self) -> (iter: Iter<'_>)
        ensures
            iter@ == self.handles(),
    {
        Iter::new(Cursor::new(self.pool().entries()))
    }

    /// An iterator over all of the currently interned strings.
    pub fn into_iter(&self) -> (iter: Iter<'_>)
        ensures
            iter@ == self.handles(),
    {
        self.iter()
    }

    /// The number of interned strings.
    pub fn len(&self) -> (n: usize)
        ensures
            n == self@.count(),
    {
        self.pool().len()
    }

    /// Whether `text` is interned.
    pub fn contains(&self, text: &str) -> (held: bool)
        ensures
            held == self@.holds(text@),
    {
        self.pool().position(text).is_some()
    }

    /// Saves the given string if it is not already saved, and returns the
    /// saved string.
    pub fn intern(&mut self, text: &str) -> (handle: InternedStr)
        ensures
            final(self)@.wf(),
            final(self)@ == old(self)@.intern(text@),
            held_by(handle) == old(self)@.interned(text@),
            handle@ == text@,
            final(self)@.holds(text@),
            final(self)@.lookup(text@) == held_by(handle),
            final(self).handles() == old(self).stored(text@, handle),
            old(self)@.holds(text@) ==> handle == old(self).handles()[old(self)@.index_of(text@)],
            final(self).handles()[final(self)@.index_of(text@)] == handle,
    {
        guarded(&mut self.strings).intern(text)
    }
}

impl<'a> PartialEq for LockedInterner<'a> {
    /// Two interners are equal when they hold the same texts, whatever the
    /// allocations and the order.
    fn eq(&self, other: &Self) -> (same: bool) {
        self.pool().same_contents(other.pool())
    }
}

impl<'a> vstd::std_specs::cmp::PartialEqSpecImpl for LockedInterner<'a> {
    open spec fn obeys_eq_spec() -> bool {
        true
    }

    open spec fn eq_spec(&self, other: &Self) -> bool {
        self@.contents() == other@.contents()
    }
}

impl<'a> Eq for LockedInterner<'a> {

}

/// A registry for a whole program: one shared `Interner`, made when it is
/// first asked for and never replaced.
///
/// It works like any other `Interner`: a string interned elsewhere is not
/// thereby interned here.
pub struct GlobalInterner {
    cell: OnceLock<Interner>,
}

impl GlobalInterner {
    /// The registry's one interner.
    pub closed spec fn interner(&self) -> Interner {
        registered(self.cell)
    }

    /// A registry whose interner is yet to be made.
    pub fn new() -> (global: Self) {
        GlobalInterner { cell: OnceLock::new() }
    }

    /// The registry's interner, made now if this is the first call: every
    /// call gives the same one.
    pub fn deref(&self) -> (interner: &Interner)
        ensures
            *interner == self.interner(),
    {
        filled(&self.cell)
    }

    /// The lock behind which the store of the registry's interner stands,
    /// for the caller to ask a lease of.
    pub fn strings(&self) -> (lock: &Mutex<Strings>)
        ensures
            *lock == self.interner().mutex(),
    {
        self.deref().strings()
    }
}

/// Saves the given string in the store that `lease`, a lease on the
/// registry's lock, has in hand if it is not already saved there, and returns
/// the saved string. Fails, and changes nothing, if the lock's answer is that
/// it is poisoned.
pub fn intern(lease: &mut LockResult<MutexGuard<'_, Strings>>, text: &str) -> (handle: Result<
    InternedStr,
    LockPoisoned,
>)
    ensures
        interned_under(*old(lease), *final(lease), text@, handle),
{
    Interner::intern(lease, text)
}

/// Gives text the method `intern`.
pub trait InternExt {
    /// The text that is interned.
    spec fn content(&self) -> Seq<char>;

    /// The same as `intern(lease, self)`.
    fn intern(&self, lease: &mut LockResult<MutexGuard<'_, Strings>>) -> (handle: Result<
        InternedStr,
        LockPoisoned,
    >)
        ensures
            interned_under(*old(lease), *final(lease), self.content(), handle),
    ;
}

impl InternExt for str {
    open spec fn content(&self) -> Seq<char> {
        self@
    }

    fn intern(&self, lease: &mut LockResult<MutexGuard<'_, Strings>>) -> (handle: Result<
        InternedStr,
        LockPoisoned,
    >) {
        self::intern(lease, self)
    }
}

} // verus!
