//! The order of texts, which is that of their UTF-8 bytes read from the left,
//! and the order of walks over handles, which is that of their texts read
//! from the left.

use crate::cursor::Cursor;
use crate::handle::Handle;
use crate::text::{byte_at, lemma_bytes_determine_text, suffix};
use std::cmp::Ordering;
use vstd::prelude::*;
use vstd::utf8::encode_utf8;

verus! {

/// The order of two byte strings: the first place where they differ decides,
/// and a string comes before every string that it begins.
pub open spec fn bytes_order(a: Seq<u8>, b: Seq<u8>) -> Ordering
    decreases a.len(),
{
    if a.len() == 0 {
        if b.len() == 0 {
            Ordering::Equal
        } else {
            Ordering::Less
        }
    } else if b.len() == 0 {
        Ordering::Greater
    } else if a[0] < b[0] {
        Ordering::Less
    } else if a[0] > b[0] {
        Ordering::Greater
    } else {
        bytes_order(a.skip(1), b.skip(1))
    }
}

/// The order of two texts: that of their UTF-8 bytes.
pub open spec fn text_order(a: Seq<char>, b: Seq<char>) -> Ordering {
    bytes_order(encode_utf8(a), encode_utf8(b))
}

/// Whether `a` comes before `b`.
pub open spec fn text_lt(a: Seq<char>, b: Seq<char>) -> bool {
    text_order(a, b) == Ordering::Less
}

/// Whether `a` comes before `b` or is `b`.
pub open spec fn text_le(a: Seq<char>, b: Seq<char>) -> bool {
    text_order(a, b) != Ordering::Greater
}

/// Byte strings are equal in order exactly when they are equal.
pub proof fn lemma_bytes_order_equal(a: Seq<u8>, b: Seq<u8>)
    ensures
        bytes_order(a, b) == Ordering::Equal <==> a == b,
    decreases a.len(),
{
    if a.len() > 0 && b.len() > 0 && a[0] == b[0] {
        lemma_bytes_order_equal(a.skip(1), b.skip(1));
        if a.skip(1) == b.skip(1) {
            assert forall|i: int| 0 <= i < a.len() implies a[i] == b[i] by {
                if i > 0 {
                    assert(a.skip(1)[i - 1] == b.skip(1)[i - 1]);
                }
            }
            assert(a.skip(1).len() == b.skip(1).len());
            assert(a =~= b);
        }
    } else if a.len() == 0 && b.len() == 0 {
        assert(a =~= b);
    }
}

/// Turning two byte strings round turns their order round.
pub proof fn lemma_bytes_order_flip(a: Seq<u8>, b: Seq<u8>)
    ensures
        bytes_order(a, b) == Ordering::Less <==> bytes_order(b, a) == Ordering::Greater,
        bytes_order(a, b) == Ordering::Equal <==> bytes_order(b, a) == Ordering::Equal,
        bytes_order(a, b) == Ordering::Greater <==> bytes_order(b, a) == Ordering::Less,
    decreases a.len(),
{
    if a.len() > 0 && b.len() > 0 && a[0] == b[0] {
        lemma_bytes_order_flip(a.skip(1), b.skip(1));
    }
}

/// What is not after a byte string that is not after a third is not after the
/// third, and is before it where one of the two steps is strict.
pub proof fn lemma_bytes_order_chain(a: Seq<u8>, b: Seq<u8>, c: Seq<u8>)
    requires
        bytes_order(a, b) != Ordering::Greater,
        bytes_order(b, c) != Ordering::Greater,
    ensures
        bytes_order(a, c) != Ordering::Greater,
        bytes_order(a, b) == Ordering::Less || bytes_order(b, c) == Ordering::Less ==> bytes_order(
            a,
            c,
        ) == Ordering::Less,
    decreases a.len(),
{
    if a.len() > 0 && b.len() > 0 && c.len() > 0 && a[0] == b[0] && b[0] == c[0] {
        lemma_bytes_order_chain(a.skip(1), b.skip(1), c.skip(1));
    }
}

/// Texts are equal in order exactly when they are equal.
pub proof fn lemma_text_order_equal(a: Seq<char>, b: Seq<char>)
    ensures
        text_order(a, b) == Ordering::Equal <==> a == b,
{
    lemma_bytes_order_equal(encode_utf8(a), encode_utf8(b));
    if encode_utf8(a) == encode_utf8(b) {
        lemma_bytes_determine_text(a, b);
    }
}

/// No text comes before itself.
pub proof fn lemma_text_le_self(a: Seq<char>)
    ensures
        text_le(a, a),
        !text_lt(a, a),
{
    lemma_text_order_equal(a, a);
}

/// Turning two texts round turns their order round.
pub proof fn lemma_text_order_flip(a: Seq<char>, b: Seq<char>)
    ensures
        text_lt(a, b) <==> !text_le(b, a),
        text_le(a, b) <==> !text_lt(b, a),
{
    lemma_bytes_order_flip(encode_utf8(a), encode_utf8(b));
}

/// The order of texts passes along a chain.
pub proof fn lemma_text_order_chain(a: Seq<char>, b: Seq<char>, c: Seq<char>)
    requires
        text_le(a, b),
        text_le(b, c),
    ensures
        text_le(a, c),
        text_lt(a, b) || text_lt(b, c) ==> text_lt(a, c),
{
    lemma_bytes_order_chain(encode_utf8(a), encode_utf8(b), encode_utf8(c));
}

/// The order of `a` and `b`.
pub fn compare_text(a: &str, b: &str) -> (order: Ordering)
    ensures
        order == text_order(a@, b@),
{
    let left = a.as_bytes();
    let right = b.as_bytes();
    let mut at: usize = 0;
    proof {
        assert(suffix(left@, at) =~= left@);
        assert(suffix(right@, at) =~= right@);
    }
    while at < left.len() && at < right.len()
        invariant
            left@ == encode_utf8(a@),
            right@ == encode_utf8(b@),
            at <= left@.len(),
            at <= right@.len(),
            bytes_order(left@, right@) == bytes_order(suffix(left@, at), suffix(right@, at)),
        decreases left@.len() - at,
    {
        let ghost before_left = suffix(left@, at);
        let ghost before_right = suffix(right@, at);
        proof {
            assert(before_left[0] == byte_at(left@, at));
            assert(before_right[0] == byte_at(right@, at));
        }
        if left[at] < right[at] {
            return Ordering::Less;
        }
        if left[at] > right[at] {
            return Ordering::Greater;
        }
        at += 1;
        proof {
            assert(suffix(left@, at) =~= before_left.skip(1));
            assert(suffix(right@, at) =~= before_right.skip(1));
        }
    }
    if at < right.len() {
        Ordering::Less
    } else if at < left.len() {
        Ordering::Greater
    } else {
        Ordering::Equal
    }
}

/// Whether `a` comes before `b`.
pub fn comes_before(a: &str, b: &str) -> (before: bool)
    ensures
        before == text_lt(a@, b@),
{
    match compare_text(a, b) {
        Ordering::Less => true,
        _ => false,
    }
}

/// The texts of `handles`, in their order.
pub open spec fn texts_of<H: Handle>(handles: Seq<H>) -> Seq<Seq<char>> {
    Seq::new(handles.len(), |i: int| handles[i].text())
}

/// The order of two walks: the first place where their texts differ decides,
/// and a walk comes before every walk that it begins.
pub open spec fn walk_order<H: Handle>(a: Seq<H>, b: Seq<H>) -> Ordering
    decreases a.len(),
{
    if a.len() == 0 {
        if b.len() == 0 {
            Ordering::Equal
        } else {
            Ordering::Less
        }
    } else if b.len() == 0 {
        Ordering::Greater
    } else {
        match text_order(a[0].text(), b[0].text()) {
            Ordering::Less => Ordering::Less,
            Ordering::Greater => Ordering::Greater,
            Ordering::Equal => walk_order(a.skip(1), b.skip(1)),
        }
    }
}

/// Walks are equal in order exactly when they give the same texts.
pub proof fn lemma_walk_order_equal<H: Handle>(a: Seq<H>, b: Seq<H>)
    ensures
        walk_order(a, b) == Ordering::Equal <==> texts_of(a) == texts_of(b),
    decreases a.len(),
{
    if a.len() > 0 && b.len() > 0 {
        lemma_text_order_equal(a[0].text(), b[0].text());
        lemma_walk_order_equal(a.skip(1), b.skip(1));
        if texts_of(a) == texts_of(b) {
            assert(texts_of(a)[0] == texts_of(b)[0]);
            assert(texts_of(a.skip(1)) =~= texts_of(a).skip(1));
            assert(texts_of(b.skip(1)) =~= texts_of(b).skip(1));
        }
        if a[0].text() == b[0].text() && texts_of(a.skip(1)) == texts_of(b.skip(1)) {
            assert(texts_of(a).len() == texts_of(b).len()) by {
                assert(texts_of(a.skip(1)).len() == texts_of(b.skip(1)).len());
            }
            assert forall|i: int| 0 <= i < a.len() implies texts_of(a)[i] == texts_of(b)[i] by {
                if i > 0 {
                    assert(texts_of(a.skip(1))[i - 1] == texts_of(b.skip(1))[i - 1]);
                }
            }
            assert(texts_of(a) =~= texts_of(b));
        }
    } else {
        if a.len() == 0 && b.len() == 0 {
            assert(texts_of(a) =~= texts_of(b));
        } else {
            assert(texts_of(a).len() != texts_of(b).len());
        }
    }
}

impl<'a, H: Handle> Cursor<'a, H> {
    /// Ends both walks and gives their order.
    pub fn cmp(self, other: Cursor<'_, H>) -> (order: Ordering)
        ensures
            order == walk_order(self@, other@),
    {
        let mut left = self;
        let mut right = other;
        while left.len() > 0 && right.len() > 0
            invariant
                walk_order(self@, other@) == walk_order(left@, right@),
            decreases left@.len(),
        {
            match (left.next(), right.next()) {
                (Some(mine), Some(theirs)) => {
                    match compare_text(mine.as_str(), theirs.as_str()) {
                        Ordering::Less => {
                            return Ordering::Less;
                        },
                        Ordering::Greater => {
                            return Ordering::Greater;
                        },
                        Ordering::Equal => {},
                    }
                },
                _ => {},
            }
        }
        if right.len() > 0 {
            Ordering::Less
        } else if left.len() > 0 {
            Ordering::Greater
        } else {
            Ordering::Equal
        }
    }

    /// Ends both walks and gives their order, which every two walks have.
    pub fn partial_cmp(self, other: Cursor<'_, H>) -> (order: Option<Ordering>)
        ensures
            order == Some(walk_order(self@, other@)),
    {
        Some(self.cmp(other))
    }

    /// Ends both walks and says whether they gave the same texts.
    pub fn eq(self, other: Cursor<'_, H>) -> (same: bool)
        ensures
            same == (texts_of(self@) == texts_of(other@)),
    {
        proof {
            lemma_walk_order_equal(self@, other@);
        }
        match self.cmp(other) {
            Ordering::Equal => true,
            _ => false,
        }
    }

    /// Ends both walks and says whether their texts differed.
    pub fn ne(self, other: Cursor<'_, H>) -> (differ: bool)
        ensures
            differ == (texts_of(self@) != texts_of(other@)),
    {
        !self.eq(other)
    }

    /// Ends both walks and says whether this one came before `other`.
    pub fn lt(self, other: Cursor<'_, H>) -> (before: bool)
        ensures
            before == (walk_order(self@, other@) == Ordering::Less),
    {
        match self.cmp(other) {
            Ordering::Less => true,
            _ => false,
        }
    }

    /// Ends both walks and says whether this one did not come after `other`.
    pub fn le(self, other: Cursor<'_, H>) -> (not_after: bool)
        ensures
            not_after == (walk_order(self@, other@) != Ordering::Greater),
    {
        match self.cmp(other) {
            Ordering::Greater => false,
            _ => true,
        }
    }

    /// Ends both walks and says whether this one came after `other`.
    pub fn gt(self, other: Cursor<'_, H>) -> (after: bool)
        ensures
            after == (walk_order(self@, other@) == Ordering::Greater),
    {
        match self.cmp(other) {
            Ordering::Greater => true,
            _ => false,
        }
    }

    /// Ends both walks and says whether this one did not come before `other`.
    pub fn ge(self, other: Cursor<'_, H>) -> (not_before: bool)
        ensures
            not_before == (walk_order(self@, other@) != Ordering::Less),
    {
        match self.cmp(other) {
            Ordering::Less => false,
            _ => true,
        }
    }
}

} // verus!
