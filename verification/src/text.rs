//! What the storage needs of text: a digest to bucket it by, and equality.

use std::collections::hash_map::DefaultHasher;
use std::hash::Hasher;
use vstd::prelude::*;
use vstd::std_specs::hash::DefaultHasherAdditionalSpecFns;
use vstd::utf8::{encode_utf8, encode_utf8_decode_utf8};

verus! {

/// The digest by which a text is bucketed: that of the default hasher after
/// one write of the text's UTF-8 bytes.
pub open spec fn digest(content: Seq<char>) -> u64 {
    DefaultHasher::spec_finish(seq![encode_utf8(content)])
}

/// Computes the digest of `text`.
pub fn digest_of(text: &str) -> (d: u64)
    ensures
        d == digest(text@),
{
    let mut hasher = DefaultHasher::new();
    hasher.write(text.as_bytes());
    proof {
        assert(hasher@ =~= seq![encode_utf8(text@)]);
    }
    hasher.finish()
}

/// Two texts with the same UTF-8 bytes are the same text.
pub proof fn lemma_bytes_determine_text(a: Seq<char>, b: Seq<char>)
    requires
        encode_utf8(a) == encode_utf8(b),
    ensures
        a == b,
{
    encode_utf8_decode_utf8(a);
    encode_utf8_decode_utf8(b);
}

/// What is left of `bytes` after the first `from` of them.
pub open spec fn suffix(bytes: Seq<u8>, from: usize) -> Seq<u8> {
    bytes.skip(from as int)
}

/// The byte of `bytes` at place `at`.
pub open spec fn byte_at(bytes: Seq<u8>, at: usize) -> u8 {
    bytes[at as int]
}

/// Whether `a` and `b` hold the same text.
pub fn same_text(a: &str, b: &str) -> (same: bool)
    ensures
        same == (a@ == b@),
{
    let left = a.as_bytes();
    let right = b.as_bytes();
    if left.len() != right.len() {
        return false;
    }
    let mut at: usize = 0;
    while at < left.len()
        invariant
            left@ == encode_utf8(a@),
            right@ == encode_utf8(b@),
            left@.len() == right@.len(),
            at <= left@.len(),
            forall|i: int| 0 <= i < at ==> left@[i] == right@[i],
        decreases left@.len() - at,
    {
        if left[at] != right[at] {
            return false;
        }
        at += 1;
    }
    proof {
        assert(left@ =~= right@);
        lemma_bytes_determine_text(a@, b@);
    }
    true
}

} // verus!
