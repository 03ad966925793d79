//! Strings as bytes: facts about the UTF-8 encoding of text, and the two
//! operations on string contents that the interner needs.

use core::hash::Hasher;
use std::collections::hash_map::DefaultHasher;
use vstd::prelude::*;
use vstd::std_specs::hash::DefaultHasherAdditionalSpecFns;
use vstd::string::StringSliceAdditionalSpecFns;
use vstd::utf8::*;

verus! {

/// The encoding of two texts joined is the two encodings joined.
pub proof fn lemma_encode_concat(a: Seq<char>, b: Seq<char>)
    ensures
        encode_utf8(a + b) == encode_utf8(a) + encode_utf8(b),
    decreases a.len(),
{
    if a.len() == 0 {
        assert(a + b =~= b);
        assert(encode_utf8(a) + encode_utf8(b) =~= encode_utf8(b));
    } else {
        assert((a + b).drop_first() =~= a.drop_first() + b);
        lemma_encode_concat(a.drop_first(), b);
        assert(encode_utf8(a + b) =~= encode_utf8(a) + encode_utf8(b));
    }
}

/// Two texts with the same encoding are the same text.
pub proof fn lemma_encode_injective(a: Seq<char>, b: Seq<char>)
    requires
        encode_utf8(a) == encode_utf8(b),
    ensures
        a == b,
{
    encode_utf8_decode_utf8(a);
    encode_utf8_decode_utf8(b);
}

/// A character boundary of a text is still one after more text is appended,
/// and so is the place where the two texts meet.
pub proof fn lemma_boundary_extend(head: Seq<u8>, tail: Seq<u8>, index: int)
    requires
        valid_utf8(head),
        valid_utf8(tail),
        0 <= index <= head.len(),
        is_char_boundary(head, index),
    ensures
        valid_utf8(head + tail),
        is_char_boundary(head + tail, index),
{
    let whole = head + tail;
    valid_utf8_concat(head, tail);
    if index < head.len() {
        is_char_boundary_iff_not_is_continuation_byte(head, index);
        is_char_boundary_iff_not_is_continuation_byte(whole, index);
    } else if tail.len() == 0 {
        is_char_boundary_start_end_of_seq(whole);
    } else {
        is_char_boundary_iff_not_is_continuation_byte(tail, 0);
        is_char_boundary_iff_not_is_continuation_byte(whole, index);
    }
}

/// The bytes between two character boundaries are themselves a text, and the
/// earlier boundary is also one of the prefix that ends at the later.
pub proof fn lemma_boundary_range(bytes: Seq<u8>, start: int, end: int)
    requires
        valid_utf8(bytes),
        0 <= start <= end <= bytes.len(),
        is_char_boundary(bytes, start),
        is_char_boundary(bytes, end),
    ensures
        valid_utf8(bytes.subrange(0, end)),
        is_char_boundary(bytes.subrange(0, end), start),
        valid_utf8(bytes.subrange(start, end)),
{
    let prefix = bytes.subrange(0, end);
    valid_utf8_split(bytes, end);
    if start < end {
        is_char_boundary_iff_not_is_continuation_byte(bytes, start);
        is_char_boundary_iff_not_is_continuation_byte(prefix, start);
    } else {
        is_char_boundary_start_end_of_seq(prefix);
    }
    valid_utf8_split(prefix, start);
    assert(prefix.subrange(start, prefix.len() as int) =~= bytes.subrange(start, end));
}

/// Whether two strings hold the same text.
pub fn str_eq(a: &str, b: &str) -> (same: bool)
    ensures
        same == (a@ == b@),
{
    let x = a.as_bytes();
    let y = b.as_bytes();
    if x.len() != y.len() {
        return false;
    }
    let mut i: usize = 0;
    while i < x.len()
        invariant
            x@ == encode_utf8(a@),
            y@ == encode_utf8(b@),
            x@.len() == y@.len(),
            i <= x@.len(),
            forall|j: int| 0 <= j < i ==> x@[j] == y@[j],
        decreases x@.len() - i,
    {
        if x[i] != y[i] {
            return false;
        }
        i += 1;
    }
    proof {
        assert(x@ =~= y@);
        lemma_encode_injective(a@, b@);
    }
    true
}

/// The hash under which a text is filed.
pub(crate) open spec fn spec_hash(text: Seq<char>) -> u64 {
    DefaultHasher::spec_finish(seq![encode_utf8(text)])
}

/// Hashes the bytes of a string.
pub(crate) fn hash_of(s: &str) -> (h: u64)
    ensures
        h == spec_hash(s@),
{
    let mut hasher = DefaultHasher::new();
    hasher.write(s.as_bytes());
    assert(hasher@ =~= seq![encode_utf8(s@)]);
    hasher.finish()
}

} // verus!
