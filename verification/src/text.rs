//! Comparing and searching text.
//!
//! A `str` is searched as its UTF-8 bytes, and the contracts speak of its
//! characters. The two agree because an encoded needle can only lie in an
//! encoded haystack from one character boundary to another.

use vstd::prelude::*;
use vstd::utf8::{
    decode_utf8, decode_utf8_split, encode_utf8, encode_utf8_decode_utf8, encode_utf8_valid_utf8,
    is_char_boundary, is_char_boundary_iff_not_is_continuation_byte, length_of_first_scalar,
    pop_first_scalar, valid_utf8, valid_utf8_split,
};

verus! {

/// Whether `needle` lies in `haystack` from position `start` on.
pub open spec fn occurs_at<T>(haystack: Seq<T>, needle: Seq<T>, start: int) -> bool {
    &&& 0 <= start
    &&& start + needle.len() <= haystack.len()
    &&& haystack.subrange(start, start + needle.len()) == needle
}

/// Whether `needle` lies somewhere in `haystack` as a contiguous run.
pub open spec fn has_subslice<T>(haystack: Seq<T>, needle: Seq<T>) -> bool {
    exists|start: int| occurs_at(haystack, needle, start)
}

/// Whether two byte strings are the same.
pub fn bytes_equal(a: &[u8], b: &[u8]) -> (equal: bool)
    ensures
        equal == (a@ == b@),
{
    if a.len() != b.len() {
        return false;
    }
    for i in 0..a.len()
        invariant
            a@.len() == b@.len(),
            a@.take(i as int) == b@.take(i as int),
    {
        if a[i] != b[i] {
            return false;
        }
        assert(a@.take(i + 1) =~= a@.take(i as int).push(a@[i as int]));
        assert(b@.take(i + 1) =~= b@.take(i as int).push(b@[i as int]));
    }
    assert(a@.take(a@.len() as int) =~= a@);
    assert(b@.take(b@.len() as int) =~= b@);
    true
}

/// Whether `needle` lies in `haystack` at `start`.
fn matches_at(haystack: &[u8], needle: &[u8], start: usize) -> (found: bool)
    requires
        start + needle@.len() <= haystack@.len(),
    ensures
        found == occurs_at(haystack@, needle@, start as int),
{
    let ghost window = haystack@.subrange(start as int, start + needle@.len());
    let haystack_len = haystack.len();
    for i in 0..needle.len()
        invariant
            start + needle@.len() <= haystack@.len() == haystack_len,
            window == haystack@.subrange(start as int, start + needle@.len()),
            window.take(i as int) == needle@.take(i as int),
    {
        if haystack[start + i] != needle[i] {
            assert(window[i as int] != needle@[i as int]);
            return false;
        }
        assert(window.take(i + 1) =~= window.take(i as int).push(window[i as int]));
        assert(needle@.take(i + 1) =~= needle@.take(i as int).push(needle@[i as int]));
    }
    assert(window.take(needle@.len() as int) =~= window);
    assert(needle@.take(needle@.len() as int) =~= needle@);
    true
}

/// Whether `needle` lies somewhere in `haystack`: tries each place in turn.
pub fn contains_bytes(haystack: &[u8], needle: &[u8]) -> (found: bool)
    ensures
        found == has_subslice(haystack@, needle@),
{
    if needle.len() > haystack.len() {
        return false;
    }
    let last = haystack.len() - needle.len();
    let mut start: usize = 0;
    loop
        invariant
            last == haystack@.len() - needle@.len(),
            start <= last,
            forall|earlier: int| 0 <= earlier < start ==> !occurs_at(haystack@, needle@, earlier),
        decreases last - start,
    {
        if matches_at(haystack, needle, start) {
            return true;
        }
        if start == last {
            return false;
        }
        start += 1;
    }
}

/// Text is encoded piece by piece.
pub proof fn lemma_encode_concat(a: Seq<char>, b: Seq<char>)
    ensures
        encode_utf8(a + b) == encode_utf8(a) + encode_utf8(b),
    decreases a.len(),
{
    if a.len() == 0 {
        assert(a + b =~= b);
        assert(encode_utf8(a) + encode_utf8(b) =~= encode_utf8(b));
    } else {
        lemma_encode_concat(a.drop_first(), b);
        assert((a + b).drop_first() =~= a.drop_first() + b);
        assert(encode_utf8(a + b) =~= encode_utf8(a) + encode_utf8(b));
    }
}

/// Where encoded text begins with other encoded text, that text ends on a
/// character boundary.
proof fn lemma_prefix_ends_on_boundary(prefix: Seq<u8>, whole: Seq<u8>)
    requires
        valid_utf8(prefix),
        valid_utf8(whole),
        prefix.len() <= whole.len(),
        whole.subrange(0, prefix.len() as int) == prefix,
    ensures
        is_char_boundary(whole, prefix.len() as int),
    decreases prefix.len(),
{
    if prefix.len() > 0 {
        let width = length_of_first_scalar(prefix);
        assert(whole[0] == whole.subrange(0, prefix.len() as int)[0]);
        assert(length_of_first_scalar(whole) == width);
        assert(pop_first_scalar(whole).subrange(0, prefix.len() - width)
            =~= pop_first_scalar(prefix)) by {
            assert forall|i: int| 0 <= i < prefix.len() - width implies
                pop_first_scalar(whole)[i] == pop_first_scalar(prefix)[i] by {
                assert(whole[width + i] == whole.subrange(0, prefix.len() as int)[width + i]);
            }
        }
        lemma_prefix_ends_on_boundary(pop_first_scalar(prefix), pop_first_scalar(whole));
    }
}

/// A text holds another as a run of characters exactly when its encoding
/// holds the other's encoding as a run of bytes.
pub proof fn lemma_search_by_bytes(haystack: Seq<char>, needle: Seq<char>)
    ensures
        has_subslice(encode_utf8(haystack), encode_utf8(needle))
            <==> has_subslice(haystack, needle),
{
    let bytes = encode_utf8(haystack);
    let wanted = encode_utf8(needle);
    encode_utf8_valid_utf8(haystack);
    encode_utf8_valid_utf8(needle);
    encode_utf8_decode_utf8(haystack);
    encode_utf8_decode_utf8(needle);
    if has_subslice(bytes, wanted) {
        let start = choose|start: int| occurs_at(bytes, wanted, start);
        if wanted.len() == 0 {
            assert(needle =~= Seq::<char>::empty());
            assert(haystack.subrange(0, 0) =~= needle);
            assert(occurs_at(haystack, needle, 0));
        } else {
            assert(bytes[start] == bytes.subrange(start, start + wanted.len())[0]);
            is_char_boundary_iff_not_is_continuation_byte(bytes, start);
            valid_utf8_split(bytes, start);
            decode_utf8_split(bytes, start);
            let before = bytes.subrange(0, start);
            let rest = bytes.subrange(start, bytes.len() as int);
            assert(rest.subrange(0, wanted.len() as int) =~= wanted);
            lemma_prefix_ends_on_boundary(wanted, rest);
            decode_utf8_split(rest, wanted.len() as int);
            let after = rest.subrange(wanted.len() as int, rest.len() as int);
            assert(haystack =~= decode_utf8(before) + needle + decode_utf8(after));
            let place = decode_utf8(before).len() as int;
            assert(haystack.subrange(place, place + needle.len()) =~= needle);
            assert(occurs_at(haystack, needle, place));
        }
    }
    if has_subslice(haystack, needle) {
        let place = choose|place: int| occurs_at(haystack, needle, place);
        let before = haystack.subrange(0, place);
        let after = haystack.subrange(place + needle.len(), haystack.len() as int);
        assert(haystack =~= before + needle + after);
        lemma_encode_concat(before + needle, after);
        lemma_encode_concat(before, needle);
        let start = encode_utf8(before).len() as int;
        assert(bytes.subrange(start, start + wanted.len()) =~= wanted);
        assert(occurs_at(bytes, wanted, start));
    }
}

/// Whether two texts are the same.
pub fn str_equal(a: &str, b: &str) -> (equal: bool)
    ensures
        equal == (a@ == b@),
{
    proof {
        encode_utf8_decode_utf8(a@);
        encode_utf8_decode_utf8(b@);
    }
    bytes_equal(a.as_bytes(), b.as_bytes())
}

/// Whether `needle` lies somewhere in `haystack`. The empty text lies in
/// every text.
pub fn str_contains(haystack: &str, needle: &str) -> (found: bool)
    ensures
        found == has_subslice(haystack@, needle@),
{
    proof {
        lemma_search_by_bytes(haystack@, needle@);
    }
    contains_bytes(haystack.as_bytes(), needle.as_bytes())
}

} // verus!
