//! Character-level string helpers shared by the line editors.

use vstd::prelude::*;
use vstd::utf8::encode_utf8;
use vstd::utf8::encode_scalar;

verus! {

/// `String::push` appends one character; std documents exactly that.
pub assume_specification[ String::push ](s: &mut String, ch: char)
    ensures
        final(s)@ == old(s)@.push(ch),
;

/// Number of UTF-8 bytes that encode `s`.
pub open spec fn byte_len(s: Seq<char>) -> nat {
    encode_utf8(s).len()
}

/// The characters of `s` whose index `i` satisfies `start <= i < end`.
pub open spec fn slice_spec(s: Seq<char>, start: int, end: int) -> Seq<char> {
    let lo = if start < s.len() { start } else { s.len() as int };
    let hi = if end < s.len() { end } else { s.len() as int };
    if lo <= hi {
        s.subrange(lo, hi)
    } else {
        Seq::empty()
    }
}

/// The encoding of one scalar takes between one and four bytes.
pub proof fn lemma_scalar_len(c: char)
    ensures
        1 <= encode_scalar(c as u32).len() <= 4,
{
}

/// The encoding of a concatenation is the concatenation of the encodings.
pub proof fn lemma_byte_len_concat(a: Seq<char>, b: Seq<char>)
    ensures
        encode_utf8(a + b) == encode_utf8(a) + encode_utf8(b),
        byte_len(a + b) == byte_len(a) + byte_len(b),
    decreases a.len(),
{
    if a.len() == 0 {
        assert(a + b =~= b);
        assert(encode_utf8(a) =~= Seq::<u8>::empty());
        assert(encode_utf8(a) + encode_utf8(b) =~= encode_utf8(b));
    } else {
        assert((a + b).drop_first() =~= a.drop_first() + b);
        assert((a + b)[0] == a[0]);
        lemma_byte_len_concat(a.drop_first(), b);
        assert(encode_utf8(a + b) =~= encode_scalar(a[0] as u32) + encode_utf8(a.drop_first() + b));
        assert(encode_utf8(a) =~= encode_scalar(a[0] as u32) + encode_utf8(a.drop_first()));
        assert(encode_utf8(a + b) =~= encode_utf8(a) + encode_utf8(b));
    }
}

/// Every character takes at least one byte, and at most four.
pub proof fn lemma_byte_len_bounds(s: Seq<char>)
    ensures
        s.len() <= byte_len(s) <= 4 * s.len(),
    decreases s.len(),
{
    if s.len() > 0 {
        lemma_scalar_len(s[0]);
        lemma_byte_len_bounds(s.drop_first());
    }
}

/// The byte length of a single character.
pub proof fn lemma_byte_len_single(c: char)
    ensures
        1 <= byte_len(seq![c]) <= 4,
{
    lemma_byte_len_bounds(seq![c]);
}

/// The characters of `s` with index in `start..end`, as a new string.
///
/// Indices count characters, not bytes; indices past the end select nothing.
pub fn string_slice(s: &str, start: usize, end: usize) -> (result: String)
    ensures
        result@ == slice_spec(s@, start as int, end as int),
{
    let n = s.unicode_len();
    let mut result = String::new();
    let mut i: usize = 0;
    for c in it: s.chars()
        invariant
            it.seq() == s@,
            n == s@.len(),
            i == it.index(),
            i <= s@.len(),
            result@ == slice_spec(s@.subrange(0, i as int), start as int, end as int),
    {
        if start <= i && i < end {
            result.push(c);
        }
        assert(result@ =~= slice_spec(s@.subrange(0, i + 1), start as int, end as int));
        i += 1;
    }
    assert(s@.subrange(0, i as int) =~= s@);
    result
}

/// Law: the slices `start..mid` and `mid..end` put together are the slice
/// `start..end`.
pub proof fn law_slices_concat(s: Seq<char>, start: int, mid: int, end: int)
    requires
        0 <= start <= mid <= end,
    ensures
        slice_spec(s, start, mid) + slice_spec(s, mid, end) == slice_spec(s, start, end),
{
    assert(slice_spec(s, start, mid) + slice_spec(s, mid, end) =~= slice_spec(s, start, end));
}

/// Law: the slice before `k` and the slice from `k` to the byte length (the
/// end that the line editors use) put together give the whole text.
pub proof fn law_slice_split(s: Seq<char>, k: int)
    requires
        0 <= k,
    ensures
        slice_spec(s, 0, k) + slice_spec(s, k, byte_len(s) as int) == s,
{
    lemma_byte_len_bounds(s);
    assert(slice_spec(s, 0, k) + slice_spec(s, k, byte_len(s) as int) =~= s);
}

} // verus!
