//! Fields of the header blob.
//!
//! The header is a run of bytes with text fields at fixed offsets, followed
//! from offset 256 by whitespace-separated words: one type code per vector,
//! then the name of the scale, then the names of the signals, then the name of
//! the sweep parameter if there is one.

use crate::text::{
    copy_range, decode_lossy, from_chars, has_prefix, lossy_text, parse_i32, parsed_i32,
    starts_with, to_chars, trim, trimmed,
};
use vstd::prelude::*;

verus! {

// ----------------------------------------------------------------------------
// Searching bytes
// ----------------------------------------------------------------------------

/// Whether `needle` stands in `haystack` at index `i`.
pub open spec fn matches_at(haystack: Seq<u8>, needle: Seq<u8>, i: int) -> bool {
    0 <= i && i + needle.len() <= haystack.len() && haystack.subrange(i, i + needle.len())
        == needle
}

/// Index of the first occurrence of `needle` at or after `i`.
pub open spec fn find_from(haystack: Seq<u8>, needle: Seq<u8>, i: int) -> Option<int>
    decreases haystack.len() + 1 - i,
{
    if i < 0 || i + needle.len() > haystack.len() {
        None
    } else if matches_at(haystack, needle, i) {
        Some(i)
    } else {
        find_from(haystack, needle, i + 1)
    }
}

/// Index of the first occurrence of `needle` in `haystack`.
pub open spec fn find(haystack: Seq<u8>, needle: Seq<u8>) -> Option<int> {
    find_from(haystack, needle, 0)
}

/// The first occurrence is an occurrence, and there is none before it.
pub proof fn lemma_find_from(haystack: Seq<u8>, needle: Seq<u8>, i: int)
    requires
        0 <= i,
    ensures
        match find_from(haystack, needle, i) {
            Some(p) => {
                &&& i <= p
                &&& matches_at(haystack, needle, p)
                &&& forall|j: int| i <= j < p ==> !matches_at(haystack, needle, j)
            },
            None => forall|j: int| i <= j ==> !matches_at(haystack, needle, j),
        },
    decreases haystack.len() + 1 - i,
{
    if i + needle.len() <= haystack.len() && !matches_at(haystack, needle, i) {
        lemma_find_from(haystack, needle, i + 1);
    }
}

/// Whether two byte slices are equal.
fn bytes_eq(a: &[u8], b: &[u8]) -> (r: bool)
    ensures
        r == (a@ == b@),
{
    if a.len() != b.len() {
        return false;
    }
    let mut i: usize = 0;
    while i < a.len()
        invariant
            i <= a@.len(),
            a@.len() == b@.len(),
            a@.take(i as int) == b@.take(i as int),
        decreases a@.len() - i,
    {
        if a[i] != b[i] {
            return false;
        }
        assert(a@.take(i + 1) == a@.take(i as int).push(a@[i as int]));
        assert(b@.take(i + 1) == b@.take(i as int).push(b@[i as int]));
        i = i + 1;
    }
    assert(a@ == a@.take(a@.len() as int));
    assert(b@ == b@.take(b@.len() as int));
    true
}

/// Finds the first occurrence of a non-empty `needle` in `haystack`.
pub fn find_subsequence(haystack: &[u8], needle: &[u8]) -> (r: Option<usize>)
    requires
        needle@.len() > 0,
    ensures
        match r {
            Some(p) => find(haystack@, needle@) == Some(p as int),
            None => find(haystack@, needle@) is None,
        },
{
    if needle.len() > haystack.len() {
        return None;
    }
    let last: usize = haystack.len() - needle.len();
    let mut i: usize = 0;
    while i <= last
        invariant
            i <= last + 1,
            last + needle@.len() == haystack@.len(),
            needle@.len() > 0,
            haystack@.len() <= usize::MAX,
            find(haystack@, needle@) == find_from(haystack@, needle@, i as int),
        decreases last + 1 - i,
    {
        let window = vstd::slice::slice_subrange(haystack, i, i + needle.len());
        if bytes_eq(window, needle) {
            return Some(i);
        }
        i = i + 1;
    }
    None
}

// ----------------------------------------------------------------------------
// Text fields
// ----------------------------------------------------------------------------

/// Index of the first zero byte at or after `i`, or the length.
pub open spec fn nul_from(s: Seq<u8>, i: int) -> int
    decreases s.len() - i,
{
    if 0 <= i < s.len() && s[i] != 0 {
        nul_from(s, i + 1)
    } else {
        i
    }
}

/// Whether `[start, end)` is a non-empty range within `len` bytes.
pub open spec fn field_in_range(len: int, start: int, end: int) -> bool {
    start < len && end <= len && start < end
}

/// The bytes of the field `[start, end)`, cut at its first zero byte.
pub open spec fn field_bytes(buf: Seq<u8>, start: int, end: int) -> Seq<u8> {
    let field = buf.subrange(start, end);
    field.take(nul_from(field, 0))
}

/// The text of the field `[start, end)`: its bytes up to the first zero byte,
/// decoded and trimmed. A range that does not lie within the buffer gives the
/// empty text.
pub open spec fn field_text(buf: Seq<u8>, start: int, end: int) -> Seq<char> {
    if field_in_range(buf.len() as int, start, end) {
        trimmed(lossy_text(field_bytes(buf, start, end)))
    } else {
        Seq::empty()
    }
}

/// The number that the field `[start, end)` writes, 0 where it writes none.
pub open spec fn field_int(buf: Seq<u8>, start: int, end: int) -> int {
    match parsed_i32(field_text(buf, start, end)) {
        Some(v) => v as int,
        None => 0,
    }
}

/// The text of a field as characters.
pub fn extract_chars(buf: &[u8], start: usize, end: usize) -> (r: Vec<char>)
    ensures
        r@ == field_text(buf@, start as int, end as int),
{
    if start >= buf.len() || end > buf.len() || start >= end {
        return Vec::new();
    }
    let field = vstd::slice::slice_subrange(buf, start, end);
    let mut stop: usize = 0;
    while stop < field.len() && field[stop] != 0
        invariant
            stop <= field@.len(),
            nul_from(field@, 0) == nul_from(field@, stop as int),
        decreases field@.len() - stop,
    {
        stop = stop + 1;
    }
    let text = decode_lossy(vstd::slice::slice_subrange(field, 0, stop));
    let chars = to_chars(text.as_str());
    assert(field@.subrange(0, stop as int) == field@.take(stop as int));
    trim(chars.as_slice())
}

/// The text of the field `[start, end)`.
pub fn extract_string(buf: &[u8], start: usize, end: usize) -> (r: String)
    ensures
        r@ == field_text(buf@, start as int, end as int),
{
    let chars = extract_chars(buf, start, end);
    from_chars(chars.as_slice())
}

/// The number in the field `[start, end)`, 0 where there is none.
pub fn extract_int(buf: &[u8], start: usize, end: usize) -> (r: i32)
    ensures
        r == field_int(buf@, start as int, end as int),
{
    let chars = extract_chars(buf, start, end);
    match parse_i32(chars.as_slice()) {
        Some(v) => v,
        None => 0,
    }
}

// ----------------------------------------------------------------------------
// Signal names
// ----------------------------------------------------------------------------

/// The end of `s[..j]` once its trailing closing brackets are dropped.
pub open spec fn drop_trailing_brackets(s: Seq<char>, j: int) -> int
    decreases j,
{
    if 0 < j <= s.len() && s[j - 1] == ')' {
        drop_trailing_brackets(s, j - 1)
    } else {
        j
    }
}

/// A lowercase signal name without its voltage wrapper: `v(x)` becomes `x`,
/// anything else stays.
pub open spec fn unwrapped(lower: Seq<char>) -> Seq<char> {
    if has_prefix(lower, "v("@) {
        let inner = lower.skip(2);
        inner.take(drop_trailing_brackets(inner, inner.len() as int))
    } else {
        lower
    }
}

/// Strips the voltage wrapper from a lowercase signal name.
pub fn strip_voltage_wrapper(lower: &[char]) -> (r: Vec<char>)
    ensures
        r@ == unwrapped(lower@),
{
    proof {
        reveal_strlit("v(");
    }
    if starts_with(lower, "v(") {
        let ghost inner = lower@.skip(2);
        let mut end: usize = lower.len();
        while end > 2 && lower[end - 1] == ')'
            invariant
                2 <= end <= lower@.len(),
                inner == lower@.skip(2),
                drop_trailing_brackets(inner, inner.len() as int) == drop_trailing_brackets(
                    inner,
                    end - 2,
                ),
            decreases end,
        {
            end = end - 1;
        }
        let r = copy_range(lower, 2, end);
        assert(r@ == inner.take(end - 2));
        r
    } else {
        copy_range(lower, 0, lower.len())
    }
}

} // verus!
