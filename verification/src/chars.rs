//! ASCII character classification and case mapping.
//!
//! Casing in this library is ASCII-only: the three recognized styles are
//! made of ASCII letters and separators, so only the ASCII range takes part
//! in case mapping. Characters outside that range pass through unchanged.

use vstd::prelude::*;

verus! {

/// An ASCII lowercase letter, `'a'` through `'z'`.
pub open spec fn is_lower(c: char) -> bool {
    97 <= c as u32 && c as u32 <= 122
}

/// An ASCII uppercase letter, `'A'` through `'Z'`.
pub open spec fn is_upper(c: char) -> bool {
    65 <= c as u32 && c as u32 <= 90
}

/// An ASCII letter of either case.
pub open spec fn is_letter(c: char) -> bool {
    is_lower(c) || is_upper(c)
}

/// ASCII lowercasing of one character: an uppercase letter is mapped to its
/// lowercase counterpart, every other character is unchanged.
pub open spec fn to_lower(c: char) -> char {
    if is_upper(c) {
        ((c as u32 + 32) as u8) as char
    } else {
        c
    }
}

/// ASCII uppercasing of one character: a lowercase letter is mapped to its
/// uppercase counterpart, every other character is unchanged.
pub open spec fn to_upper(c: char) -> char {
    if is_lower(c) {
        ((c as u32 - 32) as u8) as char
    } else {
        c
    }
}

/// ASCII lowercasing of a whole character sequence.
pub open spec fn lower_all(s: Seq<char>) -> Seq<char> {
    s.map_values(|c: char| to_lower(c))
}

pub fn is_lower_char(c: char) -> (r: bool)
    ensures
        r == is_lower(c),
{
    let n = c as u32;
    97 <= n && n <= 122
}

pub fn is_upper_char(c: char) -> (r: bool)
    ensures
        r == is_upper(c),
{
    let n = c as u32;
    65 <= n && n <= 90
}

pub fn lower_char(c: char) -> (r: char)
    ensures
        r == to_lower(c),
{
    let n = c as u32;
    if 65 <= n && n <= 90 {
        ((n + 32) as u8) as char
    } else {
        c
    }
}

pub fn upper_char(c: char) -> (r: char)
    ensures
        r == to_upper(c),
{
    let n = c as u32;
    if 97 <= n && n <= 122 {
        ((n - 32) as u8) as char
    } else {
        c
    }
}

/// Relies on `String::push`: appends one character at the end of the string.
#[verifier::external_body]
pub(crate) fn push_char(s: &mut String, c: char)
    ensures
        final(s)@ == old(s)@.push(c),
{
    s.push(c);
}

/// Lowercasing never produces an uppercase letter.
pub proof fn lemma_lower_all_no_upper(s: Seq<char>)
    ensures
        forall|i: int| 0 <= i < s.len() ==> !is_upper(#[trigger] lower_all(s)[i]),
{
    assert forall|i: int| 0 <= i < s.len() implies !is_upper(#[trigger] lower_all(s)[i]) by {
        assert(lower_all(s)[i] == to_lower(s[i]));
    }
}

/// A sequence without uppercase letters is already in lowercase form.
pub proof fn lemma_lower_all_fixed(s: Seq<char>)
    requires
        forall|i: int| 0 <= i < s.len() ==> !is_upper(s[i]),
    ensures
        lower_all(s) == s,
{
    assert forall|i: int| 0 <= i < s.len() implies lower_all(s)[i] == s[i] by {
        assert(!is_upper(s[i]));
    }
    assert(lower_all(s) =~= s);
}

} // verus!
