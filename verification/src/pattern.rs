//! The three casing-style grammars, as whole-string patterns.
//!
//! Snake and kebab case share one shape: one or more lowercase-letter words
//! joined by single occurrences of a separator character (`'_'` or `'-'`);
//! a bare lowercase word with no separator also matches. Camel case is one
//! or more groups of an uppercase letter followed by lowercase letters,
//! which is the same as saying the text is all ASCII letters and starts
//! with an uppercase one.

use vstd::prelude::*;

use crate::chars::is_letter;
use crate::chars::is_lower;
use crate::chars::is_lower_char;
use crate::chars::is_upper;
use crate::chars::is_upper_char;

verus! {

/// One or more nonempty lowercase words joined by single `sep` characters:
/// the text is nonempty, starts and ends with a lowercase letter, holds
/// only lowercase letters and `sep`, and never two adjacent `sep`s.
pub open spec fn sep_word_pattern(s: Seq<char>, sep: char) -> bool {
    &&& s.len() > 0
    &&& is_lower(s[0])
    &&& is_lower(s[s.len() - 1])
    &&& forall|i: int| 0 <= i < s.len() ==> is_lower(#[trigger] s[i]) || s[i] == sep
    &&& forall|i: int| 0 <= i < s.len() - 1 ==> !(#[trigger] s[i] == sep && s[i + 1] == sep)
}

/// The snake_case pattern.
pub open spec fn snake_pattern(s: Seq<char>) -> bool {
    sep_word_pattern(s, '_')
}

/// The kebab-case pattern.
pub open spec fn kebab_pattern(s: Seq<char>) -> bool {
    sep_word_pattern(s, '-')
}

/// The CamelCase pattern: nonempty, all ASCII letters, uppercase start.
pub open spec fn camel_pattern(s: Seq<char>) -> bool {
    &&& s.len() > 0
    &&& is_upper(s[0])
    &&& forall|i: int| 0 <= i < s.len() ==> is_letter(#[trigger] s[i])
}

/// Whole-string test of the snake/kebab shape for a given separator.
/// The separator must not itself be a lowercase letter, as neither
/// `'_'` nor `'-'` is.
pub(crate) fn matches_sep_pattern(text: &str, sep: char) -> (r: bool)
    requires
        !is_lower(sep),
    ensures
        r == sep_word_pattern(text@, sep),
{
    let n = text.unicode_len();
    if n == 0 {
        return false;
    }
    if !is_lower_char(text.get_char(0)) {
        return false;
    }
    if !is_lower_char(text.get_char(n - 1)) {
        return false;
    }
    let mut i: usize = 0;
    while i < n
        invariant
            n == text@.len(),
            0 <= i <= n,
            is_lower(text@[0]),
            is_lower(text@[n - 1]),
            forall|j: int| 0 <= j < i ==> is_lower(#[trigger] text@[j]) || text@[j] == sep,
            forall|j: int| 0 <= j < i && j < n - 1 ==> !(#[trigger] text@[j] == sep && text@[j + 1] == sep),
        decreases n - i,
    {
        let c = text.get_char(i);
        if !is_lower_char(c) && c != sep {
            return false;
        }
        if c == sep && i + 1 < n && text.get_char(i + 1) == sep {
            return false;
        }
        i += 1;
    }
    true
}

/// Whole-string test of the CamelCase pattern.
pub(crate) fn matches_camel_pattern(text: &str) -> (r: bool)
    ensures
        r == camel_pattern(text@),
{
    let n = text.unicode_len();
    if n == 0 {
        return false;
    }
    if !is_upper_char(text.get_char(0)) {
        return false;
    }
    let mut i: usize = 0;
    while i < n
        invariant
            n == text@.len(),
            0 <= i <= n,
            is_upper(text@[0]),
            forall|j: int| 0 <= j < i ==> is_letter(#[trigger] text@[j]),
        decreases n - i,
    {
        let c = text.get_char(i);
        if !is_lower_char(c) && !is_upper_char(c) {
            return false;
        }
        i += 1;
    }
    true
}

} // verus!
