//! The case engine: classification, conversion, and the default target.
//!
//! Detection is tried in a fixed order — snake, then camel, then kebab —
//! and the first matching style wins, so a bare lowercase word counts as
//! snake case. Text matching no style is treated as one opaque piece, which
//! makes conversion total: every string converts to every target.

use vstd::prelude::*;
use vstd::string::StrSliceExecFns;

use crate::chars::lower_all;
use crate::pattern::camel_pattern;
use crate::pattern::kebab_pattern;
use crate::pattern::matches_camel_pattern;
use crate::pattern::matches_sep_pattern;
use crate::pattern::snake_pattern;
use crate::segment::camel_join;
use crate::segment::camel_join_parts;
use crate::segment::camel_pieces;
use crate::segment::camel_pieces_text;
use crate::segment::join_parts;
use crate::segment::join_with;
use crate::segment::lower_string;
use crate::segment::split_on;
use crate::segment::split_text;

verus! {

/// The three recognized casing styles.
#[derive(Debug, Clone, Copy, PartialEq, Eq, Structural)]
pub enum Cases {
    SnakeCase,
    CamelCase,
    KebabCase,
}

/// The style of `s`, tried in the fixed order snake, camel, kebab; `None`
/// when no style matches.
pub open spec fn classify(s: Seq<char>) -> Option<Cases> {
    if snake_pattern(s) {
        Some(Cases::SnakeCase)
    } else if camel_pattern(s) {
        Some(Cases::CamelCase)
    } else if kebab_pattern(s) {
        Some(Cases::KebabCase)
    } else {
        None
    }
}

/// The word pieces of `s` under its detected style; unclassified text is
/// one opaque piece.
pub open spec fn pieces(s: Seq<char>) -> Seq<Seq<char>> {
    match classify(s) {
        Some(Cases::SnakeCase) => split_on(s, '_'),
        Some(Cases::CamelCase) => camel_pieces(s),
        Some(Cases::KebabCase) => split_on(s, '-'),
        None => seq![s],
    }
}

/// The conversion of `s` into `target`: its pieces joined with `'_'` or
/// `'-'` and lowercased, or capitalized and concatenated for the camel
/// target.
pub open spec fn converted(s: Seq<char>, target: Cases) -> Seq<char> {
    match target {
        Cases::SnakeCase => lower_all(join_with(pieces(s), '_')),
        Cases::CamelCase => camel_join(pieces(s)),
        Cases::KebabCase => lower_all(join_with(pieces(s), '-')),
    }
}

/// The target chosen when the caller requests none: snake and kebab text
/// goes to camel, camel text goes to snake, and unclassified text defaults
/// to camel.
pub open spec fn default_target(s: Seq<char>) -> Cases {
    match classify(s) {
        Some(Cases::SnakeCase) => Cases::CamelCase,
        Some(Cases::CamelCase) => Cases::SnakeCase,
        Some(Cases::KebabCase) => Cases::CamelCase,
        None => Cases::CamelCase,
    }
}

/// A case-conversion view over one borrowed text value.
pub struct CaseManipulator<'a> {
    text: &'a str,
}

impl<'a> View for CaseManipulator<'a> {
    type V = Seq<char>;

    closed spec fn view(&self) -> Seq<char> {
        self.text@
    }
}

impl<'a> CaseManipulator<'a> {
    pub fn new(text: &'a str) -> (r: Self)
        ensures
            r@ == text@,
    {
        CaseManipulator { text }
    }

    /// Whether the text is snake_case.
    pub fn is_snake_case(&self) -> (r: bool)
        ensures
            r == snake_pattern(self@),
    {
        matches_sep_pattern(self.text, '_')
    }

    /// Whether the text is CamelCase.
    pub fn is_camel_case(&self) -> (r: bool)
        ensures
            r == camel_pattern(self@),
    {
        matches_camel_pattern(self.text)
    }

    /// Whether the text is kebab-case.
    pub fn is_kebab_case(&self) -> (r: bool)
        ensures
            r == kebab_pattern(self@),
    {
        matches_sep_pattern(self.text, '-')
    }

    /// What case the text is, or `None` when no style matches.
    pub fn get_case(&self) -> (r: Option<Cases>)
        ensures
            r == classify(self@),
    {
        if self.is_snake_case() {
            Some(Cases::SnakeCase)
        } else if self.is_camel_case() {
            Some(Cases::CamelCase)
        } else if self.is_kebab_case() {
            Some(Cases::KebabCase)
        } else {
            None
        }
    }

    /// Converts the text into `case`, leaving the text itself unchanged.
    pub fn convert_into(&mut self, case: Cases) -> (r: String)
        ensures
            r@ == converted(old(self)@, case),
            final(self)@ == old(self)@,
    {
        let items: Vec<&'a str> = match self.get_case() {
            Some(Cases::SnakeCase) => self.break_snake_case(),
            Some(Cases::CamelCase) => self.break_camel_case(),
            Some(Cases::KebabCase) => self.break_kebab_case(),
            None => {
                let mut single: Vec<&'a str> = Vec::new();
                single.push(self.text);
                proof {
                    assert(single.deep_view() =~= seq![self@]);
                }
                single
            },
        };
        proof {
            assert(items.deep_view() == pieces(self@));
        }
        match case {
            Cases::SnakeCase => lower_string(join_parts(&items, '_').as_str()),
            Cases::CamelCase => camel_join_parts(&items),
            Cases::KebabCase => lower_string(join_parts(&items, '-').as_str()),
        }
    }

    /// The most suitable target for the text's detected style.
    pub fn get_default_conversion(&self) -> (r: Cases)
        ensures
            r == default_target(self@),
    {
        match self.get_case() {
            Some(Cases::SnakeCase) => Cases::CamelCase,
            Some(Cases::CamelCase) => Cases::SnakeCase,
            Some(Cases::KebabCase) => Cases::CamelCase,
            None => Cases::CamelCase,
        }
    }

    /// The text split on underscores, empty pieces kept.
    pub fn break_snake_case(&self) -> (r: Vec<&'a str>)
        ensures
            r.deep_view() == split_on(self@, '_'),
    {
        split_text(self.text, '_')
    }

    /// The camel groups of the text: an uppercase letter followed by the
    /// longest run of lowercase letters, characters outside a group dropped.
    pub fn break_camel_case(&self) -> (r: Vec<&'a str>)
        ensures
            r.deep_view() == camel_pieces(self@),
    {
        camel_pieces_text(self.text)
    }

    /// The text split on hyphens, empty pieces kept.
    pub fn break_kebab_case(&self) -> (r: Vec<&'a str>)
        ensures
            r.deep_view() == split_on(self@, '-'),
    {
        split_text(self.text, '-')
    }
}

} // verus!
