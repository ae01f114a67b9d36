//! Library-wide laws of classification and conversion.

use vstd::prelude::*;

use crate::chars::is_letter;
use crate::chars::is_lower;
use crate::chars::is_upper;
use crate::chars::lemma_lower_all_fixed;
use crate::chars::lemma_lower_all_no_upper;
use crate::chars::lower_all;
use crate::chars::to_lower;
use crate::chars::to_upper;
use crate::engine::classify;
use crate::engine::converted;
use crate::engine::pieces;
use crate::engine::Cases;
use crate::pattern::kebab_pattern;
use crate::pattern::sep_word_pattern;
use crate::pattern::snake_pattern;
use crate::segment::camel_join;
use crate::segment::camel_pieces;
use crate::segment::camel_pieces_from;
use crate::segment::capitalize;
use crate::segment::join_with;
use crate::segment::lemma_join_split;
use crate::segment::lemma_join_split_swap;
use crate::segment::lemma_lower_run_end_bounds;
use crate::segment::lower_run_end;
use crate::segment::split_on;

verus! {

/// Every character of the piece is an ASCII letter.
spec fn all_letters(piece: Seq<char>) -> bool {
    forall|j: int| 0 <= j < piece.len() ==> is_letter(#[trigger] piece[j])
}

/// Every piece is a nonempty run of ASCII letters.
spec fn word_shaped(parts: Seq<Seq<char>>) -> bool {
    forall|k: int| 0 <= k < parts.len() ==> (#[trigger] parts[k]).len() > 0 && all_letters(parts[k])
}

/// The shape of word pieces joined by single `sep` characters: nonempty,
/// letters at both ends, only letters and `sep` inside, no two adjacent
/// `sep`s.
spec fn joined_word_text(j: Seq<char>, sep: char) -> bool {
    &&& j.len() > 0
    &&& is_letter(j[0])
    &&& is_letter(j[j.len() - 1])
    &&& forall|i: int| 0 <= i < j.len() ==> is_letter(#[trigger] j[i]) || j[i] == sep
    &&& forall|i: int| 0 <= i < j.len() - 1 ==> !(#[trigger] j[i] == sep && j[i + 1] == sep)
}

/// Converting to snake case is idempotent: converting the result to snake
/// case once more changes nothing. The one exception is input that matches
/// no style yet lowercases to kebab-case text — there the first conversion
/// passes the hyphens through and the second replaces them with
/// underscores — so such input is left out.
pub proof fn lemma_snake_conversion_idempotent(x: Seq<char>)
    requires
        classify(converted(x, Cases::SnakeCase)) != Some(Cases::KebabCase),
    ensures
        converted(converted(x, Cases::SnakeCase), Cases::SnakeCase) == converted(
            x,
            Cases::SnakeCase,
        ),
{
    let y = converted(x, Cases::SnakeCase);
    lemma_lower_all_no_upper(join_with(pieces(x), '_'));
    assert(forall|i: int| 0 <= i < y.len() ==> !is_upper(y[i]));
    lemma_lower_all_fixed(y);
    if classify(y) == Some(Cases::SnakeCase) {
        lemma_join_split(y, '_');
    } else if classify(y) == Some(Cases::CamelCase) {
        assert(is_upper(y[0]));
        assert(false);
    } else {
        assert(classify(y) is None);
        assert(join_with(seq![y], '_') == y);
    }
}

/// Text without any ASCII letter matches no style, and converting it to any
/// target returns it unchanged.
pub proof fn lemma_letterless_text_unchanged(x: Seq<char>, target: Cases)
    requires
        forall|i: int| 0 <= i < x.len() ==> !is_letter(#[trigger] x[i]),
    ensures
        classify(x) is None,
        converted(x, target) == x,
{
    if x.len() > 0 {
        assert(!is_lower(x[0]) && !is_upper(x[0]));
    }
    assert(classify(x) is None);
    assert(pieces(x) == seq![x]);
    assert(join_with(seq![x], '_') == x);
    assert(join_with(seq![x], '-') == x);
    match target {
        Cases::SnakeCase => {
            lemma_lower_all_fixed(x);
        },
        Cases::KebabCase => {
            lemma_lower_all_fixed(x);
        },
        Cases::CamelCase => {
            assert(camel_join(seq![x]) == capitalize(x)) by {
                assert(seq![x].drop_last() =~= Seq::<Seq<char>>::empty());
                assert(camel_join(Seq::<Seq<char>>::empty()) + capitalize(x) =~= capitalize(x));
            }
            if x.len() > 0 {
                assert(to_upper(x[0]) == x[0]);
                assert(capitalize(x) =~= x);
            }
        },
    }
}

/// The inputs that the snake-idempotence law leaves out genuinely fail it:
/// whenever the first conversion yields kebab-case text, the second
/// conversion changes that text, replacing its hyphens with underscores.
pub proof fn lemma_snake_idempotence_fails_on_kebab(x: Seq<char>)
    requires
        classify(converted(x, Cases::SnakeCase)) == Some(Cases::KebabCase),
    ensures
        converted(converted(x, Cases::SnakeCase), Cases::SnakeCase) != converted(
            x,
            Cases::SnakeCase,
        ),
{
    let y = converted(x, Cases::SnakeCase);
    assert(kebab_pattern(y) && !snake_pattern(y));
    if forall|i: int| 0 <= i < y.len() ==> #[trigger] y[i] != '-' {
        assert forall|i: int| 0 <= i < y.len() implies is_lower(#[trigger] y[i]) || y[i] == '_' by {
            assert(is_lower(y[i]) || y[i] == '-');
        }
        assert forall|i: int| 0 <= i < y.len() - 1 implies !(#[trigger] y[i] == '_' && y[i + 1]
            == '_') by {
            assert(is_lower(y[i]));
        }
        assert(snake_pattern(y));
        assert(false);
    }
    let i = choose|i: int| 0 <= i < y.len() && y[i] == '-';
    lemma_join_split_swap(y, '-', '_');
    let r = join_with(split_on(y, '-'), '_');
    assert(r[i] == '_');
    assert(converted(y, Cases::SnakeCase)[i] == to_lower(r[i]));
    assert(converted(y, Cases::SnakeCase)[i] != y[i]);
}

/// Splitting text of the snake/kebab shape yields only letter pieces, all
/// of them nonempty except possibly the last, which is nonempty unless the
/// text ends with the separator.
proof fn lemma_split_prefix_shape(s: Seq<char>, sep: char)
    requires
        !is_lower(sep),
        s.len() > 0,
        is_lower(s[0]),
        forall|i: int| 0 <= i < s.len() ==> is_lower(#[trigger] s[i]) || s[i] == sep,
        forall|i: int| 0 <= i < s.len() - 1 ==> !(#[trigger] s[i] == sep && s[i + 1] == sep),
    ensures
        split_on(s, sep).len() >= 1,
        forall|k: int| 0 <= k < split_on(s, sep).len() ==> all_letters(#[trigger] split_on(s, sep)[k]),
        forall|k: int| 0 <= k < split_on(s, sep).len() - 1 ==> (#[trigger] split_on(s, sep)[k]).len()
            > 0,
        s.last() != sep ==> split_on(s, sep).last().len() > 0,
    decreases s.len(),
{
    let parts = split_on(s, sep);
    if s.len() == 1 {
        assert(s.last() == s[0] && s.last() != sep);
        assert(s.drop_last().len() == 0);
        assert(split_on(s.drop_last(), sep) == seq![Seq::<char>::empty()]);
        assert(parts =~~= seq![seq![s[0]]]);
    } else {
        let s2 = s.drop_last();
        assert forall|i: int| 0 <= i < s2.len() implies is_lower(#[trigger] s2[i]) || s2[i]
            == sep by {
            assert(s2[i] == s[i]);
        }
        assert forall|i: int| 0 <= i < s2.len() - 1 implies !(#[trigger] s2[i] == sep && s2[i + 1]
            == sep) by {
            assert(s2[i] == s[i] && s2[i + 1] == s[i + 1]);
        }
        lemma_split_prefix_shape(s2, sep);
        let prev = split_on(s2, sep);
        if s.last() == sep {
            assert(s2.last() == s[s.len() - 2]);
            assert(!(s[s.len() - 2] == sep && s[s.len() - 1] == sep));
            assert(prev.last().len() > 0);
            assert(parts == prev.push(Seq::<char>::empty()));
            assert forall|k: int| 0 <= k < parts.len() implies all_letters(
                #[trigger] parts[k],
            ) by {
                if k < prev.len() {
                    assert(parts[k] == prev[k]);
                }
            }
        } else {
            let grown = prev.last().push(s.last());
            assert(is_lower(s.last()));
            assert(all_letters(prev.last()));
            assert forall|j: int| 0 <= j < grown.len() implies is_letter(#[trigger] grown[j]) by {
                if j < prev.last().len() {
                    assert(grown[j] == prev.last()[j]);
                }
            }
            assert(parts == prev.update(prev.len() - 1, grown));
            assert forall|k: int| 0 <= k < parts.len() implies all_letters(
                #[trigger] parts[k],
            ) by {
                if k < prev.len() - 1 {
                    assert(parts[k] == prev[k]);
                }
            }
        }
    }
}

/// Splitting text that matches the full snake/kebab pattern yields one or
/// more nonempty letter pieces.
proof fn lemma_split_words(s: Seq<char>, sep: char)
    requires
        sep_word_pattern(s, sep),
        !is_lower(sep),
    ensures
        split_on(s, sep).len() >= 1,
        word_shaped(split_on(s, sep)),
{
    lemma_split_prefix_shape(s, sep);
    assert(s.last() != sep);
}

/// Every camel group is a nonempty run of ASCII letters.
proof fn lemma_camel_pieces_shape(s: Seq<char>, i: int)
    requires
        0 <= i <= s.len(),
    ensures
        word_shaped(camel_pieces_from(s, i)),
    decreases s.len() - i,
{
    if i < s.len() {
        if is_upper(s[i]) {
            let k = lower_run_end(s, i + 1);
            lemma_lower_run_end_bounds(s, i + 1);
            lemma_camel_pieces_shape(s, k);
            let piece = s.subrange(i, k);
            assert forall|j: int| 0 <= j < piece.len() implies is_letter(#[trigger] piece[j]) by {
                assert(piece[j] == s[i + j]);
            }
            let parts = camel_pieces_from(s, i);
            assert forall|t: int| 0 <= t < parts.len() implies (#[trigger] parts[t]).len() > 0
                && all_letters(parts[t]) by {
                if t > 0 {
                    assert(parts[t] == camel_pieces_from(s, k)[t - 1]);
                }
            }
        } else {
            lemma_camel_pieces_shape(s, i + 1);
        }
    }
}

/// Joining nonempty letter pieces with a non-letter separator gives text of
/// the joined-word shape.
proof fn lemma_join_word_shaped(parts: Seq<Seq<char>>, sep: char)
    requires
        parts.len() >= 1,
        word_shaped(parts),
        !is_letter(sep),
    ensures
        joined_word_text(join_with(parts, sep), sep),
    decreases parts.len(),
{
    if parts.len() == 1 {
        let j = join_with(parts, sep);
        assert(j == parts[0]);
        assert forall|i: int| 0 <= i < j.len() - 1 implies !(#[trigger] j[i] == sep && j[i + 1]
            == sep) by {
            assert(is_letter(j[i]));
        }
    } else {
        let front = parts.drop_last();
        assert forall|k: int| 0 <= k < front.len() implies (#[trigger] front[k]).len() > 0
            && all_letters(front[k]) by {
            assert(front[k] == parts[k]);
        }
        lemma_join_word_shaped(front, sep);
        let j2 = join_with(front, sep);
        let last = parts.last();
        let j = join_with(parts, sep);
        assert(j == j2 + seq![sep] + last);
        let mid = j2.len() as int;
        assert(last.len() > 0 && all_letters(last));
        assert forall|i: int| 0 <= i < j.len() implies is_letter(#[trigger] j[i]) || j[i] == sep by {
            if i < mid {
                assert(j[i] == j2[i]);
            } else if i == mid {
                assert(j[i] == sep);
            } else {
                assert(j[i] == last[i - mid - 1]);
            }
        }
        assert(j[0] == j2[0]);
        assert(j[j.len() - 1] == last[last.len() - 1]);
        assert forall|i: int| 0 <= i < j.len() - 1 implies !(#[trigger] j[i] == sep && j[i + 1]
            == sep) by {
            if i + 1 < mid {
                assert(j[i] == j2[i] && j[i + 1] == j2[i + 1]);
            } else if i + 1 == mid {
                assert(j[i] == j2[j2.len() - 1]);
                assert(is_letter(j[i]));
            } else if i == mid {
                assert(j[i + 1] == last[0]);
                assert(is_letter(j[i + 1]));
            } else {
                assert(j[i] == last[i - mid - 1]);
                assert(is_letter(j[i]));
            }
        }
    }
}

/// Lowercasing text of the joined-word shape with underscore separators
/// gives snake_case text.
proof fn lemma_lowered_join_snake(j: Seq<char>)
    requires
        joined_word_text(j, '_'),
    ensures
        snake_pattern(lower_all(j)),
{
    let y = lower_all(j);
    assert(y.len() == j.len());
    assert forall|i: int| 0 <= i < j.len() implies (is_lower(#[trigger] y[i]) || y[i] == '_') && (y[i]
        == '_' ==> j[i] == '_') && (is_letter(j[i]) ==> is_lower(y[i])) by {
        assert(y[i] == to_lower(j[i]));
        assert(is_letter(j[i]) || j[i] == '_');
    }
    assert(is_lower(y[0]));
    assert(is_lower(y[y.len() - 1]));
    assert forall|i: int| 0 <= i < y.len() - 1 implies !(#[trigger] y[i] == '_' && y[i + 1]
        == '_') by {
        if y[i] == '_' && y[i + 1] == '_' {
            assert(j[i] == '_' && j[i + 1] == '_');
        }
    }
}

/// Text in any detected style converts to snake case text that is itself
/// detected as snake case, so for detected input the snake-idempotence law
/// applies with no side condition.
pub proof fn lemma_detected_converts_to_snake(x: Seq<char>)
    requires
        classify(x) is Some,
    ensures
        classify(converted(x, Cases::SnakeCase)) == Some(Cases::SnakeCase),
{
    let parts = pieces(x);
    if classify(x) == Some(Cases::SnakeCase) {
        lemma_split_words(x, '_');
    } else if classify(x) == Some(Cases::CamelCase) {
        lemma_camel_pieces_shape(x, 0);
        assert(camel_pieces(x).len() >= 1);
    } else {
        lemma_split_words(x, '-');
    }
    lemma_join_word_shaped(parts, '_');
    lemma_lowered_join_snake(join_with(parts, '_'));
}

/// For input in any detected style, converting to snake case is idempotent
/// outright.
pub proof fn lemma_snake_idempotent_on_detected(x: Seq<char>)
    requires
        classify(x) is Some,
    ensures
        converted(converted(x, Cases::SnakeCase), Cases::SnakeCase) == converted(
            x,
            Cases::SnakeCase,
        ),
{
    lemma_detected_converts_to_snake(x);
    lemma_snake_conversion_idempotent(x);
}

} // verus!
