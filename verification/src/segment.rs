//! Splitting text into word pieces and rejoining pieces into text.
//!
//! Snake and kebab text is split on its separator character, keeping empty
//! pieces. Camel text is scanned for groups of an uppercase letter followed
//! by the longest run of lowercase letters; characters covered by no group
//! are dropped. Joining either inserts a separator between the pieces or,
//! for the camel target, uppercases the first character of every piece and
//! concatenates them.

use vstd::prelude::*;
use vstd::string::StrSliceExecFns;
use vstd::string::StringExecFns;

use crate::chars::is_lower;
use crate::chars::is_lower_char;
use crate::chars::is_upper;
use crate::chars::is_upper_char;
use crate::chars::lower_all;
use crate::chars::lower_char;
use crate::chars::push_char;
use crate::chars::to_lower;
use crate::chars::to_upper;
use crate::chars::upper_char;

verus! {

/// The pieces of `s` between occurrences of `sep`, in order, empty pieces
/// kept: there is always one piece more than there are separators.
pub open spec fn split_on(s: Seq<char>, sep: char) -> Seq<Seq<char>>
    decreases s.len(),
{
    if s.len() == 0 {
        seq![Seq::<char>::empty()]
    } else {
        let prev = split_on(s.drop_last(), sep);
        if s.last() == sep {
            prev.push(Seq::<char>::empty())
        } else {
            prev.update(prev.len() - 1, prev.last().push(s.last()))
        }
    }
}

/// The pieces joined with `sep` between each adjacent pair.
pub open spec fn join_with(parts: Seq<Seq<char>>, sep: char) -> Seq<char>
    decreases parts.len(),
{
    if parts.len() == 0 {
        Seq::<char>::empty()
    } else if parts.len() == 1 {
        parts[0]
    } else {
        join_with(parts.drop_last(), sep) + seq![sep] + parts.last()
    }
}

/// A piece with its first character uppercased and the rest unchanged.
pub open spec fn capitalize(piece: Seq<char>) -> Seq<char> {
    if piece.len() == 0 {
        piece
    } else {
        seq![to_upper(piece[0])] + piece.skip(1)
    }
}

/// The pieces capitalized and concatenated with no separator.
pub open spec fn camel_join(parts: Seq<Seq<char>>) -> Seq<char>
    decreases parts.len(),
{
    if parts.len() == 0 {
        Seq::<char>::empty()
    } else {
        camel_join(parts.drop_last()) + capitalize(parts.last())
    }
}

/// The first position at or after `i` that does not hold a lowercase
/// letter, or the end of the sequence.
pub open spec fn lower_run_end(s: Seq<char>, i: int) -> int
    decreases s.len() - i,
{
    if 0 <= i < s.len() && is_lower(s[i]) {
        lower_run_end(s, i + 1)
    } else {
        i
    }
}

pub proof fn lemma_lower_run_end_bounds(s: Seq<char>, i: int)
    requires
        0 <= i <= s.len(),
    ensures
        i <= lower_run_end(s, i) <= s.len(),
        forall|j: int| i <= j < lower_run_end(s, i) ==> is_lower(#[trigger] s[j]),
        lower_run_end(s, i) < s.len() ==> !is_lower(s[lower_run_end(s, i)]),
    decreases s.len() - i,
{
    if i < s.len() && is_lower(s[i]) {
        lemma_lower_run_end_bounds(s, i + 1);
    }
}

/// `lower_run_end` is pinned down by the run it delimits.
pub proof fn lemma_lower_run_end_is(s: Seq<char>, i: int, k: int)
    requires
        0 <= i <= k <= s.len(),
        forall|j: int| i <= j < k ==> is_lower(#[trigger] s[j]),
        k < s.len() ==> !is_lower(s[k]),
    ensures
        lower_run_end(s, i) == k,
    decreases k - i,
{
    if i < k {
        lemma_lower_run_end_is(s, i + 1, k);
    }
}

/// The camel groups of `s` from position `i` on: each group starts at an
/// uppercase letter and extends over the following lowercase run; other
/// characters belong to no group.
pub open spec fn camel_pieces_from(s: Seq<char>, i: int) -> Seq<Seq<char>>
    decreases s.len() - i,
    via camel_pieces_from_decreases
{
    if i < 0 || i >= s.len() {
        Seq::<Seq<char>>::empty()
    } else if is_upper(s[i]) {
        let k = lower_run_end(s, i + 1);
        seq![s.subrange(i, k)] + camel_pieces_from(s, k)
    } else {
        camel_pieces_from(s, i + 1)
    }
}

#[via_fn]
proof fn camel_pieces_from_decreases(s: Seq<char>, i: int) {
    if 0 <= i < s.len() && is_upper(s[i]) {
        lemma_lower_run_end_bounds(s, i + 1);
    }
}

/// The camel groups of the whole of `s`.
pub open spec fn camel_pieces(s: Seq<char>) -> Seq<Seq<char>> {
    camel_pieces_from(s, 0)
}

/// Splitting yields at least one piece.
pub proof fn lemma_split_on_len(s: Seq<char>, sep: char)
    ensures
        split_on(s, sep).len() >= 1,
    decreases s.len(),
{
    if s.len() > 0 {
        lemma_split_on_len(s.drop_last(), sep);
    }
}

/// Extending the last piece of a join appends the character to the join.
proof fn lemma_join_push_last(parts: Seq<Seq<char>>, c: char, sep: char)
    requires
        parts.len() >= 1,
    ensures
        join_with(parts.update(parts.len() - 1, parts.last().push(c)), sep) == join_with(
            parts,
            sep,
        ).push(c),
    decreases parts.len(),
{
    let updated = parts.update(parts.len() - 1, parts.last().push(c));
    if parts.len() == 1 {
        assert(join_with(updated, sep) =~= join_with(parts, sep).push(c));
    } else {
        assert(updated.drop_last() =~= parts.drop_last());
        assert(join_with(updated, sep) =~= join_with(parts, sep).push(c));
    }
}

/// Joining the split of `s` with the same separator gives `s` back.
pub proof fn lemma_join_split(s: Seq<char>, sep: char)
    ensures
        join_with(split_on(s, sep), sep) == s,
    decreases s.len(),
{
    if s.len() == 0 {
        assert(join_with(split_on(s, sep), sep) =~= s);
    } else {
        let prev = split_on(s.drop_last(), sep);
        lemma_split_on_len(s.drop_last(), sep);
        lemma_join_split(s.drop_last(), sep);
        if s.last() == sep {
            assert(prev.push(Seq::<char>::empty()).drop_last() =~= prev);
            assert(join_with(split_on(s, sep), sep) =~= s);
        } else {
            lemma_join_push_last(prev, s.last(), sep);
            assert(join_with(split_on(s, sep), sep) =~= s);
        }
    }
}

/// Joining the split of `s` on `a` with another separator `b` keeps every
/// character except that each occurrence of `a` becomes `b`.
pub proof fn lemma_join_split_swap(s: Seq<char>, a: char, b: char)
    ensures
        join_with(split_on(s, a), b).len() == s.len(),
        forall|i: int| 0 <= i < s.len() ==> join_with(split_on(s, a), b)[i] == (if s[i] == a {
            b
        } else {
            s[i]
        }),
    decreases s.len(),
{
    if s.len() > 0 {
        let prev = split_on(s.drop_last(), a);
        lemma_split_on_len(s.drop_last(), a);
        lemma_join_split_swap(s.drop_last(), a, b);
        let r2 = join_with(prev, b);
        let r = join_with(split_on(s, a), b);
        if s.last() == a {
            assert(prev.push(Seq::<char>::empty()).drop_last() =~= prev);
            assert(r =~= r2 + seq![b]);
        } else {
            lemma_join_push_last(prev, s.last(), b);
            assert(r =~= r2.push(s.last()));
        }
        assert forall|i: int| 0 <= i < s.len() implies r[i] == (if s[i] == a {
            b
        } else {
            s[i]
        }) by {
            if i < s.len() - 1 {
                assert(r[i] == r2[i]);
                assert(s.drop_last()[i] == s[i]);
            }
        }
    }
}

/// Splits `text` on `sep`, keeping empty pieces.
pub(crate) fn split_text<'b>(text: &'b str, sep: char) -> (r: Vec<&'b str>)
    ensures
        r.deep_view() == split_on(text@, sep),
{
    let n = text.unicode_len();
    let mut parts: Vec<&'b str> = Vec::new();
    let mut start: usize = 0;
    let mut i: usize = 0;
    proof {
        assert(split_on(text@.take(0), sep) =~~= parts.deep_view().push(text@.subrange(0, 0)));
    }
    while i < n
        invariant
            n == text@.len(),
            0 <= start <= i <= n,
            split_on(text@.take(i as int), sep) == parts.deep_view().push(
                text@.subrange(start as int, i as int),
            ),
        decreases n - i,
    {
        let ghost t = text@;
        let ghost old_parts = parts.deep_view();
        let ghost cur = t.subrange(start as int, i as int);
        proof {
            assert(t.take(i as int + 1).drop_last() =~= t.take(i as int));
            assert(t.take(i as int + 1).last() == t[i as int]);
        }
        let c = text.get_char(i);
        if c == sep {
            parts.push(text.substring_char(start, i));
            start = i + 1;
            proof {
                assert(parts.deep_view() =~= old_parts.push(cur));
                assert(split_on(t.take(i as int + 1), sep) =~~= parts.deep_view().push(
                    t.subrange(i as int + 1, i as int + 1),
                ));
            }
        } else {
            proof {
                let prev = split_on(t.take(i as int), sep);
                lemma_split_on_len(t.take(i as int), sep);
                assert(prev.last() == cur);
                assert(prev.update(prev.len() - 1, prev.last().push(t[i as int])) =~= old_parts.push(
                    cur.push(t[i as int]),
                ));
                assert(cur.push(t[i as int]) =~= t.subrange(start as int, i as int + 1));
            }
        }
        i += 1;
    }
    proof {
        assert(text@.take(n as int) =~= text@);
    }
    parts.push(text.substring_char(start, n));
    proof {
        assert(parts.deep_view() =~= split_on(text@, sep));
    }
    parts
}

/// The first position at or after `start` that does not hold a lowercase
/// letter, or the end of `text`.
pub(crate) fn lower_run_end_from(text: &str, start: usize) -> (r: usize)
    requires
        start as int <= text@.len(),
    ensures
        r as int == lower_run_end(text@, start as int),
        start <= r <= text@.len(),
{
    let n = text.unicode_len();
    let mut j = start;
    while j < n
        invariant
            n == text@.len(),
            start <= j <= n,
            forall|t: int| start <= t < j ==> is_lower(#[trigger] text@[t]),
        decreases n - j,
    {
        if !is_lower_char(text.get_char(j)) {
            proof {
                lemma_lower_run_end_is(text@, start as int, j as int);
            }
            return j;
        }
        j += 1;
    }
    proof {
        lemma_lower_run_end_is(text@, start as int, n as int);
    }
    n
}

/// The camel groups of `text`, left to right.
pub(crate) fn camel_pieces_text<'b>(text: &'b str) -> (r: Vec<&'b str>)
    ensures
        r.deep_view() == camel_pieces(text@),
{
    let n = text.unicode_len();
    let mut parts: Vec<&'b str> = Vec::new();
    let mut i: usize = 0;
    proof {
        assert(camel_pieces(text@) =~= parts.deep_view() + camel_pieces_from(text@, 0));
    }
    while i < n
        invariant
            n == text@.len(),
            0 <= i <= n,
            camel_pieces(text@) == parts.deep_view() + camel_pieces_from(text@, i as int),
        decreases n - i,
    {
        let ghost t = text@;
        let ghost old_parts = parts.deep_view();
        let c = text.get_char(i);
        if is_upper_char(c) {
            let j = lower_run_end_from(text, i + 1);
            parts.push(text.substring_char(i, j));
            proof {
                assert(parts.deep_view() =~= old_parts.push(t.subrange(i as int, j as int)));
                assert(camel_pieces_from(t, i as int) == seq![t.subrange(i as int, j as int)]
                    + camel_pieces_from(t, j as int));
                assert(old_parts + camel_pieces_from(t, i as int) =~= parts.deep_view()
                    + camel_pieces_from(t, j as int));
            }
            i = j;
        } else {
            proof {
                assert(camel_pieces_from(t, i as int) == camel_pieces_from(t, i as int + 1));
            }
            i += 1;
        }
    }
    proof {
        assert(camel_pieces_from(text@, n as int) =~= Seq::<Seq<char>>::empty());
        assert(parts.deep_view() + camel_pieces_from(text@, n as int) =~= parts.deep_view());
    }
    parts
}

/// Joins the pieces with `sep` between each adjacent pair.
pub(crate) fn join_parts(parts: &Vec<&str>, sep: char) -> (r: String)
    ensures
        r@ == join_with(parts.deep_view(), sep),
{
    let mut out = String::new();
    if parts.len() == 0 {
        return out;
    }
    out.append(parts[0]);
    proof {
        assert(out@ =~= join_with(parts.deep_view().take(1), sep));
    }
    let mut idx: usize = 1;
    while idx < parts.len()
        invariant
            1 <= idx <= parts@.len(),
            out@ == join_with(parts.deep_view().take(idx as int), sep),
        decreases parts@.len() - idx,
    {
        let ghost dv = parts.deep_view();
        push_char(&mut out, sep);
        out.append(parts[idx]);
        proof {
            assert(dv.take(idx as int + 1).drop_last() =~= dv.take(idx as int));
            assert(dv.take(idx as int + 1).last() == dv[idx as int]);
            assert(out@ =~= join_with(dv.take(idx as int), sep) + seq![sep] + dv[idx as int]);
        }
        idx += 1;
    }
    proof {
        assert(parts.deep_view().take(parts@.len() as int) =~= parts.deep_view());
    }
    out
}

/// Capitalizes every piece and concatenates them with no separator.
pub(crate) fn camel_join_parts(parts: &Vec<&str>) -> (r: String)
    ensures
        r@ == camel_join(parts.deep_view()),
{
    let mut out = String::new();
    let mut idx: usize = 0;
    proof {
        assert(out@ =~= camel_join(parts.deep_view().take(0)));
    }
    while idx < parts.len()
        invariant
            0 <= idx <= parts@.len(),
            out@ == camel_join(parts.deep_view().take(idx as int)),
        decreases parts@.len() - idx,
    {
        let ghost dv = parts.deep_view();
        let piece: &str = parts[idx];
        let m = piece.unicode_len();
        if m > 0 {
            let first = upper_char(piece.get_char(0));
            push_char(&mut out, first);
            out.append(piece.substring_char(1, m));
            proof {
                assert(piece@.subrange(1, m as int) =~= piece@.skip(1));
                assert(capitalize(dv[idx as int]) =~= seq![to_upper(piece@[0])] + piece@.skip(1));
            }
        } else {
            proof {
                assert(capitalize(dv[idx as int]) =~= Seq::<char>::empty());
            }
        }
        proof {
            assert(dv.take(idx as int + 1).drop_last() =~= dv.take(idx as int));
            assert(dv.take(idx as int + 1).last() == dv[idx as int]);
            assert(out@ =~= camel_join(dv.take(idx as int)) + capitalize(dv[idx as int]));
        }
        idx += 1;
    }
    proof {
        assert(parts.deep_view().take(parts@.len() as int) =~= parts.deep_view());
    }
    out
}

/// ASCII lowercasing of a whole string.
pub(crate) fn lower_string(text: &str) -> (r: String)
    ensures
        r@ == lower_all(text@),
{
    let n = text.unicode_len();
    let mut out = String::new();
    let mut i: usize = 0;
    proof {
        assert(out@ =~= lower_all(text@.take(0)));
    }
    while i < n
        invariant
            n == text@.len(),
            0 <= i <= n,
            out@ == lower_all(text@.take(i as int)),
        decreases n - i,
    {
        let c = lower_char(text.get_char(i));
        push_char(&mut out, c);
        proof {
            assert(lower_all(text@.take(i as int + 1)) =~= lower_all(text@.take(i as int)).push(
                to_lower(text@[i as int]),
            ));
        }
        i += 1;
    }
    proof {
        assert(text@.take(n as int) =~= text@);
    }
    out
}

} // verus!
