//! Character classes and maximal runs of a class.

use vstd::prelude::*;

verus! {

/// Characters allowed in method names, path segments, query keys and values,
/// and header names: ASCII letters, digits, `-` and `_`. The dot is not one of them.
pub open spec fn is_token_char(c: char) -> bool {
    ('A' <= c && c <= 'Z') || ('a' <= c && c <= 'z') || ('0' <= c && c <= '9') || c == '-' || c
        == '_'
}

/// ASCII letters.
pub open spec fn is_alpha_char(c: char) -> bool {
    ('A' <= c && c <= 'Z') || ('a' <= c && c <= 'z')
}

/// Characters of a fragment: everything up to the end of the target, which is
/// a space or the end of the line.
pub open spec fn is_fragment_char(c: char) -> bool {
    c != ' ' && c != '\r' && c != '\n'
}

/// A class of characters that a run is taken from.
#[derive(Clone, Copy, Debug, PartialEq, Eq, Structural)]
pub enum CharClass {
    /// [`is_token_char`].
    Token,
    /// [`is_alpha_char`].
    Alpha,
    /// [`is_fragment_char`].
    Fragment,
    /// Everything but the line feed.
    Line,
}

/// Whether `c` belongs to `class`.
pub open spec fn in_class(class: CharClass, c: char) -> bool {
    match class {
        CharClass::Token => is_token_char(c),
        CharClass::Alpha => is_alpha_char(c),
        CharClass::Fragment => is_fragment_char(c),
        CharClass::Line => c != '\n',
    }
}

/// Length of the longest run of characters of `class` that starts at `pos`.
pub open spec fn run_len(s: Seq<char>, class: CharClass, pos: int) -> nat
    decreases s.len() - pos,
{
    if 0 <= pos < s.len() && in_class(class, s[pos]) {
        1 + run_len(s, class, pos + 1)
    } else {
        0
    }
}

/// Position at which the longest run of `class` from `pos` ends.
pub open spec fn run_end(s: Seq<char>, class: CharClass, pos: int) -> int {
    pos + run_len(s, class, pos)
}

/// Every character of `t` belongs to `class`.
pub open spec fn all_in_class(t: Seq<char>, class: CharClass) -> bool {
    forall|i: int| 0 <= i < t.len() ==> in_class(class, #[trigger] t[i])
}

/// `t` is a token: a non-empty sequence of token characters.
pub open spec fn is_token(t: Seq<char>) -> bool {
    t.len() > 0 && all_in_class(t, CharClass::Token)
}

/// `s` holds the character `c` at `pos`.
pub open spec fn has_char_at(s: Seq<char>, pos: int, c: char) -> bool {
    0 <= pos < s.len() && s[pos] == c
}

/// `s` holds the text `t` from `pos` on.
pub open spec fn has_text_at(s: Seq<char>, pos: int, t: Seq<char>) -> bool {
    0 <= pos && pos + t.len() <= s.len() && s.subrange(pos, pos + t.len()) == t
}

/// A run ends inside the text, on its first character outside the class or at the end.
pub proof fn lemma_run_end_bounds(s: Seq<char>, class: CharClass, pos: int)
    requires
        0 <= pos <= s.len(),
    ensures
        pos <= run_end(s, class, pos) <= s.len(),
        forall|k: int| pos <= k < run_end(s, class, pos) ==> in_class(class, #[trigger] s[k]),
        run_end(s, class, pos) < s.len() ==> !in_class(class, s[run_end(s, class, pos)]),
    decreases s.len() - pos,
{
    if pos < s.len() && in_class(class, s[pos]) {
        lemma_run_end_bounds(s, class, pos + 1);
    }
}

/// The run from `pos` ends at `end` when everything before `end` is in the
/// class and `end` is the end of the text or holds a character outside it.
pub proof fn lemma_run_end_is(s: Seq<char>, class: CharClass, pos: int, end: int)
    requires
        0 <= pos <= end <= s.len(),
        forall|k: int| pos <= k < end ==> in_class(class, #[trigger] s[k]),
        end < s.len() ==> !in_class(class, s[end]),
    ensures
        run_end(s, class, pos) == end,
    decreases end - pos,
{
    if pos < end {
        lemma_run_end_is(s, class, pos + 1, end);
    }
}

/// A text that stands at `pos` stands there character by character.
pub proof fn lemma_text_char(s: Seq<char>, pos: int, t: Seq<char>, i: int)
    requires
        has_text_at(s, pos, t),
        0 <= i < t.len(),
    ensures
        0 <= pos + i < s.len(),
        s[pos + i] == t[i],
{
    assert(s.subrange(pos, pos + t.len())[i] == s[pos + i]);
}

/// Where two texts stand one after the other, each of them stands at its place.
pub proof fn lemma_text_split(s: Seq<char>, pos: int, a: Seq<char>, b: Seq<char>)
    requires
        has_text_at(s, pos, a + b),
    ensures
        has_text_at(s, pos, a),
        has_text_at(s, pos + a.len(), b),
{
    let whole = s.subrange(pos, pos + (a + b).len());
    assert(whole == a + b);
    assert(s.subrange(pos, pos + a.len()) =~= whole.subrange(0, a.len() as int));
    assert(whole.subrange(0, a.len() as int) =~= a);
    assert(s.subrange(pos + a.len(), pos + a.len() + b.len()) =~= whole.subrange(
        a.len() as int,
        whole.len() as int,
    ));
    assert(whole.subrange(a.len() as int, whole.len() as int) =~= b);
}

/// A text of one class that is followed by a character outside the class, or
/// by the end, is the run from its start.
pub proof fn lemma_run_over_text(s: Seq<char>, class: CharClass, pos: int, t: Seq<char>)
    requires
        has_text_at(s, pos, t),
        all_in_class(t, class),
        pos + t.len() < s.len() ==> !in_class(class, s[pos + t.len()]),
    ensures
        run_end(s, class, pos) == pos + t.len(),
{
    assert forall|k: int| pos <= k < pos + t.len() implies in_class(class, #[trigger] s[k]) by {
        lemma_text_char(s, pos, t, k - pos);
    }
    lemma_run_end_is(s, class, pos, pos + t.len());
}

} // verus!
