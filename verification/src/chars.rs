//! Character classes of the Bloom grammar, and the longest run of a class at
//! the front of a text.

use vstd::prelude::*;

verus! {

/// An ASCII letter.
pub open spec fn is_alpha(c: char) -> bool {
    ('a' <= c && c <= 'z') || ('A' <= c && c <= 'Z')
}

/// An ASCII decimal digit.
pub open spec fn is_digit(c: char) -> bool {
    '0' <= c && c <= '9'
}

/// An ASCII letter or decimal digit.
pub open spec fn is_alphanumeric(c: char) -> bool {
    is_alpha(c) || is_digit(c)
}

/// A character that may follow the first one of an identifier.
pub open spec fn is_ident_char(c: char) -> bool {
    is_alphanumeric(c) || c == '_'
}

/// Insignificant whitespace: space, tab, line feed, carriage return.
pub open spec fn is_space(c: char) -> bool {
    c == ' ' || c == '\t' || c == '\n' || c == '\r'
}

/// The class of identifier characters, as a predicate value.
pub open spec fn ident_class() -> spec_fn(char) -> bool {
    |c: char| is_ident_char(c)
}

/// The class of whitespace characters, as a predicate value.
pub open spec fn space_class() -> spec_fn(char) -> bool {
    |c: char| is_space(c)
}

/// Every character of `s` is in `class`.
pub open spec fn all_in(s: Seq<char>, class: spec_fn(char) -> bool) -> bool {
    forall|i: int| 0 <= i < s.len() ==> class(#[trigger] s[i])
}

/// `s` is empty or begins with a character outside `class`.
pub open spec fn stops(s: Seq<char>, class: spec_fn(char) -> bool) -> bool {
    s.len() > 0 ==> !class(s[0])
}

/// The number of characters at the front of `s` that are all in `class`.
pub open spec fn span(s: Seq<char>, class: spec_fn(char) -> bool) -> nat
    decreases s.len(),
{
    if s.len() > 0 && class(s[0]) {
        1 + span(s.drop_first(), class)
    } else {
        0
    }
}

/// `s` matches `[A-Za-z][A-Za-z0-9_]*`.
pub open spec fn is_identifier(s: Seq<char>) -> bool {
    &&& s.len() > 0
    &&& is_alpha(s[0])
    &&& all_in(s, ident_class())
}

/// `span` splits `s` into a run inside the class and a rest that stops it.
pub proof fn lemma_span_splits(s: Seq<char>, class: spec_fn(char) -> bool)
    ensures
        span(s, class) <= s.len(),
        all_in(s.take(span(s, class) as int), class),
        stops(s.skip(span(s, class) as int), class),
    decreases s.len(),
{
    if s.len() > 0 && class(s[0]) {
        let t = s.drop_first();
        lemma_span_splits(t, class);
        let n = span(t, class) as int;
        assert forall|i: int| 0 <= i < n + 1 implies class(#[trigger] s.take(n + 1)[i]) by {
            if i > 0 {
                assert(s.take(n + 1)[i] == t.take(n)[i - 1]);
            }
        }
        assert(s.skip(n + 1) =~= t.skip(n));
    } else {
        assert(s.skip(0) =~= s);
    }
}

/// A split of `s` into a run inside the class and a rest that stops it is
/// the one that `span` finds.
pub proof fn lemma_span_unique(s: Seq<char>, class: spec_fn(char) -> bool, n: int)
    requires
        0 <= n <= s.len(),
        all_in(s.take(n), class),
        stops(s.skip(n), class),
    ensures
        span(s, class) == n,
    decreases s.len(),
{
    if n == 0 {
        assert(s.len() > 0 ==> s.skip(0)[0] == s[0]);
    } else {
        assert(s.take(n)[0] == s[0]);
        let t = s.drop_first();
        assert forall|i: int| 0 <= i < n - 1 implies class(#[trigger] t.take(n - 1)[i]) by {
            assert(t.take(n - 1)[i] == s.take(n)[i + 1]);
        }
        assert(t.skip(n - 1) =~= s.skip(n));
        lemma_span_unique(t, class, n - 1);
    }
}

} // verus!
