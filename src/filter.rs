//! Escaping of untrusted text for embedding in a directory search filter (RFC 4515).
use vstd::prelude::*;

verus! {

/// The characters that carry meaning inside a search filter.
pub open spec fn is_special(c: char) -> bool {
    c == '\\' || c == '*' || c == '(' || c == ')' || c == '\0'
}

/// The two lowercase hex digits that encode a special character.
pub open spec fn is_hex_digit(c: char) -> bool {
    ('0' <= c && c <= '9') || ('a' <= c && c <= 'f')
}

/// What one character of the input becomes in the escaped text.
pub open spec fn escape_char(c: char) -> Seq<char> {
    if c == '\\' {
        seq!['\\', '5', 'c']
    } else if c == '*' {
        seq!['\\', '2', 'a']
    } else if c == '(' {
        seq!['\\', '2', '8']
    } else if c == ')' {
        seq!['\\', '2', '9']
    } else if c == '\0' {
        seq!['\\', '0', '0']
    } else {
        seq![c]
    }
}

/// The escaped form of a whole string: each character replaced by its escape.
pub open spec fn escaped(s: Seq<char>) -> Seq<char>
    decreases s.len(),
{
    if s.len() == 0 {
        Seq::empty()
    } else {
        escaped(s.drop_last()) + escape_char(s.last())
    }
}

/// Text in which no filter metacharacter stands unescaped: `*`, `(`, `)` and NUL
/// do not occur at all, and every backslash starts a two-hex-digit escape.
pub open spec fn is_filter_safe(t: Seq<char>) -> bool {
    forall|i: int|
        0 <= i < t.len() ==> {
            &&& #[trigger] t[i] != '*'
            &&& t[i] != '('
            &&& t[i] != ')'
            &&& t[i] != '\0'
            &&& t[i] == '\\' ==> (i + 2 < t.len() && is_hex_digit(t[i + 1]) && is_hex_digit(t[i + 2]))
        }
}

/// Escaped text holds no unescaped metacharacter: `*`, `(`, `)` and NUL are gone,
/// and each backslash opens a two-hex-digit escape.
pub proof fn lemma_escaped_is_safe(s: Seq<char>)
    ensures
        is_filter_safe(escaped(s)),
    decreases s.len(),
{
    if s.len() > 0 {
        lemma_escaped_is_safe(s.drop_last());
        let p = escaped(s.drop_last());
        let e = escape_char(s.last());
        let t = p + e;
        assert forall|i: int| 0 <= i < t.len() implies {
            &&& #[trigger] t[i] != '*'
            &&& t[i] != '('
            &&& t[i] != ')'
            &&& t[i] != '\0'
            &&& t[i] == '\\' ==> (i + 2 < t.len() && is_hex_digit(t[i + 1]) && is_hex_digit(t[i + 2]))
        } by {
            if i < p.len() {
                assert(t[i] == p[i]);
                if t[i] == '\\' {
                    assert(t[i + 1] == p[i + 1]);
                    assert(t[i + 2] == p[i + 2]);
                }
            }
        }
    }
}

/// Text without any metacharacter is left exactly as it is.
pub proof fn lemma_escape_plain_is_identity(s: Seq<char>)
    requires
        forall|i: int| 0 <= i < s.len() ==> !is_special(#[trigger] s[i]),
    ensures
        escaped(s) == s,
    decreases s.len(),
{
    if s.len() > 0 {
        lemma_escape_plain_is_identity(s.drop_last());
        assert(!is_special(s[s.len() - 1]));
        assert(s.drop_last() + seq![s.last()] =~= s);
    }
}

} // verus!
