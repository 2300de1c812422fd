//! POSIX shell quoting for the words spliced into a tmux launch script.
use vstd::prelude::*;
use crate::text::{chars_of, push_all, string_of};

verus! {

/// The body of a single-quoted word: every `'` becomes `'\''`.
pub open spec fn quote_body(s: Seq<char>) -> Seq<char>
    decreases s.len(),
{
    if s.len() == 0 {
        Seq::empty()
    } else {
        quote_body(s.drop_last()) + quote_char(s.last())
    }
}

/// How one character is written inside single quotes.
pub open spec fn quote_char(c: char) -> Seq<char> {
    if c == '\'' {
        seq!['\'', '\\', '\'', '\'']
    } else {
        seq![c]
    }
}

/// `s` as one single-quoted shell word: `'…'` with each `'` written `'\''`.
pub open spec fn single_quoted(s: Seq<char>) -> Seq<char> {
    seq!['\''] + quote_body(s) + seq!['\'']
}

/// A character that may stand bare in a shell word: ASCII alphanumerics and
/// `_ - . / = : , @ +`.
pub open spec fn is_bare_char(c: char) -> bool {
    ||| ('a' <= c && c <= 'z')
    ||| ('A' <= c && c <= 'Z')
    ||| ('0' <= c && c <= '9')
    ||| c == '_'
    ||| c == '-'
    ||| c == '.'
    ||| c == '/'
    ||| c == '='
    ||| c == ':'
    ||| c == ','
    ||| c == '@'
    ||| c == '+'
}

/// A word that needs no quoting: non-empty and made only of bare characters.
pub open spec fn is_bare_word(s: Seq<char>) -> bool {
    s.len() > 0 && forall|i: int| 0 <= i < s.len() ==> is_bare_char(#[trigger] s[i])
}

/// A shell word for `s`: bare when safe, single-quoted otherwise.
pub open spec fn quoted_arg(s: Seq<char>) -> Seq<char> {
    if is_bare_word(s) {
        s
    } else {
        single_quoted(s)
    }
}

/// Appends `s` single-quoted.
pub fn push_single_quoted(out: &mut Vec<char>, s: &[char])
    ensures
        final(out)@ == old(out)@ + single_quoted(s@),
{
    out.push('\'');
    let mut i: usize = 0;
    while i < s.len()
        invariant
            i <= s.len(),
            out@ == old(out)@ + seq!['\''] + quote_body(s@.subrange(0, i as int)),
        decreases s.len() - i,
    {
        let ghost before = out@;
        if s[i] == '\'' {
            out.push('\'');
            out.push('\\');
            out.push('\'');
            out.push('\'');
        } else {
            out.push(s[i]);
        }
        proof {
            let next = s@.subrange(0, i + 1);
            assert(next.drop_last() == s@.subrange(0, i as int));
            assert(next.last() == s@[i as int]);
            assert(out@ == before + quote_char(s@[i as int]));
        }
        i += 1;
    }
    out.push('\'');
    assert(s@.subrange(0, s@.len() as int) == s@);
}

/// `s` as a single-quoted shell word.
pub fn sh_single_quote(s: &str) -> (r: String)
    ensures
        r@ == single_quoted(s@),
{
    let cs = chars_of(s);
    let mut out: Vec<char> = Vec::new();
    push_single_quoted(&mut out, &cs);
    assert(out@ == Seq::<char>::empty() + single_quoted(s@));
    string_of(&out)
}

/// Whether `c` may stand bare.
fn is_bare_char_exec(c: char) -> (r: bool)
    ensures
        r == is_bare_char(c),
{
    ('a' <= c && c <= 'z') || ('A' <= c && c <= 'Z') || ('0' <= c && c <= '9') || c == '_' || c
        == '-' || c == '.' || c == '/' || c == '=' || c == ':' || c == ',' || c == '@' || c == '+'
}

/// Whether `s` may stand bare.
pub fn is_bare_word_exec(s: &[char]) -> (r: bool)
    ensures
        r == is_bare_word(s@),
{
    if s.len() == 0 {
        return false;
    }
    let mut i: usize = 0;
    while i < s.len()
        invariant
            i <= s.len(),
            forall|j: int| 0 <= j < i ==> is_bare_char(s@[j]),
        decreases s.len() - i,
    {
        if !is_bare_char_exec(s[i]) {
            return false;
        }
        i += 1;
    }
    true
}

/// Appends `s` as a shell word, quoting it only when needed.
pub fn push_quoted_arg(out: &mut Vec<char>, s: &[char])
    ensures
        final(out)@ == old(out)@ + quoted_arg(s@),
{
    if is_bare_word_exec(s) {
        push_all(out, s);
    } else {
        push_single_quoted(out, s);
    }
}

/// `s` as a shell word, single-quoted only when it holds a character that is
/// not safe bare.
pub fn sh_quote_arg(s: &str) -> (r: String)
    ensures
        r@ == quoted_arg(s@),
{
    let cs = chars_of(s);
    let mut out: Vec<char> = Vec::new();
    push_quoted_arg(&mut out, &cs);
    assert(out@ == Seq::<char>::empty() + quoted_arg(s@));
    string_of(&out)
}

} // verus!
