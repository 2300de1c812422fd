//! Character-level text primitives shared by the whole crate: conversion
//! between `str`/`String` and character vectors, prefix/suffix/substring
//! search, decimal rendering of integers and decimal parsing, all with their
//! specifications over `Seq<char>`.
use vstd::prelude::*;

verus! {

broadcast use vstd::string::group_string_axioms;

// ───────────────────────────── specifications ─────────────────────────────

/// `p` is a prefix of `s`.
pub open spec fn has_prefix(s: Seq<char>, p: Seq<char>) -> bool {
    p.len() <= s.len() && s.subrange(0, p.len() as int) == p
}

/// `p` is a suffix of `s`.
pub open spec fn has_suffix(s: Seq<char>, p: Seq<char>) -> bool {
    p.len() <= s.len() && s.subrange(s.len() - p.len(), s.len() as int) == p
}

/// `p` occurs in `s` starting at index `i`.
pub open spec fn occurs_at(s: Seq<char>, p: Seq<char>, i: int) -> bool {
    0 <= i && i + p.len() <= s.len() && s.subrange(i, i + p.len()) == p
}

/// `p` occurs somewhere in `s` (the empty pattern occurs everywhere).
pub open spec fn contains_text(s: Seq<char>, p: Seq<char>) -> bool {
    exists|i: int| occurs_at(s, p, i)
}

/// `s` with the prefix `p` removed (meaningful when `has_prefix(s, p)`).
pub open spec fn after_prefix(s: Seq<char>, p: Seq<char>) -> Seq<char> {
    s.subrange(p.len() as int, s.len() as int)
}

/// `s` with the suffix `p` removed (meaningful when `has_suffix(s, p)`).
pub open spec fn before_suffix(s: Seq<char>, p: Seq<char>) -> Seq<char> {
    s.subrange(0, s.len() - p.len())
}

/// The last index at which `p` occurs in `s`, if any.
pub open spec fn last_occurrence(s: Seq<char>, p: Seq<char>) -> Option<int> {
    if exists|i: int| occurs_at(s, p, i) {
        Some(choose|i: int| occurs_at(s, p, i) && forall|j: int| occurs_at(s, p, j) ==> j <= i)
    } else {
        None
    }
}

/// The first index at which `p` occurs in `s`, if any.
pub open spec fn first_occurrence(s: Seq<char>, p: Seq<char>) -> Option<int> {
    if exists|i: int| occurs_at(s, p, i) {
        Some(choose|i: int| occurs_at(s, p, i) && forall|j: int| occurs_at(s, p, j) ==> i <= j)
    } else {
        None
    }
}

/// The index of the first `c` in `s`, or `s.len()` when `c` does not occur.
pub open spec fn char_index(s: Seq<char>, c: char) -> nat
    decreases s.len(),
{
    if s.len() == 0 {
        0
    } else if s[0] == c {
        0
    } else {
        1 + char_index(s.drop_first(), c)
    }
}

/// The first index at which the character `c` occurs in `s`, if any.
pub open spec fn first_char(s: Seq<char>, c: char) -> Option<int> {
    if char_index(s, c) < s.len() {
        Some(char_index(s, c) as int)
    } else {
        None
    }
}

/// An ASCII decimal digit.
pub open spec fn is_digit(c: char) -> bool {
    '0' <= c && c <= '9'
}

/// The value of an ASCII decimal digit.
pub open spec fn digit_value(c: char) -> int {
    c as int - '0' as int
}

/// Every character of `s` is an ASCII decimal digit.
pub open spec fn all_digits(s: Seq<char>) -> bool {
    forall|i: int| 0 <= i < s.len() ==> is_digit(#[trigger] s[i])
}

/// The number written by the decimal digits `s` (most significant first).
pub open spec fn digits_value(s: Seq<char>) -> nat
    decreases s.len(),
{
    if s.len() == 0 {
        0
    } else {
        (digits_value(s.drop_last()) * 10 + digit_value(s.last())) as nat
    }
}

/// The unsigned magnitude written after an optional `+`: at least one digit,
/// nothing else.
pub open spec fn unsigned_literal(s: Seq<char>) -> Option<nat> {
    let body = if s.len() > 0 && s[0] == '+' { s.drop_first() } else { s };
    if body.len() > 0 && all_digits(body) {
        Some(digits_value(body))
    } else {
        None
    }
}

/// The signed integer written as an optional `+`/`-` sign followed by at
/// least one decimal digit.
pub open spec fn signed_literal(s: Seq<char>) -> Option<int> {
    if s.len() > 0 && s[0] == '-' {
        let body = s.drop_first();
        if body.len() > 0 && all_digits(body) {
            Some(-(digits_value(body) as int))
        } else {
            None
        }
    } else {
        match unsigned_literal(s) {
            Some(n) => Some(n as int),
            None => None,
        }
    }
}

/// What `str::parse::<i64>` yields for `s`: the literal's value when it is
/// well formed and fits.
pub open spec fn parsed_i64(s: Seq<char>) -> Option<i64> {
    match signed_literal(s) {
        Some(v) => if i64::MIN <= v <= i64::MAX {
            Some(v as i64)
        } else {
            None
        },
        None => None,
    }
}

/// What `str::parse::<u32>` yields for `s`.
pub open spec fn parsed_u32(s: Seq<char>) -> Option<u32> {
    match unsigned_literal(s) {
        Some(v) => if v <= u32::MAX {
            Some(v as u32)
        } else {
            None
        },
        None => None,
    }
}

/// What `str::parse::<u64>` yields for `s`.
pub open spec fn parsed_u64(s: Seq<char>) -> Option<u64> {
    match unsigned_literal(s) {
        Some(v) => if v <= u64::MAX {
            Some(v as u64)
        } else {
            None
        },
        None => None,
    }
}

/// The ASCII digit for `d < 10`.
pub open spec fn digit_char(d: nat) -> char {
    ((d + '0' as nat) as u32) as char
}

/// The decimal rendering of a natural number, without leading zeros.
pub open spec fn nat_text(n: nat) -> Seq<char>
    decreases n,
{
    if n < 10 {
        seq![digit_char(n)]
    } else {
        nat_text(n / 10).push(digit_char(n % 10))
    }
}

/// The decimal rendering of an integer (`to_string` of an integer type).
pub open spec fn int_text(n: int) -> Seq<char> {
    if n < 0 {
        seq!['-'] + nat_text((-n) as nat)
    } else {
        nat_text(n as nat)
    }
}

/// The Unicode `White_Space` property, which is what `char::is_whitespace`
/// tests.
pub open spec fn is_space(c: char) -> bool {
    ||| ('\u{9}' <= c && c <= '\u{d}')
    ||| c == ' '
    ||| c == '\u{85}'
    ||| c == '\u{a0}'
    ||| c == '\u{1680}'
    ||| ('\u{2000}' <= c && c <= '\u{200a}')
    ||| c == '\u{2028}'
    ||| c == '\u{2029}'
    ||| c == '\u{202f}'
    ||| c == '\u{205f}'
    ||| c == '\u{3000}'
}

/// Every character of `s` is white space (true of the empty text).
pub open spec fn all_space(s: Seq<char>) -> bool {
    forall|i: int| 0 <= i < s.len() ==> is_space(#[trigger] s[i])
}

/// The number of leading white-space characters of `s`.
pub open spec fn leading_space(s: Seq<char>) -> nat
    decreases s.len(),
{
    if s.len() > 0 && is_space(s[0]) {
        1 + leading_space(s.drop_first())
    } else {
        0
    }
}

/// The number of trailing white-space characters of `s`.
pub open spec fn trailing_space(s: Seq<char>) -> nat
    decreases s.len(),
{
    if s.len() > 0 && is_space(s.last()) {
        1 + trailing_space(s.drop_last())
    } else {
        0
    }
}

/// `str::trim_start`.
pub open spec fn trim_start(s: Seq<char>) -> Seq<char> {
    s.subrange(leading_space(s) as int, s.len() as int)
}

/// `str::trim_end`.
pub open spec fn trim_end(s: Seq<char>) -> Seq<char> {
    s.subrange(0, s.len() - trailing_space(s))
}

/// `str::trim`.
pub open spec fn trim(s: Seq<char>) -> Seq<char> {
    trim_end(trim_start(s))
}

/// The pieces of `s` between the separator characters `sep` (`str::split`
/// with a character pattern): always at least one piece.
pub open spec fn split_on(s: Seq<char>, sep: char) -> Seq<Seq<char>>
    decreases s.len(),
{
    let i = char_index(s, sep) as int;
    if i < s.len() {
        proof {
            lemma_char_index(s, sep);
        }
        seq![s.subrange(0, i)] + split_on(s.subrange(i + 1, s.len() as int), sep)
    } else {
        seq![s]
    }
}

/// `str::lines`: the pieces between `\n`; a piece that ended with `\n`
/// also loses a trailing `\r`, and the empty piece after a final `\n` is not
/// a line.
pub open spec fn lines_of(s: Seq<char>) -> Seq<Seq<char>> {
    let pieces = split_on(s, '\n');
    let ended = pieces.drop_last().map_values(|l: Seq<char>| strip_cr(l));
    if pieces.last().len() == 0 {
        ended
    } else {
        ended.push(pieces.last())
    }
}

/// A line without its trailing carriage return.
pub open spec fn strip_cr(l: Seq<char>) -> Seq<char> {
    if l.len() > 0 && l.last() == '\r' {
        l.drop_last()
    } else {
        l
    }
}

// ──────────────────────────────── lemmas ────────────────────────────────

/// `char_index` finds the first occurrence, or reports absence with `s.len()`.
pub proof fn lemma_char_index(s: Seq<char>, c: char)
    ensures
        char_index(s, c) <= s.len(),
        char_index(s, c) < s.len() ==> s[char_index(s, c) as int] == c,
        forall|j: int| 0 <= j < char_index(s, c) ==> s[j] != c,
    decreases s.len(),
{
    if s.len() > 0 && s[0] != c {
        lemma_char_index(s.drop_first(), c);
        assert forall|j: int| 0 <= j < char_index(s, c) implies s[j] != c by {
            if j > 0 {
                assert(s[j] == s.drop_first()[j - 1]);
            }
        }
    }
}

/// A longer digit string never denotes a smaller number than its prefix.
pub proof fn lemma_digits_value_prefix(s: Seq<char>, k: int)
    requires
        0 <= k <= s.len(),
        all_digits(s),
    ensures
        digits_value(s.take(k)) <= digits_value(s),
    decreases s.len() - k,
{
    if k < s.len() {
        lemma_digits_value_prefix(s, k + 1);
        assert(s.take(k + 1).drop_last() == s.take(k));
        assert(is_digit(s[k]));
    } else {
        assert(s.take(k) == s);
    }
}

/// `nat_text` is never empty and is made of digits.
pub proof fn lemma_nat_text_digits(n: nat)
    ensures
        nat_text(n).len() >= 1,
        all_digits(nat_text(n)),
        nat_text(n)[0] != '-',
    decreases n,
{
    if n >= 10 {
        lemma_nat_text_digits(n / 10);
    }
}

// ──────────────────────────────── wrappers ────────────────────────────────

/// Appends one character to a `String` (`String::push`).
#[verifier::external_body]
pub(crate) fn push_char(s: &mut String, c: char)
    ensures
        final(s)@ == old(s)@.push(c),
{
    s.push(c);
}

// ─────────────────────────────── conversion ───────────────────────────────

/// The characters of `s`, in order.
pub fn chars_of(s: &str) -> (v: Vec<char>)
    ensures
        v@ == s@,
{
    let mut v: Vec<char> = Vec::new();
    for c in it: s.chars()
        invariant
            it.seq() == s@,
            v@ == s@.take(it.index()),
    {
        v.push(c);
    }
    v
}

/// A `String` holding exactly the characters of `v`.
pub fn string_of(v: &[char]) -> (s: String)
    ensures
        s@ == v@,
{
    let mut s = String::new();
    let mut i: usize = 0;
    while i < v.len()
        invariant
            i <= v.len(),
            s@ == v@.subrange(0, i as int),
        decreases v.len() - i,
    {
        push_char(&mut s, v[i]);
        assert(v@.subrange(0, i + 1) == v@.subrange(0, i as int).push(v@[i as int]));
        i += 1;
    }
    assert(v@.subrange(0, v@.len() as int) == v@);
    s
}

/// Appends all of `tail` to `out`.
pub fn push_all(out: &mut Vec<char>, tail: &[char])
    ensures
        final(out)@ == old(out)@ + tail@,
{
    let mut i: usize = 0;
    while i < tail.len()
        invariant
            i <= tail.len(),
            out@ == old(out)@ + tail@.subrange(0, i as int),
        decreases tail.len() - i,
    {
        out.push(tail[i]);
        assert(tail@.subrange(0, i + 1) == tail@.subrange(0, i as int).push(tail@[i as int]));
        i += 1;
    }
    assert(tail@.subrange(0, tail@.len() as int) == tail@);
}

/// Appends the characters of `tail` to `out`.
pub fn push_str(out: &mut Vec<char>, tail: &str)
    ensures
        final(out)@ == old(out)@ + tail@,
{
    let t = chars_of(tail);
    push_all(out, &t);
}

/// A fresh vector with the characters of `v[lo..hi]`.
pub fn slice_vec(v: &[char], lo: usize, hi: usize) -> (r: Vec<char>)
    requires
        lo <= hi <= v.len(),
    ensures
        r@ == v@.subrange(lo as int, hi as int),
{
    let mut r: Vec<char> = Vec::new();
    let mut i = lo;
    while i < hi
        invariant
            lo <= i <= hi <= v.len(),
            r@ == v@.subrange(lo as int, i as int),
        decreases hi - i,
    {
        r.push(v[i]);
        assert(v@.subrange(lo as int, i + 1) == v@.subrange(lo as int, i as int).push(v@[i as int]));
        i += 1;
    }
    r
}

/// A `String` of the characters `v[lo..hi]`.
pub fn string_of_range(v: &[char], lo: usize, hi: usize) -> (s: String)
    requires
        lo <= hi <= v.len(),
    ensures
        s@ == v@.subrange(lo as int, hi as int),
{
    let r = slice_vec(v, lo, hi);
    string_of(&r)
}

// ─────────────────────────────── comparison ───────────────────────────────

/// Whether `a` and `b` hold the same characters.
pub fn same_text(a: &[char], b: &[char]) -> (r: bool)
    ensures
        r == (a@ == b@),
{
    if a.len() != b.len() {
        return false;
    }
    let mut i: usize = 0;
    while i < a.len()
        invariant
            a.len() == b.len(),
            i <= a.len(),
            forall|j: int| 0 <= j < i ==> a@[j] == b@[j],
        decreases a.len() - i,
    {
        if a[i] != b[i] {
            return false;
        }
        i += 1;
    }
    assert(a@ =~= b@);
    true
}

/// Whether two string slices hold the same text.
pub fn str_eq(a: &str, b: &str) -> (r: bool)
    ensures
        r == (a@ == b@),
{
    same_text(&chars_of(a), &chars_of(b))
}

/// Lexicographic order on texts by code point: the order of `str`'s `Ord`
/// (byte order of UTF-8 agrees with code point order).
pub open spec fn text_lt(a: Seq<char>, b: Seq<char>) -> bool
    decreases a.len(),
{
    if a.len() == 0 {
        b.len() > 0
    } else if b.len() == 0 {
        false
    } else if a[0] != b[0] {
        (a[0] as int) < (b[0] as int)
    } else {
        text_lt(a.drop_first(), b.drop_first())
    }
}

/// No text comes before itself, and two texts are never each before the
/// other.
pub proof fn lemma_text_lt_asymmetric(a: Seq<char>, b: Seq<char>)
    ensures
        !(text_lt(a, b) && text_lt(b, a)),
        !text_lt(a, a),
    decreases a.len(),
{
    if a.len() > 0 && b.len() > 0 && a[0] == b[0] {
        lemma_text_lt_asymmetric(a.drop_first(), b.drop_first());
    }
    if a.len() > 0 {
        lemma_text_lt_asymmetric(a.drop_first(), a.drop_first());
    }
}

/// Of two different texts, one comes before the other.
pub proof fn lemma_text_lt_total(a: Seq<char>, b: Seq<char>)
    ensures
        text_lt(a, b) || a == b || text_lt(b, a),
    decreases a.len(),
{
    if a.len() == 0 && b.len() == 0 {
        assert(a =~= b);
    } else if a.len() > 0 && b.len() > 0 && a[0] == b[0] {
        lemma_text_lt_total(a.drop_first(), b.drop_first());
        if a.drop_first() == b.drop_first() {
            assert(a =~= seq![a[0]] + a.drop_first());
            assert(b =~= seq![b[0]] + b.drop_first());
        }
    } else if a.len() > 0 && b.len() > 0 {
        assert((a[0] as int) != (b[0] as int));
    }
}

/// The order is transitive.
pub proof fn lemma_text_lt_transitive(a: Seq<char>, b: Seq<char>, c: Seq<char>)
    requires
        text_lt(a, b),
        text_lt(b, c),
    ensures
        text_lt(a, c),
    decreases a.len(),
{
    if a.len() > 0 && b.len() > 0 && c.len() > 0 && a[0] == b[0] && b[0] == c[0] {
        lemma_text_lt_transitive(a.drop_first(), b.drop_first(), c.drop_first());
    }
}

/// Whether `a` comes before `b` in the order of [`text_lt`].
pub fn text_before(a: &[char], b: &[char]) -> (r: bool)
    ensures
        r == text_lt(a@, b@),
{
    let mut i: usize = 0;
    assert(a@.skip(0) == a@ && b@.skip(0) == b@);
    while i < a.len() && i < b.len()
        invariant
            i <= a@.len(),
            i <= b@.len(),
            text_lt(a@, b@) == text_lt(a@.skip(i as int), b@.skip(i as int)),
        decreases a.len() - i,
    {
        let ghost (sa, sb) = (a@.skip(i as int), b@.skip(i as int));
        assert(sa[0] == a@[i as int] && sb[0] == b@[i as int]);
        if a[i] != b[i] {
            return a[i] < b[i];
        }
        assert(sa.drop_first() =~= a@.skip(i + 1));
        assert(sb.drop_first() =~= b@.skip(i + 1));
        i += 1;
    }
    i == a.len() && i < b.len()
}

/// Whether `a` comes before `b`, as string slices.
pub fn str_before(a: &str, b: &str) -> (r: bool)
    ensures
        r == text_lt(a@, b@),
{
    text_before(&chars_of(a), &chars_of(b))
}

/// Whether `p` occurs in `s` at index `at`.
pub fn occurs_at_exec(s: &[char], p: &[char], at: usize) -> (r: bool)
    ensures
        r == occurs_at(s@, p@, at as int),
{
    if at > s.len() || p.len() > s.len() - at {
        return false;
    }
    let mut i: usize = 0;
    while i < p.len()
        invariant
            at + p.len() <= s.len(),
            i <= p.len(),
            forall|j: int| 0 <= j < i ==> s@[at + j] == p@[j],
        decreases p.len() - i,
    {
        if s[at + i] != p[i] {
            assert(s@.subrange(at as int, at + p.len())[i as int] != p@[i as int]);
            return false;
        }
        i += 1;
    }
    assert(s@.subrange(at as int, at + p.len()) =~= p@);
    true
}

/// Whether `s` starts with `p`.
pub fn starts_with(s: &[char], p: &[char]) -> (r: bool)
    ensures
        r == has_prefix(s@, p@),
{
    occurs_at_exec(s, p, 0)
}

/// Whether `s` ends with `p`.
pub fn ends_with(s: &[char], p: &[char]) -> (r: bool)
    ensures
        r == has_suffix(s@, p@),
{
    if p.len() > s.len() {
        return false;
    }
    occurs_at_exec(s, p, s.len() - p.len())
}

/// Whether `p` occurs anywhere in `s`.
pub fn contains(s: &[char], p: &[char]) -> (r: bool)
    ensures
        r == contains_text(s@, p@),
{
    match find(s, p) {
        Some(_) => true,
        None => false,
    }
}

/// The first index at which `p` occurs in `s`.
pub fn find(s: &[char], p: &[char]) -> (r: Option<usize>)
    ensures
        match r {
            Some(i) => occurs_at(s@, p@, i as int) && forall|j: int| occurs_at(s@, p@, j) ==> i <= j,
            None => forall|j: int| !occurs_at(s@, p@, j),
        },
        r matches Some(i) ==> first_occurrence(s@, p@) == Some(i as int),
        r is None ==> first_occurrence(s@, p@) is None,
{
    if p.len() > s.len() {
        return None;
    }
    if p.len() == 0 {
        assert(s@.subrange(0, 0) =~= p@);
        assert(occurs_at(s@, p@, 0));
        return Some(0);
    }
    let last = s.len() - p.len();
    let mut i: usize = 0;
    while i <= last
        invariant
            last + p.len() == s.len(),
            p.len() >= 1,
            i <= last + 1,
            forall|j: int| 0 <= j < i ==> !occurs_at(s@, p@, j),
        decreases last + 1 - i,
    {
        if occurs_at_exec(s, p, i) {
            proof {
                let w = choose|k: int| occurs_at(s@, p@, k) && forall|j: int| occurs_at(s@, p@, j) ==> k <= j;
                assert(occurs_at(s@, p@, w) && forall|j: int| occurs_at(s@, p@, j) ==> w <= j) by {
                    assert(occurs_at(s@, p@, i as int) && forall|j: int| occurs_at(s@, p@, j) ==> i <= j);
                }
            }
            return Some(i);
        }
        i += 1;
    }
    None
}

/// The last index at which `p` occurs in `s`.
pub fn rfind(s: &[char], p: &[char]) -> (r: Option<usize>)
    ensures
        match r {
            Some(i) => occurs_at(s@, p@, i as int) && forall|j: int| occurs_at(s@, p@, j) ==> j <= i,
            None => forall|j: int| !occurs_at(s@, p@, j),
        },
        r matches Some(i) ==> last_occurrence(s@, p@) == Some(i as int),
        r is None ==> last_occurrence(s@, p@) is None,
{
    if p.len() > s.len() {
        return None;
    }
    if p.len() == 0 {
        assert(s@.subrange(s@.len() as int, s@.len() as int) =~= p@);
        assert(occurs_at(s@, p@, s@.len() as int));
        return Some(s.len());
    }
    let mut i: usize = s.len() - p.len() + 1;
    while i > 0
        invariant
            i <= s.len() - p.len() + 1,
            p.len() <= s.len(),
            forall|j: int| i <= j ==> !occurs_at(s@, p@, j),
        decreases i,
    {
        i -= 1;
        if occurs_at_exec(s, p, i) {
            proof {
                let w = choose|k: int| occurs_at(s@, p@, k) && forall|j: int| occurs_at(s@, p@, j) ==> j <= k;
                assert(occurs_at(s@, p@, w) && forall|j: int| occurs_at(s@, p@, j) ==> j <= w) by {
                    assert(occurs_at(s@, p@, i as int) && forall|j: int| occurs_at(s@, p@, j) ==> j <= i);
                }
            }
            return Some(i);
        }
    }
    None
}

/// The first index of the character `c` in `s`.
pub fn find_char(s: &[char], c: char) -> (r: Option<usize>)
    ensures
        r matches Some(i) ==> first_char(s@, c) == Some(i as int) && i < s.len() && s@[i as int] == c,
        r is None ==> first_char(s@, c) is None,
        r is None ==> forall|j: int| 0 <= j < s@.len() ==> s@[j] != c,
{
    assert(s@.subrange(0, s@.len() as int) == s@);
    let mut i: usize = 0;
    while i < s.len()
        invariant
            i <= s.len(),
            char_index(s@, c) == i + char_index(s@.subrange(i as int, s@.len() as int), c),
        decreases s.len() - i,
    {
        proof {
            let rest = s@.subrange(i as int, s@.len() as int);
            assert(rest[0] == s@[i as int]);
            assert(rest.drop_first() == s@.subrange(i + 1, s@.len() as int));
        }
        if s[i] == c {
            return Some(i);
        }
        i += 1;
    }
    proof {
        lemma_char_index(s@, c);
    }
    None
}

/// Whether the character `c` occurs in `s`.
pub fn has_char(s: &[char], c: char) -> (r: bool)
    ensures
        r == s@.contains(c),
        r == (first_char(s@, c) is Some),
{
    match find_char(s, c) {
        Some(i) => {
            assert(s@[i as int] == c);
            true
        },
        None => {
            assert(!s@.contains(c));
            false
        },
    }
}

/// `char::is_whitespace`.
pub fn is_space_exec(c: char) -> (r: bool)
    ensures
        r == is_space(c),
{
    ('\u{9}' <= c && c <= '\u{d}') || c == ' ' || c == '\u{85}' || c == '\u{a0}' || c == '\u{1680}'
        || ('\u{2000}' <= c && c <= '\u{200a}') || c == '\u{2028}' || c == '\u{2029}' || c
        == '\u{202f}' || c == '\u{205f}' || c == '\u{3000}'
}

/// Whether every character of `s` is white space.
pub fn is_blank(s: &[char]) -> (r: bool)
    ensures
        r == all_space(s@),
{
    let mut i: usize = 0;
    while i < s.len()
        invariant
            i <= s.len(),
            forall|j: int| 0 <= j < i ==> is_space(s@[j]),
        decreases s.len() - i,
    {
        if !is_space_exec(s[i]) {
            return false;
        }
        i += 1;
    }
    true
}

/// The number of leading white-space characters.
pub fn leading_space_exec(s: &[char]) -> (n: usize)
    ensures
        n == leading_space(s@),
        n <= s.len(),
{
    assert(s@.subrange(0, s@.len() as int) == s@);
    let mut i: usize = 0;
    while i < s.len() && is_space_exec(s[i])
        invariant
            i <= s.len(),
            leading_space(s@) == i + leading_space(s@.subrange(i as int, s@.len() as int)),
        decreases s.len() - i,
    {
        proof {
            let rest = s@.subrange(i as int, s@.len() as int);
            assert(rest.drop_first() == s@.subrange(i + 1, s@.len() as int));
        }
        i += 1;
    }
    proof {
        let rest = s@.subrange(i as int, s@.len() as int);
        if rest.len() > 0 {
            assert(rest[0] == s@[i as int]);
        }
    }
    i
}

/// The number of trailing white-space characters.
pub fn trailing_space_exec(s: &[char]) -> (n: usize)
    ensures
        n == trailing_space(s@),
        n <= s.len(),
{
    assert(s@.subrange(0, s@.len() as int) == s@);
    let mut i: usize = s.len();
    while i > 0 && is_space_exec(s[i - 1])
        invariant
            i <= s.len(),
            trailing_space(s@) == (s.len() - i) + trailing_space(s@.subrange(0, i as int)),
        decreases i,
    {
        proof {
            let rest = s@.subrange(0, i as int);
            assert(rest.drop_last() == s@.subrange(0, i - 1));
        }
        i -= 1;
    }
    proof {
        let rest = s@.subrange(0, i as int);
        if rest.len() > 0 {
            assert(rest.last() == s@[i - 1]);
        }
    }
    s.len() - i
}

/// `str::trim_start`, on characters.
pub fn trim_start_exec(s: &[char]) -> (r: Vec<char>)
    ensures
        r@ == trim_start(s@),
{
    let n = leading_space_exec(s);
    slice_vec(s, n, s.len())
}

/// `str::trim`, on characters.
pub fn trim_exec(s: &[char]) -> (r: Vec<char>)
    ensures
        r@ == trim(s@),
{
    let t = trim_start_exec(s);
    let n = trailing_space_exec(&t);
    slice_vec(&t, 0, t.len() - n)
}

// ──────────────────────────────── splitting ────────────────────────────────

/// `str::split` on a character: the pieces between the separators.
pub fn split_exec(s: &[char], sep: char) -> (r: Vec<Vec<char>>)
    ensures
        r@.len() == split_on(s@, sep).len(),
        forall|i: int| 0 <= i < r@.len() ==> #[trigger] r@[i]@ == split_on(s@, sep)[i],
    decreases s.len(),
{
    match find_char(s, sep) {
        None => {
            let mut r: Vec<Vec<char>> = Vec::new();
            r.push(slice_vec(s, 0, s.len()));
            assert(s@.subrange(0, s@.len() as int) == s@);
            r
        },
        Some(i) => {
            let head = slice_vec(s, 0, i);
            let rest = slice_vec(s, i + 1, s.len());
            let tail = split_exec(&rest, sep);
            let mut r: Vec<Vec<char>> = Vec::new();
            r.push(head);
            let mut k: usize = 0;
            let ghost expect = split_on(s@, sep);
            assert(expect == seq![s@.subrange(0, i as int)] + split_on(rest@, sep));
            while k < tail.len()
                invariant
                    k <= tail@.len(),
                    tail@.len() == split_on(rest@, sep).len(),
                    forall|j: int| 0 <= j < tail@.len() ==> #[trigger] tail@[j]@ == split_on(rest@, sep)[j],
                    r@.len() == k + 1,
                    expect == seq![s@.subrange(0, i as int)] + split_on(rest@, sep),
                    forall|j: int| 0 <= j < r@.len() ==> #[trigger] r@[j]@ == expect[j],
                decreases tail.len() - k,
            {
                r.push(slice_vec(&tail[k], 0, tail[k].len()));
                proof {
                    assert(tail@[k as int]@.subrange(0, tail@[k as int]@.len() as int) == tail@[k as int]@);
                }
                k += 1;
            }
            r
        },
    }
}

// ───────────────────────────── integers ─────────────────────────────

/// Appends the decimal digits of `n`.
pub fn push_decimal(out: &mut Vec<char>, n: u64)
    ensures
        final(out)@ == old(out)@ + nat_text(n as nat),
    decreases n,
{
    if n >= 10 {
        push_decimal(out, n / 10);
    }
    let d = (n % 10) as u32;
    let c = char_from_digit(d);
    out.push(c);
    proof {
        if n >= 10 {
            assert(nat_text(n as nat) == nat_text((n / 10) as nat).push(digit_char((n % 10) as nat)));
        }
    }
}

/// The ASCII character of a decimal digit.
fn char_from_digit(d: u32) -> (c: char)
    requires
        d < 10,
    ensures
        c == digit_char(d as nat),
{
    if d == 0 { '0' } else if d == 1 { '1' } else if d == 2 { '2' } else if d == 3 { '3' } else if d
        == 4 { '4' } else if d == 5 { '5' } else if d == 6 { '6' } else if d == 7 { '7' } else if d
        == 8 { '8' } else { '9' }
}

/// Appends the decimal rendering of a signed integer (`i64::to_string`).
pub fn push_i64(out: &mut Vec<char>, n: i64)
    ensures
        final(out)@ == old(out)@ + int_text(n as int),
{
    if n < 0 {
        out.push('-');
        let m: u64 = if n == i64::MIN {
            9223372036854775808u64
        } else {
            (-n) as u64
        };
        push_decimal(out, m);
        assert(old(out)@.push('-') + nat_text(m as nat) == old(out)@ + (seq!['-'] + nat_text(m as nat)));
    } else {
        push_decimal(out, n as u64);
    }
}

/// The decimal rendering of `n` (`u64::to_string`).
pub fn u64_text(n: u64) -> (s: Vec<char>)
    ensures
        s@ == nat_text(n as nat),
{
    let mut v: Vec<char> = Vec::new();
    push_decimal(&mut v, n);
    v
}

/// The decimal value of a digit character.
fn digit_of(c: char) -> (d: u64)
    requires
        is_digit(c),
    ensures
        d == digit_value(c),
        d < 10,
{
    (c as u32 - '0' as u32) as u64
}

/// The value of the digit string `s` when it does not exceed `bound`.
fn digits_upto(s: &[char], bound: u64) -> (r: Option<u64>)
    requires
        all_digits(s@),
        bound >= 10,
    ensures
        match r {
            Some(v) => v == digits_value(s@) && v <= bound,
            None => digits_value(s@) > bound,
        },
{
    let mut acc: u64 = 0;
    let mut i: usize = 0;
    while i < s.len()
        invariant
            i <= s.len(),
            all_digits(s@),
            bound >= 10,
            acc == digits_value(s@.take(i as int)),
            acc <= bound,
        decreases s.len() - i,
    {
        assert(is_digit(s@[i as int]));
        let d = digit_of(s[i]);
        assert(s@.take(i + 1).drop_last() == s@.take(i as int));
        if acc > (bound - d) / 10 {
            proof {
                assert(acc * 10 + d > bound) by (nonlinear_arith)
                    requires
                        acc > (bound - d) / 10,
                        d <= bound || d > bound,
                        d < 10,
                ;
                lemma_digits_value_prefix(s@, i + 1);
            }
            return None;
        }
        assert(acc * 10 + d <= bound) by (nonlinear_arith)
            requires
                acc <= (bound - d) / 10,
                d <= bound,
        ;
        acc = acc * 10 + d;
        i += 1;
    }
    assert(s@.take(s@.len() as int) == s@);
    Some(acc)
}

/// Whether every character is a decimal digit.
fn all_digits_exec(s: &[char]) -> (r: bool)
    ensures
        r == all_digits(s@),
{
    let mut i: usize = 0;
    while i < s.len()
        invariant
            i <= s.len(),
            forall|j: int| 0 <= j < i ==> is_digit(s@[j]),
        decreases s.len() - i,
    {
        if !('0' <= s[i] && s[i] <= '9') {
            return false;
        }
        i += 1;
    }
    true
}

/// `str::parse::<i64>`.
pub fn parse_i64(s: &[char]) -> (r: Option<i64>)
    ensures
        r == parsed_i64(s@),
{
    if s.len() > 0 && s[0] == '-' {
        let body = slice_vec(s, 1, s.len());
        assert(body@ == s@.drop_first());
        if body.len() == 0 || !all_digits_exec(&body) {
            return None;
        }
        match digits_upto(&body, 9223372036854775808u64) {
            Some(v) => {
                if v == 9223372036854775808u64 {
                    Some(i64::MIN)
                } else {
                    Some(-(v as i64))
                }
            },
            None => None,
        }
    } else {
        let start: usize = if s.len() > 0 && s[0] == '+' { 1 } else { 0 };
        let body = slice_vec(s, start, s.len());
        assert(s.len() > 0 && s@[0] == '+' ==> body@ == s@.drop_first());
        assert(!(s.len() > 0 && s@[0] == '+') ==> body@ == s@);
        if body.len() == 0 || !all_digits_exec(&body) {
            return None;
        }
        match digits_upto(&body, 9223372036854775807u64) {
            Some(v) => Some(v as i64),
            None => None,
        }
    }
}

/// `str::parse::<u64>`.
pub fn parse_u64(s: &[char]) -> (r: Option<u64>)
    ensures
        r == parsed_u64(s@),
{
    let start: usize = if s.len() > 0 && s[0] == '+' { 1 } else { 0 };
    let body = slice_vec(s, start, s.len());
    assert(s.len() > 0 && s@[0] == '+' ==> body@ == s@.drop_first());
    assert(!(s.len() > 0 && s@[0] == '+') ==> body@ == s@);
    if body.len() == 0 || !all_digits_exec(&body) {
        return None;
    }
    digits_upto(&body, u64::MAX)
}

/// `str::parse::<u32>`.
pub fn parse_u32(s: &[char]) -> (r: Option<u32>)
    ensures
        r == parsed_u32(s@),
{
    let start: usize = if s.len() > 0 && s[0] == '+' { 1 } else { 0 };
    let body = slice_vec(s, start, s.len());
    assert(s.len() > 0 && s@[0] == '+' ==> body@ == s@.drop_first());
    assert(!(s.len() > 0 && s@[0] == '+') ==> body@ == s@);
    if body.len() == 0 || !all_digits_exec(&body) {
        return None;
    }
    match digits_upto(&body, 4294967295u64) {
        Some(v) => Some(v as u32),
        None => None,
    }
}

/// `str::lines`, on characters.
pub fn lines_exec(s: &[char]) -> (r: Vec<Vec<char>>)
    ensures
        r@.len() == lines_of(s@).len(),
        forall|i: int| 0 <= i < r@.len() ==> #[trigger] r@[i]@ == lines_of(s@)[i],
{
    let pieces = split_exec(s, '\n');
    let ghost ps = split_on(s@, '\n');
    assert(ps.len() >= 1);
    let n = pieces.len();
    let mut out: Vec<Vec<char>> = Vec::new();
    let mut i: usize = 0;
    while i + 1 < n
        invariant
            n == pieces@.len(),
            n == ps.len(),
            n >= 1,
            i + 1 <= n,
            forall|j: int| 0 <= j < n ==> #[trigger] pieces@[j]@ == ps[j],
            out@.len() == i,
            forall|j: int| 0 <= j < i ==> #[trigger] out@[j]@ == strip_cr(ps[j]),
        decreases n - i,
    {
        let p = &pieces[i];
        let l = if p.len() > 0 && p[p.len() - 1] == '\r' {
            slice_vec(p, 0, p.len() - 1)
        } else {
            slice_vec(p, 0, p.len())
        };
        assert(p@.subrange(0, p@.len() as int) == p@);
        out.push(l);
        i += 1;
    }
    let last = &pieces[n - 1];
    if last.len() > 0 {
        out.push(slice_vec(last, 0, last.len()));
        assert(last@.subrange(0, last@.len() as int) == last@);
    }
    out
}

} // verus!
