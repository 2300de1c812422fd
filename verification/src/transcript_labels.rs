//! The labels the Performance view puts on what it reads: the group a
//! discovered subagent transcript file falls under, and the display name of a
//! harness in an error message.
//!
//! A subagent file is grouped by its file name, unless that name reads as an
//! opaque generated id (a UUID, or a long run of hex digits); such files all
//! land in one explicit "Unidentified subagent" group, so none is dropped.
use vstd::prelude::*;
use crate::text::{chars_of, string_of};

verus! {

broadcast use vstd::string::group_string_axioms;

/// An ASCII hexadecimal digit.
pub open spec fn is_hex_digit(c: char) -> bool {
    ('0' <= c && c <= '9') || ('a' <= c && c <= 'f') || ('A' <= c && c <= 'F')
}

/// The shape of a UUID: 36 characters, dashes at 8, 13, 18 and 23, hex
/// digits everywhere else.
pub open spec fn uuid_shaped(s: Seq<char>) -> bool {
    &&& s.len() == 36
    &&& forall|i: int| 0 <= i < 36 ==> {
        if i == 8 || i == 13 || i == 18 || i == 23 {
            #[trigger] s[i] == '-'
        } else {
            is_hex_digit(s[i])
        }
    }
}

/// At least 16 characters, all hex digits.
pub open spec fn long_hex(s: Seq<char>) -> bool {
    s.len() >= 16 && forall|i: int| 0 <= i < s.len() ==> is_hex_digit(#[trigger] s[i])
}

/// A file name that reads as a generated id rather than a declared label.
pub open spec fn opaque_id(s: Seq<char>) -> bool {
    uuid_shaped(s) || long_hex(s)
}

/// The group every unlabelled subagent file falls under.
pub open spec fn unidentified_group() -> Seq<char> {
    "Unidentified subagent"@
}

/// The group of a subagent transcript file with this stem.
pub open spec fn subagent_group_spec(stem: Seq<char>) -> Seq<char> {
    if stem.len() == 0 || opaque_id(stem) {
        unidentified_group()
    } else {
        stem
    }
}

fn is_hex_digit_exec(c: char) -> (r: bool)
    ensures
        r == is_hex_digit(c),
{
    ('0' <= c && c <= '9') || ('a' <= c && c <= 'f') || ('A' <= c && c <= 'F')
}

/// Whether a file stem reads as an opaque generated id. Every character the
/// two shapes accept is ASCII, so counting characters here counts the bytes.
pub fn looks_like_opaque_id(stem: &str) -> (r: bool)
    ensures
        r == opaque_id(stem@),
{
    let s = chars_of(stem);
    let n = s.len();
    let mut uuid = n == 36;
    let mut hex = n >= 16;
    let mut i: usize = 0;
    while i < n
        invariant
            n == s@.len(),
            s@ == stem@,
            i <= n,
            uuid == (n == 36 && forall|j: int| 0 <= j < i ==> {
                if j == 8 || j == 13 || j == 18 || j == 23 {
                    #[trigger] s@[j] == '-'
                } else {
                    is_hex_digit(s@[j])
                }
            }),
            hex == (n >= 16 && forall|j: int| 0 <= j < i ==> is_hex_digit(#[trigger] s@[j])),
        decreases n - i,
    {
        let c = s[i];
        let ok = if i == 8 || i == 13 || i == 18 || i == 23 {
            c == '-'
        } else {
            is_hex_digit_exec(c)
        };
        uuid = uuid && ok;
        hex = hex && is_hex_digit_exec(c);
        i += 1;
    }
    uuid || hex
}

/// The declared group of a discovered subagent transcript file: its file
/// stem, unless that is empty or reads as an opaque id.
pub fn subagent_group(file_stem: &str) -> (r: String)
    ensures
        r@ == subagent_group_spec(file_stem@),
{
    let empty = chars_of(file_stem).len() == 0;
    if empty || looks_like_opaque_id(file_stem) {
        let label = "Unidentified subagent";
        proof {
            reveal_strlit("Unidentified subagent");
        }
        label.to_string()
    } else {
        file_stem.to_string()
    }
}

/// What `char::to_uppercase` yields for a character: one character or more,
/// by the Unicode case tables.
pub uninterp spec fn uppercase_of(c: char) -> Seq<char>;

/// The uppercase mapping of `c`, by `char::to_uppercase`. For an ASCII
/// lowercase letter it is the matching capital; any other ASCII character has
/// no uppercase mapping but itself, and yields itself. Beyond ASCII the
/// result is the name's value, taken from the Unicode tables std carries.
#[verifier::external_body]
fn uppercase(c: char) -> (r: Vec<char>)
    ensures
        r@ == uppercase_of(c),
        ('a' <= c && c <= 'z') ==> r@ == seq![((c as u32) - 32) as char],
        ((c as u32) < 128 && !('a' <= c && c <= 'z')) ==> r@ == seq![c],
{
    c.to_uppercase().collect()
}

/// The display form of a harness name: its first character upper-cased, the
/// rest as it is.
pub open spec fn display_label_spec(harness: Seq<char>) -> Seq<char> {
    if harness.len() == 0 {
        Seq::empty()
    } else {
        uppercase_of(harness[0]) + harness.drop_first()
    }
}

/// The harness name as prose, for a message that names it.
pub fn harness_display_label(harness: &str) -> (r: String)
    ensures
        r@ == display_label_spec(harness@),
{
    let s = chars_of(harness);
    if s.len() == 0 {
        let r = String::new();
        proof {
            assert(r@ =~= Seq::<char>::empty());
        }
        return r;
    }
    let mut out = uppercase(s[0]);
    let mut i: usize = 1;
    while i < s.len()
        invariant
            1 <= i <= s@.len(),
            s@ == harness@,
            out@ == uppercase_of(s@[0]) + s@.subrange(1, i as int),
        decreases s.len() - i,
    {
        out.push(s[i]);
        assert(s@.subrange(1, i + 1) == s@.subrange(1, i as int).push(s@[i as int]));
        i += 1;
    }
    assert(s@.subrange(1, s@.len() as int) =~= s@.drop_first());
    string_of(&out)
}

} // verus!
