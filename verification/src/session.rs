//! Tmux session naming: the per-daemon socket name, the four session name
//! formats, and the parser that reads a `pdo-*` name back into its parts.
use vstd::prelude::*;
use crate::text::{
    lines_exec, lines_of, same_text, trim, trim_exec, after_prefix, all_digits, chars_of, digit_char, digit_value, digits_value, has_prefix, int_text,
    last_occurrence, nat_text, occurs_at, parse_i64, parsed_i64, push_decimal, push_i64, push_str,
    rfind, signed_literal, slice_vec, starts_with, string_of, unsigned_literal, is_digit,
};

verus! {

broadcast use vstd::string::group_string_axioms;

/// The name of the one library authoring assistant session of a daemon.
pub const LIBASSIST_SESSION_NAME: &'static str = "pdo-libassist-shared";

// ───────────────────────────── name formats ─────────────────────────────

/// `pdo-<port>`.
pub open spec fn socket_name_of(port: nat) -> Seq<char> {
    "pdo-"@ + nat_text(port)
}

/// `pdo-<run_id>-<node_id>-iter-<iter>`.
pub open spec fn node_session_name_of(run_id: Seq<char>, node_id: Seq<char>, iter: int) -> Seq<char> {
    "pdo-"@ + run_id + "-"@ + node_id + "-iter-"@ + int_text(iter)
}

/// `pdo-mgr-<run_id>`.
pub open spec fn manager_session_name_of(run_id: Seq<char>) -> Seq<char> {
    "pdo-mgr-"@ + run_id
}

/// `pdo-shell-<run_id>`.
pub open spec fn shell_session_name_of(run_id: Seq<char>) -> Seq<char> {
    "pdo-shell-"@ + run_id
}

/// The tmux socket (`tmux -L <name>`) of the daemon listening on `daemon_port`:
/// `pdo-<port>`, so two daemons never see each other's sessions.
pub fn tmux_socket_name(daemon_port: u16) -> (r: String)
    ensures
        r@ == socket_name_of(daemon_port as nat),
{
    let mut out: Vec<char> = Vec::new();
    push_str(&mut out, "pdo-");
    push_decimal(&mut out, daemon_port as u64);
    string_of(&out)
}

/// Session name of one NodeRun iteration.
pub fn node_session_name(run_id: &str, node_id: &str, iter: i64) -> (r: String)
    ensures
        r@ == node_session_name_of(run_id@, node_id@, iter as int),
{
    let mut out: Vec<char> = Vec::new();
    push_str(&mut out, "pdo-");
    push_str(&mut out, run_id);
    push_str(&mut out, "-");
    push_str(&mut out, node_id);
    push_str(&mut out, "-iter-");
    push_i64(&mut out, iter);
    string_of(&out)
}

/// Session name of a Run's pipeline manager.
pub fn manager_session_name(run_id: &str) -> (r: String)
    ensures
        r@ == manager_session_name_of(run_id@),
{
    let mut out: Vec<char> = Vec::new();
    push_str(&mut out, "pdo-mgr-");
    push_str(&mut out, run_id);
    string_of(&out)
}

/// Session name of a Run's ad-hoc shell: one fixed name per Run.
pub fn shell_session_name(run_id: &str) -> (r: String)
    ensures
        r@ == shell_session_name_of(run_id@),
{
    let mut out: Vec<char> = Vec::new();
    push_str(&mut out, "pdo-shell-");
    push_str(&mut out, run_id);
    string_of(&out)
}

/// Session name of the daemon's single library assistant. The `-shared`
/// suffix keeps the name parseable: a bare `pdo-libassist` would not parse.
pub fn libassist_session_name() -> (r: &'static str)
    ensures
        r@ == "pdo-libassist-shared"@,
{
    LIBASSIST_SESSION_NAME
}

// ───────────────────────────── parsed names ─────────────────────────────

/// Parsed components of a `pdo-*` session name.
#[derive(Debug, Clone, PartialEq, Eq)]
pub enum ParsedSession {
    NodeRun { run_id: String, node_id: String, iter: i64 },
    Manager { run_id: String },
    /// Ad-hoc run shell `pdo-shell-<run_id>`.
    Shell { run_id: String },
    /// The library assistant: one per daemon, so no identity beyond its kind.
    LibAssist,
}

/// The mathematical value of a [`ParsedSession`].
pub enum SessionKey {
    NodeRun { run_id: Seq<char>, node_id: Seq<char>, iter: i64 },
    Manager { run_id: Seq<char> },
    Shell { run_id: Seq<char> },
    LibAssist,
}

impl View for ParsedSession {
    type V = SessionKey;

    open spec fn view(&self) -> SessionKey {
        match self {
            ParsedSession::NodeRun { run_id, node_id, iter } => SessionKey::NodeRun {
                run_id: run_id@,
                node_id: node_id@,
                iter: *iter,
            },
            ParsedSession::Manager { run_id } => SessionKey::Manager { run_id: run_id@ },
            ParsedSession::Shell { run_id } => SessionKey::Shell { run_id: run_id@ },
            ParsedSession::LibAssist => SessionKey::LibAssist,
        }
    }
}

/// The view of an optional parsed session.
pub open spec fn opt_key(p: Option<ParsedSession>) -> Option<SessionKey> {
    match p {
        Some(s) => Some(s@),
        None => None,
    }
}

/// Length of the UTF-8 encoding of a character.
pub open spec fn utf8_width(c: char) -> nat {
    if (c as u32) < 0x80 {
        1
    } else if (c as u32) < 0x800 {
        2
    } else if (c as u32) < 0x10000 {
        3
    } else {
        4
    }
}

/// Length of the UTF-8 encoding of a text.
pub open spec fn utf8_len(s: Seq<char>) -> nat
    decreases s.len(),
{
    if s.len() == 0 {
        0
    } else {
        utf8_len(s.drop_last()) + utf8_width(s.last())
    }
}

/// The UTF-8 byte at offset `k` of `s` is a `-`: some character starts
/// there and is a `-` (a byte inside a multi-byte character never is).
pub open spec fn dash_at_byte(s: Seq<char>, k: nat) -> bool {
    exists|j: int| 0 <= j < s.len() && utf8_len(s.take(j)) == k && s[j] == '-'
}

/// The run-id layout of `<run_id>-<node_id>` checked on UTF-8 bytes: more
/// than 23 bytes, with `-` at bytes 8, 15 and 23 (`YYYYMMDD-HHMMSS-<7hex>`);
/// the run id is the text before byte 23 and the node id the text after it.
pub open spec fn node_run_layout(before: Seq<char>) -> Option<(Seq<char>, Seq<char>)> {
    if utf8_len(before) > 23 && dash_at_byte(before, 8) && dash_at_byte(before, 15) && dash_at_byte(
        before,
        23,
    ) {
        let j = choose|j: int| 0 <= j < before.len() && utf8_len(before.take(j)) == 23 && before[j] == '-';
        Some((before.take(j), before.skip(j + 1)))
    } else {
        None
    }
}

/// The components named by `name`, or `None` for an unrecognised format.
pub open spec fn parse_session_spec(name: Seq<char>) -> Option<SessionKey> {
    if !has_prefix(name, "pdo-"@) {
        None
    } else {
        let rest = after_prefix(name, "pdo-"@);
        if has_prefix(rest, "mgr-"@) {
            let run_id = after_prefix(rest, "mgr-"@);
            if run_id.len() > 0 {
                Some(SessionKey::Manager { run_id })
            } else {
                None
            }
        } else if has_prefix(rest, "shell-"@) {
            let run_id = after_prefix(rest, "shell-"@);
            if run_id.len() > 0 {
                Some(SessionKey::Shell { run_id })
            } else {
                None
            }
        } else if has_prefix(rest, "libassist-"@) {
            if after_prefix(rest, "libassist-"@).len() > 0 {
                Some(SessionKey::LibAssist)
            } else {
                None
            }
        } else {
            match last_occurrence(rest, "-iter-"@) {
                None => None,
                Some(k) => match parsed_i64(rest.subrange(k + 6, rest.len() as int)) {
                    None => None,
                    Some(iter) => match node_run_layout(rest.subrange(0, k)) {
                        None => None,
                        Some((run_id, node_id)) => if node_id.len() == 0 {
                            None
                        } else {
                            Some(SessionKey::NodeRun { run_id, node_id, iter })
                        },
                    },
                },
            }
        }
    }
}

// ───────────────────────────── lemmas ─────────────────────────────

/// Adding one character adds its width.
pub proof fn lemma_utf8_len_step(s: Seq<char>, j: int)
    requires
        0 <= j < s.len(),
    ensures
        utf8_len(s.take(j + 1)) == utf8_len(s.take(j)) + utf8_width(s[j]),
{
    assert(s.take(j + 1).drop_last() == s.take(j));
}

/// Byte offsets of character starts strictly increase.
pub proof fn lemma_utf8_len_increasing(s: Seq<char>, i: int, j: int)
    requires
        0 <= i < j <= s.len(),
    ensures
        utf8_len(s.take(i)) < utf8_len(s.take(j)),
    decreases j - i,
{
    lemma_utf8_len_step(s, j - 1);
    if i < j - 1 {
        lemma_utf8_len_increasing(s, i, j - 1);
    }
}

/// A text of ASCII characters has one byte per character.
pub proof fn lemma_utf8_len_ascii(s: Seq<char>, j: int)
    requires
        0 <= j <= s.len(),
        forall|k: int| 0 <= k < s.len() ==> (#[trigger] s[k] as u32) < 0x80,
    ensures
        utf8_len(s.take(j)) == j,
    decreases j,
{
    if j > 0 {
        lemma_utf8_len_ascii(s, j - 1);
        lemma_utf8_len_step(s, j - 1);
    } else {
        assert(s.take(0).len() == 0);
    }
}

/// A digit's character and value agree.
pub proof fn lemma_digit_char(d: nat)
    requires
        d < 10,
    ensures
        is_digit(digit_char(d)),
        digit_value(digit_char(d)) == d,
{
}

/// `nat_text(n)` is a non-empty digit string denoting `n`.
pub proof fn lemma_nat_text_value(n: nat)
    ensures
        nat_text(n).len() > 0,
        all_digits(nat_text(n)),
        digits_value(nat_text(n)) == n,
    decreases n,
{
    lemma_digit_char(n % 10);
    if n >= 10 {
        lemma_nat_text_value(n / 10);
        let t = nat_text(n);
        assert(t.drop_last() == nat_text(n / 10));
        assert(t.last() == digit_char(n % 10));
        assert(digits_value(t) == digits_value(nat_text(n / 10)) * 10 + digit_value(t.last()));
        assert forall|i: int| 0 <= i < t.len() implies is_digit(#[trigger] t[i]) by {
            if i < t.len() - 1 {
                assert(t[i] == nat_text(n / 10)[i]);
            }
        }
    } else {
        let t = nat_text(n);
        assert(t.drop_last().len() == 0);
        assert(t.last() == digit_char(n));
        assert(digits_value(t) == digits_value(t.drop_last()) * 10 + digit_value(t.last()));
    }
}

/// Parsing the decimal rendering of an `i64` gives it back.
pub proof fn lemma_parse_int_text(n: i64)
    ensures
        parsed_i64(int_text(n as int)) == Some(n),
{
    if n < 0 {
        let m = (-(n as int)) as nat;
        lemma_nat_text_value(m);
        let t = int_text(n as int);
        assert(t.drop_first() == nat_text(m));
        assert(signed_literal(t) == Some(-(m as int)));
    } else {
        lemma_nat_text_value(n as nat);
        let t = int_text(n as int);
        assert(is_digit(t[0]));
        assert(unsigned_literal(t) == Some(n as nat));
    }
}

/// The characters of an integer's rendering: digits, and a `-` only first.
pub proof fn lemma_int_text_chars(n: int)
    ensures
        forall|i: int| 0 <= i < int_text(n).len() ==> is_digit(#[trigger] int_text(n)[i]) || (i == 0
            && int_text(n)[i] == '-'),
        int_text(n).len() > 0,
{
    if n < 0 {
        lemma_nat_text_value((-n) as nat);
        let t = int_text(n);
        assert forall|i: int| 0 <= i < t.len() implies is_digit(#[trigger] t[i]) || (i == 0 && t[i]
            == '-') by {
            if i > 0 {
                assert(t[i] == nat_text((-n) as nat)[i - 1]);
            }
        }
    } else {
        lemma_nat_text_value(n as nat);
    }
}

/// A well-formed run id: `YYYYMMDD-HHMMSS-<7hex>`-shaped, 23 ASCII characters
/// starting with a digit, with dashes at 8 and 15.
pub open spec fn well_formed_run_id(r: Seq<char>) -> bool {
    &&& r.len() == 23
    &&& forall|k: int| 0 <= k < r.len() ==> (#[trigger] r[k] as u32) < 0x80
    &&& is_digit(r[0])
    &&& r[8] == '-'
    &&& r[15] == '-'
}

/// A text starting with a digit starts with none of the lettered prefixes.
proof fn lemma_no_letter_prefix(rest: Seq<char>)
    requires
        rest.len() > 0,
        is_digit(rest[0]),
    ensures
        !has_prefix(rest, "mgr-"@),
        !has_prefix(rest, "shell-"@),
        !has_prefix(rest, "libassist-"@),
{
    reveal_strlit("mgr-");
    reveal_strlit("shell-");
    reveal_strlit("libassist-");
    if has_prefix(rest, "mgr-"@) {
        assert(rest.subrange(0, 4)[0] == rest[0]);
    }
    if has_prefix(rest, "shell-"@) {
        assert(rest.subrange(0, 6)[0] == rest[0]);
    }
    if has_prefix(rest, "libassist-"@) {
        assert(rest.subrange(0, 10)[0] == rest[0]);
    }
}

/// After `<before>-iter-<integer>`, the last `-iter-` is the one that follows
/// `before`.
proof fn lemma_last_iter_separator(before: Seq<char>, iter: int)
    ensures
        last_occurrence(before + "-iter-"@ + int_text(iter), "-iter-"@) == Some(before.len() as int),
{
    reveal_strlit("-iter-");
    let text = int_text(iter);
    let rest = before + "-iter-"@ + text;
    let k0 = before.len() as int;
    lemma_int_text_chars(iter);
    assert(rest.subrange(k0, k0 + 6) =~= "-iter-"@);
    assert(occurs_at(rest, "-iter-"@, k0));
    assert forall|j: int| occurs_at(rest, "-iter-"@, j) implies j <= k0 by {
        if j > k0 {
            let w = rest.subrange(j, j + 6);
            assert(w[1] == rest[j + 1]);
            assert(w[1] == 'i');
            if j + 1 < k0 + 6 {
                assert(rest[j + 1] == "-iter-"@[j + 1 - k0]);
            } else {
                assert(rest[j + 1] == text[j + 1 - k0 - 6]);
                assert(is_digit(text[j + 1 - k0 - 6]) || text[j + 1 - k0 - 6] == '-');
            }
        }
    }
    let w = choose|i: int| occurs_at(rest, "-iter-"@, i) && forall|j: int| occurs_at(rest, "-iter-"@, j) ==> j <= i;
    assert(occurs_at(rest, "-iter-"@, w) && forall|j: int| occurs_at(rest, "-iter-"@, j) ==> j <= w);
    assert(w == k0);
}

/// `<run_id>-<node_id>` of a well-formed run id passes the byte layout check
/// and splits back into its two parts.
proof fn lemma_node_run_layout(run_id: Seq<char>, node_id: Seq<char>)
    requires
        well_formed_run_id(run_id),
    ensures
        node_run_layout(run_id + "-"@ + node_id) == Some((run_id, node_id)),
{
    reveal_strlit("-");
    let before = run_id + "-"@ + node_id;
    let pre = before.take(24);
    assert forall|k: int| 0 <= k < pre.len() implies (#[trigger] pre[k] as u32) < 0x80 by {
        assert(pre[k] == before[k]);
        if k < 23 {
            assert(before[k] == run_id[k]);
        }
    }
    assert forall|j: int| 0 <= j <= 24 implies utf8_len(#[trigger] before.take(j)) == j by {
        lemma_utf8_len_ascii(pre, j);
        assert(pre.take(j) =~= before.take(j));
    }
    assert(before[8] == run_id[8]);
    assert(before[15] == run_id[15]);
    assert(before[23] == '-');
    assert(utf8_len(before.take(8)) == 8);
    assert(utf8_len(before.take(15)) == 15);
    assert(utf8_len(before.take(23)) == 23);
    assert(dash_at_byte(before, 8));
    assert(dash_at_byte(before, 15));
    assert(dash_at_byte(before, 23));
    assert(utf8_len(before) > 23) by {
        assert(before.take(before.len() as int) =~= before);
        assert(utf8_len(before.take(24)) == 24);
        if before.len() > 24 {
            lemma_utf8_len_increasing(before, 24, before.len() as int);
        }
    }
    let j = choose|j: int| 0 <= j < before.len() && utf8_len(before.take(j)) == 23 && before[j] == '-';
    assert(0 <= j < before.len() && utf8_len(before.take(j)) == 23 && before[j] == '-');
    assert(j == 23) by {
        if j < 23 {
            lemma_utf8_len_increasing(before, j, 23);
        } else if j > 23 {
            lemma_utf8_len_increasing(before, 23, j);
        }
    }
    assert(before.take(23) =~= run_id);
    assert(before.skip(24) =~= node_id);
}

/// Round trip: the name of a NodeRun session parses back to the run id, node
/// id and iteration it was built from.
pub proof fn lemma_node_session_name_round_trip(run_id: Seq<char>, node_id: Seq<char>, iter: i64)
    requires
        well_formed_run_id(run_id),
        node_id.len() > 0,
    ensures
        parse_session_spec(node_session_name_of(run_id, node_id, iter as int)) == Some(
            SessionKey::NodeRun { run_id, node_id, iter },
        ),
{
    reveal_strlit("pdo-");
    let text = int_text(iter as int);
    let name = node_session_name_of(run_id, node_id, iter as int);
    let before = run_id + "-"@ + node_id;
    let rest = before + "-iter-"@ + text;
    assert(name =~= "pdo-"@ + rest);
    assert(name.subrange(0, 4) =~= "pdo-"@);
    assert(after_prefix(name, "pdo-"@) =~= rest);
    assert(rest[0] == run_id[0]);
    lemma_no_letter_prefix(rest);
    lemma_last_iter_separator(before, iter as int);
    reveal_strlit("-iter-");
    let k0 = before.len() as int;
    assert(rest.subrange(k0 + 6, rest.len() as int) =~= text);
    lemma_parse_int_text(iter);
    assert(rest.subrange(0, k0) =~= before);
    lemma_node_run_layout(run_id, node_id);
}

/// Round trip for manager sessions.
pub proof fn lemma_manager_session_name_round_trip(run_id: Seq<char>)
    requires
        run_id.len() > 0,
    ensures
        parse_session_spec(manager_session_name_of(run_id)) == Some(SessionKey::Manager { run_id }),
{
    reveal_strlit("pdo-");
    reveal_strlit("mgr-");
    reveal_strlit("pdo-mgr-");
    let name = manager_session_name_of(run_id);
    let rest = "mgr-"@ + run_id;
    assert(name =~= "pdo-"@ + rest);
    assert(name.subrange(0, 4) =~= "pdo-"@);
    assert(after_prefix(name, "pdo-"@) =~= rest);
    assert(rest.subrange(0, 4) =~= "mgr-"@);
    assert(after_prefix(rest, "mgr-"@) =~= run_id);
}

/// Round trip for run-shell sessions.
pub proof fn lemma_shell_session_name_round_trip(run_id: Seq<char>)
    requires
        run_id.len() > 0,
    ensures
        parse_session_spec(shell_session_name_of(run_id)) == Some(SessionKey::Shell { run_id }),
{
    reveal_strlit("pdo-");
    reveal_strlit("mgr-");
    reveal_strlit("shell-");
    reveal_strlit("pdo-shell-");
    let name = shell_session_name_of(run_id);
    let rest = "shell-"@ + run_id;
    assert(name =~= "pdo-"@ + rest);
    assert(name.subrange(0, 4) =~= "pdo-"@);
    assert(after_prefix(name, "pdo-"@) =~= rest);
    assert(rest.subrange(0, 6) =~= "shell-"@);
    assert(rest[0] == 's');
    assert(!has_prefix(rest, "mgr-"@)) by {
        if has_prefix(rest, "mgr-"@) {
            assert(rest.subrange(0, 4)[0] == rest[0]);
        }
    }
    assert(after_prefix(rest, "shell-"@) =~= run_id);
}

/// The library assistant's name parses to the assistant.
pub proof fn lemma_libassist_session_name_parses()
    ensures
        parse_session_spec("pdo-libassist-shared"@) == Some(SessionKey::LibAssist),
{
    reveal_strlit("pdo-");
    reveal_strlit("mgr-");
    reveal_strlit("shell-");
    reveal_strlit("libassist-");
    reveal_strlit("pdo-libassist-shared");
    let name = "pdo-libassist-shared"@;
    assert(name.subrange(0, 4) =~= "pdo-"@);
    let rest = after_prefix(name, "pdo-"@);
    assert(rest.subrange(0, 10) =~= "libassist-"@);
    assert(rest[0] == 'l');
    assert(!has_prefix(rest, "mgr-"@)) by {
        if has_prefix(rest, "mgr-"@) {
            assert(rest.subrange(0, 4)[0] == rest[0]);
        }
    }
    assert(!has_prefix(rest, "shell-"@)) by {
        if has_prefix(rest, "shell-"@) {
            assert(rest.subrange(0, 6)[0] == rest[0]);
        }
    }
    assert(after_prefix(rest, "libassist-"@).len() == 6);
}

// ───────────────────────────── the parser ─────────────────────────────

/// Some character among the first `n` of `s` is a `-` starting at byte `k`.
spec fn dash_within(s: Seq<char>, n: int, k: nat) -> bool {
    exists|j: int| 0 <= j < n && utf8_len(s.take(j)) == k && s[j] == '-'
}

proof fn lemma_dash_within_step(s: Seq<char>, n: int, k: nat)
    requires
        0 <= n < s.len(),
    ensures
        dash_within(s, n + 1, k) == (dash_within(s, n, k) || (utf8_len(s.take(n)) == k && s[n] == '-')),
{
    if dash_within(s, n + 1, k) && !(utf8_len(s.take(n)) == k && s[n] == '-') {
        let j = choose|j: int| 0 <= j < n + 1 && utf8_len(s.take(j)) == k && s[j] == '-';
        assert(j < n);
    }
}

/// UTF-8 width of a character.
fn utf8_width_exec(c: char) -> (w: usize)
    ensures
        w == utf8_width(c),
{
    let u = c as u32;
    if u < 0x80 {
        1
    } else if u < 0x800 {
        2
    } else if u < 0x10000 {
        3
    } else {
        4
    }
}

/// Checks the run-id layout of `<run_id>-<node_id>` and returns the character
/// index of the dash at byte 23.
fn node_run_layout_exec(before: &[char]) -> (r: Option<usize>)
    ensures
        match r {
            Some(j) => node_run_layout(before@) == Some(
                (before@.take(j as int), before@.skip(j + 1)),
            ) && j < before.len(),
            None => node_run_layout(before@) is None,
        },
{
    let mut off: usize = 0;
    let mut i: usize = 0;
    let mut dash8 = false;
    let mut dash15 = false;
    let mut at23: Option<usize> = None;
    while i < before.len() && off <= 23
        invariant
            i <= before.len(),
            off == utf8_len(before@.take(i as int)),
            off <= 23 || i > 0,
            dash8 == dash_within(before@, i as int, 8),
            dash15 == dash_within(before@, i as int, 15),
            match at23 {
                Some(j) => j < i && utf8_len(before@.take(j as int)) == 23 && before@[j as int] == '-',
                None => forall|j: int| 0 <= j < i ==> !(utf8_len(before@.take(j)) == 23 && before@[j] == '-'),
            },
        decreases before.len() - i,
    {
        let c = before[i];
        if off == 8 && c == '-' {
            dash8 = true;
        }
        if off == 15 && c == '-' {
            dash15 = true;
        }
        if off == 23 && c == '-' {
            at23 = Some(i);
        }
        proof {
            lemma_utf8_len_step(before@, i as int);
            lemma_dash_within_step(before@, i as int, 8);
            lemma_dash_within_step(before@, i as int, 15);
        }
        off = off + utf8_width_exec(c);
        i += 1;
    }
    // Every character start at or beyond `i` lies past byte 23.
    proof {
        assert forall|j: int| i <= j < before@.len() implies utf8_len(#[trigger] before@.take(j)) > 23 by {
            if i < j {
                lemma_utf8_len_increasing(before@, i as int, j);
            }
        }
        assert(before@.take(before@.len() as int) == before@);
        if i < before@.len() {
            lemma_utf8_len_increasing(before@, i as int, before@.len() as int);
        }
    }
    proof {
        assert(dash_within(before@, i as int, 8) == dash_at_byte(before@, 8));
        assert(dash_within(before@, i as int, 15) == dash_at_byte(before@, 15));
    }
    let total_over = off > 23;
    if !total_over || !dash8 || !dash15 {
        return None;
    }
    match at23 {
        None => None,
        Some(j) => {
            proof {
                let w = choose|w: int| 0 <= w < before@.len() && utf8_len(before@.take(w)) == 23 && before@[w] == '-';
                assert(w == j as int) by {
                    if w < j {
                        lemma_utf8_len_increasing(before@, w, j as int);
                    } else if w > j {
                        lemma_utf8_len_increasing(before@, j as int, w);
                    }
                }
            }
            Some(j)
        },
    }
}

/// Parse a session name like `pdo-<run_id>-<node_id>-iter-<N>`,
/// `pdo-mgr-<run_id>`, `pdo-shell-<run_id>` or the library assistant's name.
/// `None` for an unrecognised format.
pub fn parse_session_name(name: &str) -> (r: Option<ParsedSession>)
    ensures
        opt_key(r) == parse_session_spec(name@),
{
    let n = chars_of(name);
    let pdo = chars_of("pdo-");
    if !starts_with(&n, &pdo) {
        return None;
    }
    let rest = slice_vec(&n, pdo.len(), n.len());
    let mgr = chars_of("mgr-");
    if starts_with(&rest, &mgr) {
        let run = slice_vec(&rest, mgr.len(), rest.len());
        if run.len() > 0 {
            return Some(ParsedSession::Manager { run_id: string_of(&run) });
        }
        return None;
    }
    let shell = chars_of("shell-");
    if starts_with(&rest, &shell) {
        let run = slice_vec(&rest, shell.len(), rest.len());
        if run.len() > 0 {
            return Some(ParsedSession::Shell { run_id: string_of(&run) });
        }
        return None;
    }
    let lib = chars_of("libassist-");
    if starts_with(&rest, &lib) {
        if rest.len() > lib.len() {
            return Some(ParsedSession::LibAssist);
        }
        return None;
    }
    let sep = chars_of("-iter-");
    proof {
        reveal_strlit("-iter-");
    }
    let k = match rfind(&rest, &sep) {
        Some(k) => k,
        None => return None,
    };
    let iter_text = slice_vec(&rest, k + sep.len(), rest.len());
    let iter = match parse_i64(&iter_text) {
        Some(v) => v,
        None => return None,
    };
    let before = slice_vec(&rest, 0, k);
    match node_run_layout_exec(&before) {
        None => None,
        Some(j) => {
            let run = slice_vec(&before, 0, j);
            let node = slice_vec(&before, j + 1, before.len());
            if node.len() == 0 {
                return None;
            }
            Some(ParsedSession::NodeRun { run_id: string_of(&run), node_id: string_of(&node), iter })
        },
    }
}


// ───────────────────────────── inventory ─────────────────────────────

/// Line `j` of a `tmux ls -F '#{session_name}'` listing names a `pdo-*`
/// session.
pub open spec fn listed_pdo(listing: Seq<char>, j: int) -> bool {
    0 <= j < lines_of(listing).len() && has_prefix(lines_of(listing)[j], "pdo-"@)
}

/// Whether a name is among the strings.
fn holds_name(names: &Vec<String>, name: &[char]) -> (r: bool)
    ensures
        r == names_hold(names@, name@),
{
    let mut i: usize = 0;
    while i < names.len()
        invariant
            i <= names@.len(),
            forall|k: int| 0 <= k < i ==> (#[trigger] names@[k])@ != name@,
        decreases names.len() - i,
    {
        if same_text(&chars_of(names[i].as_str()), name) {
            return true;
        }
        i += 1;
    }
    false
}

/// `name` is a `pdo-*` line of the listing.
pub open spec fn is_listed_name(listing: Seq<char>, name: Seq<char>) -> bool {
    exists|m: int| #[trigger] listed_pdo(listing, m) && lines_of(listing)[m] == name
}

/// Some string among `names` is `name`.
pub open spec fn names_hold(names: Seq<String>, name: Seq<char>) -> bool {
    exists|i: int| 0 <= i < names.len() && (#[trigger] names[i])@ == name
}

/// The `pdo-*` session names of a `tmux ls -F '#{session_name}'` listing,
/// each once, in order of first appearance.
pub fn pdo_sessions_in(listing: &str) -> (r: Vec<String>)
    ensures
        forall|i: int, k: int| 0 <= i < k < r@.len() ==> r@[i]@ != r@[k]@,
        forall|i: int| 0 <= i < r@.len() ==> is_listed_name(listing@, (#[trigger] r@[i])@),
        forall|j: int| #[trigger] listed_pdo(listing@, j) ==> names_hold(r@, lines_of(listing@)[j]),
{
    let lines = lines_exec(&chars_of(listing));
    let ghost ls = lines_of(listing@);
    let prefix = chars_of("pdo-");
    let mut out: Vec<String> = Vec::new();
    let mut j: usize = 0;
    while j < lines.len()
        invariant
            j <= lines@.len(),
            ls == lines_of(listing@),
            lines@.len() == ls.len(),
            forall|m: int| 0 <= m < lines@.len() ==> #[trigger] lines@[m]@ == ls[m],
            prefix@ == "pdo-"@,
            forall|i: int, k: int| 0 <= i < k < out@.len() ==> out@[i]@ != out@[k]@,
            forall|i: int| 0 <= i < out@.len() ==> is_listed_name(listing@, (#[trigger] out@[i])@),
            forall|m: int| 0 <= m < j && #[trigger] listed_pdo(listing@, m) ==> names_hold(out@, ls[m]),
        decreases lines.len() - j,
    {
        let line = &lines[j];
        assert(line@ == ls[j as int]);
        let ghost before = out@;
        if starts_with(line, &prefix) {
            assert(listed_pdo(listing@, j as int));
            if !holds_name(&out, line) {
                out.push(string_of(line));
                assert(out@[before.len() as int]@ == ls[j as int]);
                assert(is_listed_name(listing@, ls[j as int]));
                assert forall|i: int| 0 <= i < out@.len() implies is_listed_name(listing@, (#[trigger] out@[i])@) by {
                    if i < before.len() {
                        assert(out@[i] == before[i]);
                    }
                }
                assert forall|m: int| 0 <= m < j + 1 && #[trigger] listed_pdo(listing@, m) implies names_hold(
                    out@,
                    ls[m],
                ) by {
                    if m < j {
                        assert(names_hold(before, ls[m]));
                        let i = choose|i: int| 0 <= i < before.len() && (#[trigger] before[i])@ == ls[m];
                        assert(out@[i] == before[i]);
                    } else {
                        assert(out@[before.len() as int]@ == ls[m]);
                    }
                }
            } else {
                assert(names_hold(out@, ls[j as int]));
            }
        }
        j += 1;
    }
    out
}

/// Whether `tmux display-message -p '#{session_attached}'` printed a count
/// of at least one attached client; anything unreadable answers `false`.
pub open spec fn attached_spec(stdout: Seq<char>) -> bool {
    match parsed_i64(trim(stdout)) {
        Some(n) => n > 0,
        None => false,
    }
}

/// Read the attached-client count that tmux printed.
pub fn attached_from_output(stdout: &str) -> (r: bool)
    ensures
        r == attached_spec(stdout@),
{
    let t = trim_exec(&chars_of(stdout));
    match parse_i64(&t) {
        Some(n) => n > 0,
        None => false,
    }
}

} // verus!
