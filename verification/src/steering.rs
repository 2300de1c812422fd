//! Steering messages: the turns a human typed into a Node's session after
//! its launch, counted from the harness transcript, one reader per harness.
//!
//! Rules shared by every reader: the first human turn is the launch prompt
//! and is excluded by position; turns starting with [`RUNTIME_PREFIX`] are the
//! daemon's own and are excluded; only typed text counts (tool results, meta
//! and compaction entries, interruption and local-command echoes never do).
//! The count is `Some(n)` for a transcript with at least one human turn and
//! `None` when no human turn can be read at all.
//!
//! A transcript is handed in as its lines, each already read as JSON
//! (`None` for a line that is not JSON).
use vstd::prelude::*;
use crate::json::{flagged, get, get_str, get_string, is_flagged, json_get, JsonValue};
use crate::text::{
    all_space, chars_of, has_prefix, is_blank, lines_exec, lines_of, push_all, push_str, same_text,
    string_of, trim_start, trim_start_exec,
};

verus! {

broadcast use vstd::string::group_string_axioms;

/// The marker every daemon-authored message carries at the head of its first
/// line.
pub const RUNTIME_PREFIX: &'static str = "[pdo-runtime]";

/// Whether a string value equals a literal.
fn str_is(s: &String, lit: &str) -> (r: bool)
    ensures
        r == (s@ == lit@),
{
    same_text(&chars_of(s.as_str()), &chars_of(lit))
}

// ───────────────────────────── the rules ─────────────────────────────

/// `text` prefixed as a runtime message — idempotent: a text that already
/// starts with the prefix is returned unchanged.
pub open spec fn runtime_message_spec(text: Seq<char>) -> Seq<char> {
    if has_prefix(text, "[pdo-runtime]"@) {
        text
    } else {
        "[pdo-runtime]"@ + " "@ + text
    }
}

/// A daemon-authored turn: starts with the prefix once leading white space is
/// skipped.
pub open spec fn is_runtime_spec(text: Seq<char>) -> bool {
    has_prefix(trim_start(text), "[pdo-runtime]"@)
}

/// A user turn written by the harness itself: an interruption marker or a
/// local slash-command echo.
pub open spec fn is_synthetic_spec(text: Seq<char>) -> bool {
    let t = trim_start(text);
    has_prefix(t, "[Request interrupted by user"@) || has_prefix(t, "<local-command-stdout>"@)
        || has_prefix(t, "<local-command-caveat>"@)
}

/// Some block of the array is a `tool_result`.
pub open spec fn has_tool_result(blocks: Seq<JsonValue>) -> bool {
    exists|i: int| 0 <= i < blocks.len() && get_str(#[trigger] blocks[i], "type"@) == Some("tool_result"@)
}

/// The text of the first `n` blocks: the `text` of each `text` block.
pub open spec fn block_text(blocks: Seq<JsonValue>, n: int) -> Seq<char>
    decreases n,
{
    if n <= 0 {
        Seq::empty()
    } else {
        let b = blocks[n - 1];
        block_text(blocks, n - 1) + if get_str(b, "type"@) == Some("text"@) {
            match get_str(b, "text"@) {
                Some(t) => t,
                None => Seq::empty(),
            }
        } else {
            Seq::empty()
        }
    }
}

/// The typed text of a message `content`: a non-blank string, or the
/// non-blank concatenation of the `text` blocks of a block array that holds
/// no `tool_result` block.
pub open spec fn typed_text_spec(content: JsonValue) -> Option<Seq<char>> {
    match content {
        JsonValue::String(s) => if all_space(s@) {
            None
        } else {
            Some(s@)
        },
        JsonValue::Array(blocks) => if has_tool_result(blocks@) {
            None
        } else {
            let t = block_text(blocks@, blocks@.len() as int);
            if all_space(t) {
                None
            } else {
                Some(t)
            }
        },
        _ => None,
    }
}

/// The number of turns among `turns[1..]` that are not runtime messages.
pub open spec fn human_after_launch(turns: Seq<Seq<char>>, n: int) -> nat
    decreases n,
{
    if n <= 1 {
        0
    } else {
        human_after_launch(turns, n - 1) + if is_runtime_spec(turns[n - 1]) {
            0nat
        } else {
            1nat
        }
    }
}

/// The steering count of an ordered list of human turns: `None` when there
/// is none, else the turns after the first (the launch prompt) minus the
/// runtime-prefixed ones.
pub open spec fn count_after_launch_spec(turns: Seq<Seq<char>>) -> Option<u32> {
    if turns.len() == 0 {
        None
    } else {
        Some(human_after_launch(turns, turns.len() as int) as u32)
    }
}

/// The default harness: the typed text of a human `user` line, or nothing.
pub open spec fn claude_turn(line: Option<JsonValue>) -> Option<Seq<char>> {
    match line {
        None => None,
        Some(v) => if get_str(v, "type"@) != Some("user"@) {
            None
        } else if flagged(v, "isMeta"@) || flagged(v, "isCompactSummary"@) || flagged(v, "isSidechain"@) {
            None
        } else if json_get(v, "toolUseResult"@) is Some {
            None
        } else {
            match json_get(v, "message"@) {
                None => None,
                Some(msg) => if get_str(msg, "role"@) matches Some(role) && role != "user"@ {
                    None
                } else {
                    match json_get(msg, "content"@) {
                        None => None,
                        Some(c) => match typed_text_spec(c) {
                            None => None,
                            Some(t) => if is_synthetic_spec(t) {
                                None
                            } else {
                                Some(t)
                            },
                        },
                    }
                },
            }
        },
    }
}

/// `copilot`: the typed text of a `user.message` event, or nothing.
pub open spec fn copilot_turn(line: Option<JsonValue>) -> Option<Seq<char>> {
    match line {
        None => None,
        Some(v) => if get_str(v, "type"@) != Some("user.message"@) {
            None
        } else {
            match json_get(v, "data"@) {
                None => None,
                Some(d) => match json_get(d, "content"@) {
                    None => None,
                    Some(c) => typed_text_spec(c),
                },
            }
        },
    }
}

/// `pi`: the typed text of a `message` entry of role `user`, or nothing.
pub open spec fn pi_turn(line: Option<JsonValue>) -> Option<Seq<char>> {
    match line {
        None => None,
        Some(v) => if get_str(v, "type"@) != Some("message"@) {
            None
        } else {
            match json_get(v, "message"@) {
                None => None,
                Some(msg) => if get_str(msg, "role"@) != Some("user"@) {
                    None
                } else {
                    match json_get(msg, "content"@) {
                        None => None,
                        Some(c) => typed_text_spec(c),
                    }
                },
            }
        },
    }
}

/// The turns a reader keeps among the first `n` lines, in order.
pub open spec fn turns_of(lines: Seq<Option<JsonValue>>, n: int, reader: spec_fn(Option<JsonValue>) -> Option<Seq<char>>) -> Seq<Seq<char>>
    decreases n,
{
    if n <= 0 {
        Seq::empty()
    } else {
        match reader(lines[n - 1]) {
            Some(t) => turns_of(lines, n - 1, reader).push(t),
            None => turns_of(lines, n - 1, reader),
        }
    }
}

/// The steering count of a transcript read by `reader`.
pub open spec fn steering_count(lines: Seq<Option<JsonValue>>, reader: spec_fn(Option<JsonValue>) -> Option<Seq<char>>) -> Option<u32> {
    count_after_launch_spec(turns_of(lines, lines.len() as int, reader))
}

// ───────────────────────────── execution ─────────────────────────────

/// Prefix `text` as a runtime message, unless it already is one.
pub fn runtime_message(text: &str) -> (r: String)
    ensures
        r@ == runtime_message_spec(text@),
{
    let t = chars_of(text);
    let p = chars_of(RUNTIME_PREFIX);
    if crate::text::starts_with(&t, &p) {
        return string_of(&t);
    }
    let mut out: Vec<char> = Vec::new();
    push_str(&mut out, RUNTIME_PREFIX);
    push_str(&mut out, " ");
    push_all(&mut out, &t);
    string_of(&out)
}

/// Whether `text` is a daemon-authored turn.
pub fn is_runtime_message(text: &[char]) -> (r: bool)
    ensures
        r == is_runtime_spec(text@),
{
    let t = trim_start_exec(text);
    crate::text::starts_with(&t, &chars_of(RUNTIME_PREFIX))
}

/// Whether `text` was written by the harness on the human's behalf.
pub fn is_synthetic_user_text(text: &[char]) -> (r: bool)
    ensures
        r == is_synthetic_spec(text@),
{
    let t = trim_start_exec(text);
    crate::text::starts_with(&t, &chars_of("[Request interrupted by user"))
        || crate::text::starts_with(&t, &chars_of("<local-command-stdout>"))
        || crate::text::starts_with(&t, &chars_of("<local-command-caveat>"))
}

/// The typed text of a message content.
pub fn typed_text(content: &JsonValue) -> (r: Option<Vec<char>>)
    ensures
        match r {
            Some(t) => typed_text_spec(*content) == Some(t@),
            None => typed_text_spec(*content) is None,
        },
{
    match content {
        JsonValue::String(s) => {
            let t = chars_of(s.as_str());
            if is_blank(&t) {
                None
            } else {
                Some(t)
            }
        },
        JsonValue::Array(blocks) => {
            let mut text: Vec<char> = Vec::new();
            let mut i: usize = 0;
            while i < blocks.len()
                invariant
                    i <= blocks@.len(),
                    *content == JsonValue::Array(*blocks),
                    text@ == block_text(blocks@, i as int),
                    forall|j: int| 0 <= j < i ==> get_str(#[trigger] blocks@[j], "type"@) != Some("tool_result"@),
                decreases blocks.len() - i,
            {
                let b = &blocks[i];
                match get_string(b, "type") {
                    Some(ty) => {
                        if str_is(ty, "tool_result") {
                            assert(get_str(blocks@[i as int], "type"@) == Some("tool_result"@));
                            assert(has_tool_result(blocks@));
                            return None;
                        }
                        if str_is(ty, "text") {
                            if let Some(t) = get_string(b, "text") {
                                push_str(&mut text, t.as_str());
                            }
                        }
                    },
                    None => {},
                }
                i += 1;
            }
            if is_blank(&text) {
                None
            } else {
                Some(text)
            }
        },
        _ => None,
    }
}

/// Count the steering messages of an ordered list of human turns.
pub fn count_after_launch(turns: &Vec<Vec<char>>) -> (r: Option<u32>)
    ensures
        r == count_after_launch_spec(turns@.map_values(|t: Vec<char>| t@)),
{
    let ghost ts = turns@.map_values(|t: Vec<char>| t@);
    if turns.len() == 0 {
        return None;
    }
    let mut n: usize = 0;
    let mut i: usize = 1;
    while i < turns.len()
        invariant
            1 <= i <= turns@.len(),
            ts == turns@.map_values(|t: Vec<char>| t@),
            n == human_after_launch(ts, i as int),
            n <= i,
        decreases turns.len() - i,
    {
        assert(ts[i as int] == turns@[i as int]@);
        if !is_runtime_message(&turns[i]) {
            n = n + 1;
        }
        i += 1;
    }
    Some(#[verifier::truncate] (n as u32))
}

/// The default harness: the human turn of one line.
fn claude_line(line: &Option<JsonValue>) -> (r: Option<Vec<char>>)
    ensures
        match r {
            Some(t) => claude_turn(*line) == Some(t@),
            None => claude_turn(*line) is None,
        },
{
    let v = match line {
        Some(v) => v,
        None => return None,
    };
    match get_string(v, "type") {
        Some(t) => if !str_is(t, "user") {
            return None;
        },
        None => return None,
    }
    if is_flagged(v, "isMeta") || is_flagged(v, "isCompactSummary") || is_flagged(v, "isSidechain") {
        return None;
    }
    if get(v, "toolUseResult").is_some() {
        return None;
    }
    let msg = match get(v, "message") {
        Some(m) => m,
        None => return None,
    };
    if let Some(role) = get_string(msg, "role") {
        if !str_is(role, "user") {
            return None;
        }
    }
    let content = match get(msg, "content") {
        Some(c) => c,
        None => return None,
    };
    let t = match typed_text(content) {
        Some(t) => t,
        None => return None,
    };
    if is_synthetic_user_text(&t) {
        return None;
    }
    Some(t)
}

/// `copilot`: the human turn of one line.
fn copilot_line(line: &Option<JsonValue>) -> (r: Option<Vec<char>>)
    ensures
        match r {
            Some(t) => copilot_turn(*line) == Some(t@),
            None => copilot_turn(*line) is None,
        },
{
    let v = match line {
        Some(v) => v,
        None => return None,
    };
    match get_string(v, "type") {
        Some(t) => if !str_is(t, "user.message") {
            return None;
        },
        None => return None,
    }
    let d = match get(v, "data") {
        Some(d) => d,
        None => return None,
    };
    match get(d, "content") {
        Some(c) => typed_text(c),
        None => None,
    }
}

/// `pi`: the human turn of one line.
fn pi_line(line: &Option<JsonValue>) -> (r: Option<Vec<char>>)
    ensures
        match r {
            Some(t) => pi_turn(*line) == Some(t@),
            None => pi_turn(*line) is None,
        },
{
    let v = match line {
        Some(v) => v,
        None => return None,
    };
    match get_string(v, "type") {
        Some(t) => if !str_is(t, "message") {
            return None;
        },
        None => return None,
    }
    let msg = match get(v, "message") {
        Some(m) => m,
        None => return None,
    };
    match get_string(msg, "role") {
        Some(r) => if !str_is(r, "user") {
            return None;
        },
        None => return None,
    }
    match get(msg, "content") {
        Some(c) => typed_text(c),
        None => None,
    }
}

/// The harness whose transcript is read.
#[derive(Debug, Clone, Copy, PartialEq, Eq)]
pub enum TranscriptFormat {
    Claude,
    Copilot,
    Pi,
}

/// The per-line reader of a format.
pub open spec fn reader_of(f: TranscriptFormat) -> spec_fn(Option<JsonValue>) -> Option<Seq<char>> {
    match f {
        TranscriptFormat::Claude => |l: Option<JsonValue>| claude_turn(l),
        TranscriptFormat::Copilot => |l: Option<JsonValue>| copilot_turn(l),
        TranscriptFormat::Pi => |l: Option<JsonValue>| pi_turn(l),
    }
}

/// The human turn of one line, in a format.
fn turn_of(format: TranscriptFormat, line: &Option<JsonValue>) -> (r: Option<Vec<char>>)
    ensures
        match r {
            Some(t) => (reader_of(format))(*line) == Some(t@),
            None => (reader_of(format))(*line) is None,
        },
{
    match format {
        TranscriptFormat::Claude => claude_line(line),
        TranscriptFormat::Copilot => copilot_line(line),
        TranscriptFormat::Pi => pi_line(line),
    }
}

/// The steering count of a transcript in `format`, given its lines read as
/// JSON (`None` for a line that is not JSON).
pub fn steering_count_of(format: TranscriptFormat, lines: &[Option<JsonValue>]) -> (r: Option<u32>)
    ensures
        r == steering_count(lines@, reader_of(format)),
{
    let ghost reader = reader_of(format);
    let mut turns: Vec<Vec<char>> = Vec::new();
    let mut i: usize = 0;
    while i < lines.len()
        invariant
            i <= lines@.len(),
            reader == reader_of(format),
            turns@.map_values(|t: Vec<char>| t@) == turns_of(lines@, i as int, reader),
        decreases lines.len() - i,
    {
        match turn_of(format, &lines[i]) {
            Some(t) => {
                let ghost before = turns@;
                turns.push(t);
                assert(turns@.map_values(|t: Vec<char>| t@) =~= before.map_values(|t: Vec<char>| t@).push(
                    t@,
                ));
            },
            None => {},
        }
        i += 1;
    }
    count_after_launch(&turns)
}

/// The default harness: `user` lines with typed text, minus the first, minus meta,
/// compaction, sidechain, tool round-trip and harness-written lines, minus
/// runtime-prefixed turns.
pub fn claude_steering_count(lines: &[Option<JsonValue>]) -> (r: Option<u32>)
    ensures
        r == steering_count(lines@, reader_of(TranscriptFormat::Claude)),
{
    steering_count_of(TranscriptFormat::Claude, lines)
}

/// `copilot`: `user.message` events, minus the first, minus runtime-prefixed
/// ones.
pub fn copilot_steering_count(lines: &[Option<JsonValue>]) -> (r: Option<u32>)
    ensures
        r == steering_count(lines@, reader_of(TranscriptFormat::Copilot)),
{
    steering_count_of(TranscriptFormat::Copilot, lines)
}

/// `pi`: `message` entries of role `user` with typed text, minus the first,
/// minus runtime-prefixed ones.
pub fn pi_steering_count(lines: &[Option<JsonValue>]) -> (r: Option<u32>)
    ensures
        r == steering_count(lines@, reader_of(TranscriptFormat::Pi)),
{
    steering_count_of(TranscriptFormat::Pi, lines)
}

/// The lines of a transcript (`str::lines`), each to be read as JSON.
pub fn transcript_lines(text: &str) -> (r: Vec<String>)
    ensures
        r@.len() == lines_of(text@).len(),
        forall|i: int| 0 <= i < r@.len() ==> #[trigger] r@[i]@ == lines_of(text@)[i],
{
    let cs = chars_of(text);
    let ls = lines_exec(&cs);
    let mut out: Vec<String> = Vec::new();
    let mut i: usize = 0;
    while i < ls.len()
        invariant
            i <= ls@.len(),
            cs@ == text@,
            ls@.len() == lines_of(text@).len(),
            forall|j: int| 0 <= j < ls@.len() ==> #[trigger] ls@[j]@ == lines_of(text@)[j],
            out@.len() == i,
            forall|j: int| 0 <= j < i ==> #[trigger] out@[j]@ == lines_of(text@)[j],
        decreases ls.len() - i,
    {
        out.push(string_of(&ls[i]));
        i += 1;
    }
    out
}

/// A main session's steering reading: the count, or why there is none.
/// `format` is the harness's transcript reader (`None` for a harness whose
/// session cannot be resolved by identity); `transcript` is its session
/// file's lines, where one could be attributed and read.
pub open spec fn session_steering_spec(
    format: Option<TranscriptFormat>,
    harness: Seq<char>,
    session_id: Option<Seq<char>>,
    transcript: Option<Seq<Option<JsonValue>>>,
) -> (Option<u32>, Option<Seq<char>>) {
    match format {
        None => (None, Some("session not resolvable on "@ + harness)),
        Some(f) => match session_id {
            Some(id) if id.len() > 0 => match transcript {
                None => (None, Some("no attributable transcript"@)),
                Some(lines) => match steering_count(lines, reader_of(f)) {
                    Some(n) => (Some(n), None),
                    None => (None, Some("no readable human turn in transcript"@)),
                },
            },
            _ => (None, Some("no session identity"@)),
        },
    }
}

pub open spec fn opt_str_view(s: Option<&str>) -> Option<Seq<char>> {
    match s {
        Some(v) => Some(v@),
        None => None,
    }
}

pub open spec fn opt_string_view(s: Option<String>) -> Option<Seq<char>> {
    match s {
        Some(v) => Some(v@),
        None => None,
    }
}

/// One main session's steering count, or the motivated absence: never `0`
/// for a transcript that could not be read.
pub fn main_session_steering(
    format: Option<TranscriptFormat>,
    harness: &str,
    session_id: Option<&str>,
    transcript: Option<&[Option<JsonValue>]>,
) -> (r: (Option<u32>, Option<String>))
    ensures
        (r.0, opt_string_view(r.1)) == session_steering_spec(
            format,
            harness@,
            opt_str_view(session_id),
            match transcript {
                Some(t) => Some(t@),
                None => None,
            },
        ),
{
    let f = match format {
        Some(f) => f,
        None => {
            let mut out: Vec<char> = Vec::new();
            push_str(&mut out, "session not resolvable on ");
            push_str(&mut out, harness);
            proof {
                reveal_strlit("session not resolvable on ");
            }
            return (None, Some(string_of(&out)));
        },
    };
    let named = match session_id {
        Some(id) => chars_of(id).len() > 0,
        None => false,
    };
    if !named {
        proof {
            reveal_strlit("no session identity");
        }
        return (None, Some("no session identity".to_string()));
    }
    match transcript {
        None => {
            proof {
                reveal_strlit("no attributable transcript");
            }
            (None, Some("no attributable transcript".to_string()))
        },
        Some(lines) => match steering_count_of(f, lines) {
            Some(n) => (Some(n), None),
            None => {
                proof {
                    reveal_strlit("no readable human turn in transcript");
                }
                (None, Some("no readable human turn in transcript".to_string()))
            },
        },
    }
}

// ───────────────────────────── laws ─────────────────────────────

/// Prefixing is idempotent: a runtime message prefixed again is unchanged.
pub proof fn law_runtime_message_idempotent(text: Seq<char>)
    ensures
        runtime_message_spec(runtime_message_spec(text)) == runtime_message_spec(text),
        has_prefix(runtime_message_spec(text), "[pdo-runtime]"@),
{
    reveal_strlit("[pdo-runtime]");
    reveal_strlit(" ");
    if !has_prefix(text, "[pdo-runtime]"@) {
        let m = "[pdo-runtime]"@ + " "@ + text;
        assert(m.subrange(0, 13) =~= "[pdo-runtime]"@);
    }
}

/// The turns of a prefix do not see the lines after it.
proof fn lemma_turns_of_prefix(
    lines: Seq<Option<JsonValue>>,
    extra: Option<JsonValue>,
    n: int,
    reader: spec_fn(Option<JsonValue>) -> Option<Seq<char>>,
)
    requires
        0 <= n <= lines.len(),
    ensures
        turns_of(lines.push(extra), n, reader) == turns_of(lines, n, reader),
    decreases n,
{
    if n > 0 {
        lemma_turns_of_prefix(lines, extra, n - 1, reader);
        assert(lines.push(extra)[n - 1] == lines[n - 1]);
    }
}

/// A line that no reader keeps leaves a transcript's steering count as it is.
proof fn lemma_unread_line_keeps_the_count(
    lines: Seq<Option<JsonValue>>,
    extra: Option<JsonValue>,
    reader: spec_fn(Option<JsonValue>) -> Option<Seq<char>>,
)
    requires
        reader(extra) is None,
    ensures
        steering_count(lines.push(extra), reader) == steering_count(lines, reader),
{
    lemma_turns_of_prefix(lines, extra, lines.len() as int, reader);
    assert(lines.push(extra)[lines.len() as int] == extra);
}

/// The harness writes some user turns itself: an interruption marker, or
/// the echo (or caveat) of a local slash command. A `user` line of the
/// default harness whose typed text, after leading white space, starts with
/// one of those markers is never a steering message: appending it to a
/// transcript leaves the steering count as it was.
pub proof fn law_harness_echoes_are_never_steering(
    lines: Seq<Option<JsonValue>>,
    line: JsonValue,
    message: JsonValue,
    content: JsonValue,
    text: Seq<char>,
)
    requires
        get_str(line, "type"@) == Some("user"@),
        json_get(line, "message"@) == Some(message),
        json_get(message, "content"@) == Some(content),
        typed_text_spec(content) == Some(text),
        has_prefix(trim_start(text), "<local-command-stdout>"@) || has_prefix(trim_start(text), "<local-command-caveat>"@)
            || has_prefix(trim_start(text), "[Request interrupted by user"@),
    ensures
        steering_count(lines.push(Some(line)), reader_of(TranscriptFormat::Claude)) == steering_count(
            lines,
            reader_of(TranscriptFormat::Claude),
        ),
{
    assert((reader_of(TranscriptFormat::Claude))(Some(line)) is None);
    lemma_unread_line_keeps_the_count(lines, Some(line), reader_of(TranscriptFormat::Claude));
}

/// The runtime count of a prefix of turns does not see the turns after it.
proof fn lemma_human_prefix(turns: Seq<Seq<char>>, t: Seq<char>, n: int)
    requires
        0 <= n <= turns.len(),
    ensures
        human_after_launch(turns.push(t), n) == human_after_launch(turns, n),
    decreases n,
{
    if n > 1 {
        lemma_human_prefix(turns, t, n - 1);
        assert(turns.push(t)[n - 1] == turns[n - 1]);
    }
}

/// Each human turn read after the first counts once, in any harness's
/// transcript, unless it is a daemon-authored runtime message; the first
/// turn read is the launch prompt and counts nothing, so a transcript's
/// first turn gives a count of zero.
pub proof fn law_each_turn_after_the_launch_counts_once(
    lines: Seq<Option<JsonValue>>,
    line: Option<JsonValue>,
    f: TranscriptFormat,
    t: Seq<char>,
)
    requires
        (reader_of(f))(line) == Some(t),
        lines.len() < u32::MAX,
    ensures
        steering_count(lines, reader_of(f)) is None ==> steering_count(lines.push(line), reader_of(f)) == Some(0u32),
        steering_count(lines, reader_of(f)) matches Some(n) ==> steering_count(lines.push(line), reader_of(f)) == Some(
            (if has_prefix(trim_start(t), "[pdo-runtime]"@) {
                n
            } else {
                (n + 1) as u32
            }),
        ),
{
    let r = reader_of(f);
    let n = lines.len() as int;
    lemma_turns_of_prefix(lines, line, n, r);
    assert(lines.push(line)[n] == line);
    let turns = turns_of(lines, n, r);
    assert(turns_of(lines.push(line), n + 1, r) == turns.push(t));
    lemma_human_prefix(turns, t, turns.len() as int);
    assert(turns.push(t)[turns.len() as int] == t);
    lemma_turns_bounded(lines, n, r);
    lemma_human_bounded(turns, turns.len() as int);
}

/// A reader keeps at most one turn per line.
proof fn lemma_turns_bounded(lines: Seq<Option<JsonValue>>, n: int, reader: spec_fn(Option<JsonValue>) -> Option<Seq<char>>)
    requires
        0 <= n,
    ensures
        turns_of(lines, n, reader).len() <= n,
    decreases n,
{
    if n > 0 {
        lemma_turns_bounded(lines, n - 1, reader);
    }
}

/// At most one count per turn.
proof fn lemma_human_bounded(turns: Seq<Seq<char>>, n: int)
    requires
        0 <= n,
    ensures
        human_after_launch(turns, n) <= n,
    decreases n,
{
    if n > 1 {
        lemma_human_bounded(turns, n - 1);
    }
}

/// A transcript with at least one human turn always has a count (zero when
/// only the launch prompt is there); one with none has no count.
pub proof fn law_count_present_iff_turns(turns: Seq<Seq<char>>)
    ensures
        count_after_launch_spec(turns) is Some <==> turns.len() > 0,
        turns.len() == 1 ==> count_after_launch_spec(turns) == Some(0u32),
{
}

} // verus!
