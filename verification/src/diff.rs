//! Structured diff: a unified `git diff` read into files → hunks → lines.
//!
//! Best-effort and total: a chunk it does not fully understand still yields a
//! file with whatever it could read. Paths come from, in order of preference,
//! `rename from/to` (or `copy from/to`), the `---`/`+++` markers, the
//! `Binary files … differ` line, and last the `diff --git` header. Counts are
//! the `+`/`-` lines inside hunks; a binary file counts 0/0 with no hunks.
use vstd::prelude::*;
use vstd::utf8::{decode_utf8, encode_utf8, valid_utf8};
use crate::text::{
    after_prefix, all_space, before_suffix, occurs_at, contains_text, is_space, chars_of, first_occurrence, find, has_prefix, has_suffix,
    is_blank, parse_u32, parsed_u32, same_text, slice_vec, split_exec, split_on, string_of,
};

verus! {

broadcast use vstd::string::group_string_axioms;

// ───────────────────────────── data ─────────────────────────────

/// How a file changed.
#[derive(Debug, PartialEq, Eq, Clone, Copy)]
pub enum FileStatus {
    Added,
    Deleted,
    Modified,
    Renamed,
    Copied,
}

/// What a hunk line is.
#[derive(Debug, PartialEq, Eq, Clone, Copy)]
pub enum LineKind {
    Context,
    Add,
    Del,
}

/// One line of a hunk. `old_no`/`new_no` are the 1-based line numbers on each
/// side, `None` on the side the line does not exist on.
#[derive(Debug, PartialEq, Eq, Clone)]
pub struct DiffLine {
    pub kind: LineKind,
    /// The line text without its leading `+`/`-`/space marker.
    pub content: String,
    pub old_no: Option<u32>,
    pub new_no: Option<u32>,
}

/// One hunk: its header ranges, function context and lines.
#[derive(Debug, PartialEq, Eq, Clone)]
pub struct Hunk {
    pub old_start: u32,
    pub old_lines: u32,
    pub new_start: u32,
    pub new_lines: u32,
    /// The function context after the second `@@` (may be empty).
    pub header: String,
    pub lines: Vec<DiffLine>,
}

/// One file of the patch.
#[derive(Debug, PartialEq, Eq, Clone)]
pub struct FileDiff {
    /// Source path, `None` for a pure addition.
    pub old_path: Option<String>,
    /// Destination path, `None` for a pure deletion.
    pub new_path: Option<String>,
    pub status: FileStatus,
    pub binary: bool,
    pub additions: u32,
    pub deletions: u32,
    pub hunks: Vec<Hunk>,
}

/// The value of a [`DiffLine`].
pub struct DiffLineV {
    pub kind: LineKind,
    pub content: Seq<char>,
    pub old_no: Option<u32>,
    pub new_no: Option<u32>,
}

/// The value of a [`Hunk`].
pub struct HunkV {
    pub old_start: u32,
    pub old_lines: u32,
    pub new_start: u32,
    pub new_lines: u32,
    pub header: Seq<char>,
    pub lines: Seq<DiffLineV>,
}

/// The value of a [`FileDiff`].
pub struct FileDiffV {
    pub old_path: Option<Seq<char>>,
    pub new_path: Option<Seq<char>>,
    pub status: FileStatus,
    pub binary: bool,
    pub additions: u32,
    pub deletions: u32,
    pub hunks: Seq<HunkV>,
}

impl View for DiffLine {
    type V = DiffLineV;

    open spec fn view(&self) -> DiffLineV {
        DiffLineV { kind: self.kind, content: self.content@, old_no: self.old_no, new_no: self.new_no }
    }
}

impl View for Hunk {
    type V = HunkV;

    open spec fn view(&self) -> HunkV {
        HunkV {
            old_start: self.old_start,
            old_lines: self.old_lines,
            new_start: self.new_start,
            new_lines: self.new_lines,
            header: self.header@,
            lines: self.lines@.map_values(|l: DiffLine| l@),
        }
    }
}

/// The value of an optional path.
pub open spec fn path_view(p: Option<String>) -> Option<Seq<char>> {
    match p {
        Some(s) => Some(s@),
        None => None,
    }
}

impl View for FileDiff {
    type V = FileDiffV;

    open spec fn view(&self) -> FileDiffV {
        FileDiffV {
            old_path: path_view(self.old_path),
            new_path: path_view(self.new_path),
            status: self.status,
            binary: self.binary,
            additions: self.additions,
            deletions: self.deletions,
            hunks: self.hunks@.map_values(|h: Hunk| h@),
        }
    }
}

// ───────────────────────────── small readers ─────────────────────────────

/// `s.split_once(p)`: around the first occurrence of `p`.
pub open spec fn split_once_spec(s: Seq<char>, p: Seq<char>) -> Option<(Seq<char>, Seq<char>)> {
    match first_occurrence(s, p) {
        Some(i) => Some((s.subrange(0, i), s.subrange(i + p.len(), s.len() as int))),
        None => None,
    }
}

/// `a[,b]`: start and count, the count defaulting to 1.
pub open spec fn parse_range_spec(s: Seq<char>) -> Option<(u32, u32)> {
    match split_once_spec(s, ","@) {
        Some((a, b)) => match parsed_u32(a) {
            Some(x) => match parsed_u32(b) {
                Some(y) => Some((x, y)),
                None => None,
            },
            None => None,
        },
        None => match parsed_u32(s) {
            Some(x) => Some((x, 1)),
            None => None,
        },
    }
}

/// The function context after the second `@@`, without its leading space.
pub open spec fn hunk_context(header: Seq<char>) -> Seq<char> {
    if header.len() > 0 && header[0] == ' ' {
        header.drop_first()
    } else {
        header
    }
}

/// The hunk described by `-a[,b] +c[,d]` and its context.
pub open spec fn hunk_of_parts(ranges: Seq<char>, header: Seq<char>) -> Option<HunkV> {
    match split_once_spec(ranges, " +"@) {
        None => None,
        Some((old, new)) => match parse_range_spec(old) {
            None => None,
            Some((old_start, old_lines)) => match parse_range_spec(new) {
                None => None,
                Some((new_start, new_lines)) => Some(
                    HunkV {
                        old_start,
                        old_lines,
                        new_start,
                        new_lines,
                        header: hunk_context(header),
                        lines: Seq::empty(),
                    },
                ),
            },
        },
    }
}

/// `@@ -a[,b] +c[,d] @@[ header]`, as a hunk with no lines yet.
pub open spec fn parse_hunk_header_spec(line: Seq<char>) -> Option<HunkV> {
    if !has_prefix(line, "@@ -"@) {
        None
    } else {
        match split_once_spec(after_prefix(line, "@@ -"@), " @@"@) {
            None => None,
            Some((ranges, header)) => hunk_of_parts(ranges, header),
        }
    }
}

/// An octal digit byte.
pub open spec fn is_octal(b: u8) -> bool {
    48 <= b <= 55
}

/// How many leading octal digits `s` has, at most three.
pub open spec fn octal_run(s: Seq<u8>) -> nat {
    if s.len() > 0 && is_octal(s[0]) {
        if s.len() > 1 && is_octal(s[1]) {
            if s.len() > 2 && is_octal(s[2]) {
                3
            } else {
                2
            }
        } else {
            1
        }
    } else {
        0
    }
}

/// The value of the first `n` octal digits of `s`.
pub open spec fn octal_value(s: Seq<u8>, n: nat) -> nat
    decreases n,
{
    if n == 0 {
        0
    } else {
        (octal_value(s, (n - 1) as nat) * 8 + (s[n - 1] - 48)) as nat
    }
}

/// The byte a `\x` escape stands for (unknown escapes keep the letter).
pub open spec fn escape_byte(n: u8) -> u8 {
    if n == 97 {
        7
    } else if n == 98 {
        8
    } else if n == 102 {
        12
    } else if n == 110 {
        10
    } else if n == 114 {
        13
    } else if n == 116 {
        9
    } else if n == 118 {
        11
    } else {
        n
    }
}

/// C-unquoting on bytes: octal escapes are raw bytes (the low eight bits of
/// up to three digits), letter escapes map to control bytes, a trailing lone
/// backslash is dropped.
pub open spec fn unquote_bytes(src: Seq<u8>) -> Seq<u8>
    decreases src.len(),
{
    if src.len() == 0 {
        Seq::empty()
    } else if src[0] != 92 {
        seq![src[0]] + unquote_bytes(src.drop_first())
    } else if src.len() == 1 {
        Seq::empty()
    } else if is_octal(src[1]) {
        let k = octal_run(src.drop_first());
        seq![(octal_value(src.drop_first(), k) % 256) as u8] + unquote_bytes(src.skip(1 + k as int))
    } else {
        seq![escape_byte(src[1])] + unquote_bytes(src.skip(2))
    }
}

/// What `String::from_utf8_lossy` makes of `bytes`.
pub uninterp spec fn utf8_lossy(bytes: Seq<u8>) -> Seq<char>;

/// `inner` C-unquoted: its UTF-8 bytes unescaped, then decoded (lossily).
pub open spec fn c_unquote_spec(inner: Seq<char>) -> Seq<char> {
    utf8_lossy(unquote_bytes(encode_utf8(inner)))
}

/// A git path token: C-unquoted when wrapped in double quotes, else verbatim;
/// `None` for an empty token.
pub open spec fn decode_path_spec(token: Seq<char>) -> Option<Seq<char>> {
    if token.len() == 0 {
        None
    } else if token.len() >= 2 && token[0] == '"' && token.last() == '"' {
        Some(c_unquote_spec(token.subrange(1, token.len() - 1)))
    } else {
        Some(token)
    }
}

/// A path token read as a side of the diff: `/dev/null` is no path, and the
/// `a/`/`b/` prefix is dropped.
pub open spec fn side_path_spec(token: Seq<char>, prefix: Seq<char>) -> Option<Seq<char>> {
    match decode_path_spec(token) {
        None => None,
        Some(path) => if path == "/dev/null"@ {
            None
        } else if has_prefix(path, prefix) {
            Some(after_prefix(path, prefix))
        } else {
            Some(path)
        },
    }
}

/// The path of a `--- `/`+++ ` marker: git's trailing tab (paths with
/// spaces) removed first.
pub open spec fn marker_path_spec(rest: Seq<char>, prefix: Seq<char>) -> Option<Seq<char>> {
    let r = if rest.len() > 0 && rest.last() == '\t' { rest.drop_last() } else { rest };
    side_path_spec(r, prefix)
}

/// The path of a mode-only change, read from `diff --git a/X b/X` (both
/// halves must name the same path).
pub open spec fn header_path_spec(header: Seq<char>) -> Option<Seq<char>> {
    if has_prefix(header, "diff --git "@) {
        let rest = after_prefix(header, "diff --git "@);
        if rest.len() >= 5 && (rest.len() - 5) % 2 == 0 {
            let x = rest.subrange(2, 2 + (rest.len() - 5) / 2);
            if rest == "a/"@ + x + " b/"@ + x {
                Some(x)
            } else {
                None
            }
        } else {
            None
        }
    } else {
        None
    }
}

// ───────────────────────────── the chunk fold ─────────────────────────────

/// What the reader has gathered so far in one file's chunk.
pub struct ChunkSt {
    pub rename_from: Option<Seq<char>>,
    pub rename_to: Option<Seq<char>>,
    pub copy_from: Option<Seq<char>>,
    pub copy_to: Option<Seq<char>>,
    /// `Some(None)`: the marker was seen and named `/dev/null`.
    pub minus_path: Option<Option<Seq<char>>>,
    pub plus_path: Option<Option<Seq<char>>>,
    pub binary_old: Option<Seq<char>>,
    pub binary_new: Option<Seq<char>>,
    pub binary: bool,
    pub new_file_mode: bool,
    pub deleted_file_mode: bool,
    pub hunks: Seq<HunkV>,
    pub additions: int,
    pub deletions: int,
    pub old_no: int,
    pub new_no: int,
    pub in_hunk: bool,
}

/// Nothing read yet.
pub open spec fn chunk_start() -> ChunkSt {
    ChunkSt {
        rename_from: None,
        rename_to: None,
        copy_from: None,
        copy_to: None,
        minus_path: None,
        plus_path: None,
        binary_old: None,
        binary_new: None,
        binary: false,
        new_file_mode: false,
        deleted_file_mode: false,
        hunks: Seq::empty(),
        additions: 0,
        deletions: 0,
        old_no: 0,
        new_no: 0,
        in_hunk: false,
    }
}

/// `l` appended to the last hunk (if any).
pub open spec fn with_line(st: ChunkSt, l: DiffLineV) -> Seq<HunkV> {
    if st.hunks.len() > 0 {
        let last = st.hunks.last();
        st.hunks.update(st.hunks.len() - 1, HunkV { lines: last.lines.push(l), ..last })
    } else {
        st.hunks
    }
}

/// The effect of a line that is not a hunk body line.
#[verifier::opaque]
pub open spec fn header_step(st: ChunkSt, line: Seq<char>) -> ChunkSt {
    match parse_hunk_header_spec(line) {
        Some(h) => ChunkSt {
            old_no: h.old_start as int,
            new_no: h.new_start as int,
            hunks: st.hunks.push(h),
            in_hunk: true,
            ..st
        },
        None => if has_prefix(line, "rename from "@) {
            ChunkSt { rename_from: decode_path_spec(after_prefix(line, "rename from "@)), ..st }
        } else if has_prefix(line, "rename to "@) {
            ChunkSt { rename_to: decode_path_spec(after_prefix(line, "rename to "@)), ..st }
        } else if has_prefix(line, "copy from "@) {
            ChunkSt { copy_from: decode_path_spec(after_prefix(line, "copy from "@)), ..st }
        } else if has_prefix(line, "copy to "@) {
            ChunkSt { copy_to: decode_path_spec(after_prefix(line, "copy to "@)), ..st }
        } else if has_prefix(line, "new file mode "@) {
            ChunkSt { new_file_mode: true, ..st }
        } else if has_prefix(line, "deleted file mode "@) {
            ChunkSt { deleted_file_mode: true, ..st }
        } else if has_prefix(line, "--- "@) {
            ChunkSt { minus_path: Some(marker_path_spec(after_prefix(line, "--- "@), "a/"@)), ..st }
        } else if has_prefix(line, "+++ "@) {
            ChunkSt { plus_path: Some(marker_path_spec(after_prefix(line, "+++ "@), "b/"@)), ..st }
        } else if line == "GIT binary patch"@ {
            ChunkSt { binary: true, ..st }
        } else if has_prefix(line, "Binary files "@) {
            let rest = after_prefix(line, "Binary files "@);
            if has_suffix(rest, " differ"@) {
                match split_once_spec(before_suffix(rest, " differ"@), " and "@) {
                    Some((a, b)) => ChunkSt {
                        binary: true,
                        binary_old: side_path_spec(a, "a/"@),
                        binary_new: side_path_spec(b, "b/"@),
                        ..st
                    },
                    None => ChunkSt { binary: true, ..st },
                }
            } else {
                ChunkSt { binary: true, ..st }
            }
        } else {
            st
        },
    }
}

/// A `u32` counter one step on: past `u32::MAX` it wraps to 0, as unchecked
/// `u32` arithmetic does.
pub open spec fn next_count(n: int) -> int {
    if n >= u32::MAX {
        0
    } else {
        n + 1
    }
}

/// A `u32` counter one step on.
fn next_count_exec(n: u32) -> (r: u32)
    ensures
        r == next_count(n as int),
{
    n.wrapping_add(1)
}

/// The effect of one line of a chunk (after its `diff --git` header).
#[verifier::opaque]
pub open spec fn chunk_step(st: ChunkSt, line: Seq<char>) -> ChunkSt {
    if st.in_hunk && line.len() > 0 && line[0] == '+' {
        ChunkSt {
            hunks: with_line(
                st,
                DiffLineV {
                    kind: LineKind::Add,
                    content: line.drop_first(),
                    old_no: None,
                    new_no: Some(st.new_no as u32),
                },
            ),
            new_no: next_count(st.new_no),
            additions: next_count(st.additions),
            ..st
        }
    } else if st.in_hunk && line.len() > 0 && line[0] == '-' {
        ChunkSt {
            hunks: with_line(
                st,
                DiffLineV {
                    kind: LineKind::Del,
                    content: line.drop_first(),
                    old_no: Some(st.old_no as u32),
                    new_no: None,
                },
            ),
            old_no: next_count(st.old_no),
            deletions: next_count(st.deletions),
            ..st
        }
    } else if st.in_hunk && line.len() > 0 && line[0] == ' ' {
        ChunkSt {
            hunks: with_line(
                st,
                DiffLineV {
                    kind: LineKind::Context,
                    content: line.drop_first(),
                    old_no: Some(st.old_no as u32),
                    new_no: Some(st.new_no as u32),
                },
            ),
            old_no: next_count(st.old_no),
            new_no: next_count(st.new_no),
            ..st
        }
    } else if st.in_hunk && (line.len() == 0 || line[0] == '\\') {
        st
    } else {
        header_step(ChunkSt { in_hunk: false, ..st }, line)
    }
}

/// The state after reading the first `n` lines of a chunk (line 0 is the
/// `diff --git` header, read only for the last-resort path).
pub open spec fn chunk_state(lines: Seq<Seq<char>>, n: int) -> ChunkSt
    decreases n,
{
    if n <= 1 {
        chunk_start()
    } else {
        chunk_step(chunk_state(lines, n - 1), lines[n - 1])
    }
}

/// The file's paths: rename/copy lines, else the markers, else the
/// `Binary files` line, else the `diff --git` header.
pub open spec fn chunk_paths(header: Seq<char>, st: ChunkSt) -> (Option<Seq<char>>, Option<Seq<char>>) {
    if st.rename_from is Some || st.rename_to is Some {
        (st.rename_from, st.rename_to)
    } else if st.copy_from is Some || st.copy_to is Some {
        (st.copy_from, st.copy_to)
    } else if st.minus_path is Some || st.plus_path is Some {
        (flatten(st.minus_path), flatten(st.plus_path))
    } else if st.binary_old is Some || st.binary_new is Some {
        (st.binary_old, st.binary_new)
    } else {
        (header_path_spec(header), header_path_spec(header))
    }
}

/// How the file changed, given its paths.
pub open spec fn chunk_status(st: ChunkSt, old_path: Option<Seq<char>>, new_path: Option<Seq<char>>) -> FileStatus {
    let is_rename = st.rename_from is Some || st.rename_to is Some;
    let is_copy = !is_rename && (st.copy_from is Some || st.copy_to is Some);
    if is_rename {
        FileStatus::Renamed
    } else if is_copy {
        FileStatus::Copied
    } else if st.new_file_mode || old_path is None {
        FileStatus::Added
    } else if st.deleted_file_mode || new_path is None {
        FileStatus::Deleted
    } else {
        FileStatus::Modified
    }
}

/// The file a chunk describes.
pub open spec fn finish_chunk(header: Seq<char>, st: ChunkSt) -> FileDiffV {
    let (old_path, new_path) = chunk_paths(header, st);
    FileDiffV {
        old_path,
        new_path,
        status: chunk_status(st, old_path, new_path),
        binary: st.binary,
        additions: if st.binary { 0 } else { st.additions as u32 },
        deletions: if st.binary { 0 } else { st.deletions as u32 },
        hunks: if st.binary { Seq::empty() } else { st.hunks },
    }
}

/// `Option::flatten`.
pub open spec fn flatten(o: Option<Option<Seq<char>>>) -> Option<Seq<char>> {
    match o {
        Some(Some(p)) => Some(p),
        _ => None,
    }
}

/// The file one chunk (`diff --git` header first) describes.
pub open spec fn parse_chunk_spec(lines: Seq<Seq<char>>) -> FileDiffV {
    finish_chunk(lines[0], chunk_state(lines, lines.len() as int))
}

/// The chunks among the first `n` lines: each `diff --git ` line opens one,
/// other lines join the current one, and lines before the first are dropped.
pub open spec fn chunks_upto(lines: Seq<Seq<char>>, n: int) -> Seq<Seq<Seq<char>>>
    decreases n,
{
    if n <= 0 {
        Seq::empty()
    } else {
        let prev = chunks_upto(lines, n - 1);
        let l = lines[n - 1];
        if has_prefix(l, "diff --git "@) {
            prev.push(seq![l])
        } else if prev.len() > 0 {
            prev.update(prev.len() - 1, prev.last().push(l))
        } else {
            prev
        }
    }
}

/// The per-file chunks of a patch.
pub open spec fn patch_chunks(raw: Seq<char>) -> Seq<Seq<Seq<char>>> {
    let lines = split_on(raw, '\n');
    chunks_upto(lines, lines.len() as int)
}

/// The files of a unified diff, in patch order: none for blank input.
pub open spec fn parse_patch_spec(raw: Seq<char>) -> Seq<FileDiffV> {
    if all_space(raw) {
        Seq::empty()
    } else {
        patch_chunks(raw).map_values(|c: Seq<Seq<char>>| parse_chunk_spec(c))
    }
}

// ───────────────────────────── lemmas ─────────────────────────────

/// Every chunk is non-empty.
proof fn lemma_chunks_nonempty(lines: Seq<Seq<char>>, n: int)
    requires
        0 <= n <= lines.len(),
    ensures
        forall|i: int| 0 <= i < chunks_upto(lines, n).len() ==> #[trigger] chunks_upto(lines, n)[i].len() > 0,
    decreases n,
{
    if n > 0 {
        lemma_chunks_nonempty(lines, n - 1);
        let prev = chunks_upto(lines, n - 1);
        let cur = chunks_upto(lines, n);
        assert forall|i: int| 0 <= i < cur.len() implies #[trigger] cur[i].len() > 0 by {
            if i < prev.len() {
                assert(prev[i].len() > 0);
            }
        }
    }
}

/// A line that starts with none of the rename/copy markers.
pub open spec fn no_rename_or_copy(line: Seq<char>) -> bool {
    !has_prefix(line, "rename from "@) && !has_prefix(line, "rename to "@) && !has_prefix(line, "copy from "@)
        && !has_prefix(line, "copy to "@)
}

/// A line that starts `new file mode ` starts with none of the other
/// markers a header line is told by.
proof fn lemma_new_file_line(line: Seq<char>)
    requires
        has_prefix(line, "new file mode "@),
    ensures
        no_rename_or_copy(line),
        !has_prefix(line, "@@ -"@),
        line.len() > 0 && line[0] == 'n',
{
    reveal_strlit("new file mode ");
    reveal_strlit("rename from ");
    reveal_strlit("rename to ");
    reveal_strlit("copy from ");
    reveal_strlit("copy to ");
    reveal_strlit("@@ -");
    assert(line.subrange(0, 14)[0] == 'n');
    assert(line[0] == 'n');
    if has_prefix(line, "@@ -"@) {
        assert(line.subrange(0, 4)[0] == '@');
    }
    if has_prefix(line, "rename from "@) {
        assert(line.subrange(0, 12)[0] == 'r');
    }
    if has_prefix(line, "rename to "@) {
        assert(line.subrange(0, 10)[0] == 'r');
    }
    if has_prefix(line, "copy from "@) {
        assert(line.subrange(0, 10)[0] == 'c');
    }
    if has_prefix(line, "copy to "@) {
        assert(line.subrange(0, 8)[0] == 'c');
    }
}

/// A header line keeps the rename/copy reading when it is no such line,
/// never clears the `new file mode` flag, and sets it when it is such a
/// line.
proof fn lemma_header_flags(st: ChunkSt, line: Seq<char>)
    ensures
        no_rename_or_copy(line) ==> header_step(st, line).rename_from == st.rename_from && header_step(st, line).rename_to
            == st.rename_to && header_step(st, line).copy_from == st.copy_from && header_step(st, line).copy_to
            == st.copy_to,
        st.new_file_mode ==> header_step(st, line).new_file_mode,
        has_prefix(line, "new file mode "@) ==> header_step(st, line).new_file_mode,
{
    reveal(header_step);
    if has_prefix(line, "new file mode "@) {
        lemma_new_file_line(line);
    }
}

/// One line of a chunk does to those flags what a header line does.
proof fn lemma_step_flags(st: ChunkSt, line: Seq<char>)
    ensures
        no_rename_or_copy(line) ==> chunk_step(st, line).rename_from == st.rename_from && chunk_step(st, line).rename_to
            == st.rename_to && chunk_step(st, line).copy_from == st.copy_from && chunk_step(st, line).copy_to
            == st.copy_to,
        st.new_file_mode ==> chunk_step(st, line).new_file_mode,
        has_prefix(line, "new file mode "@) ==> chunk_step(st, line).new_file_mode,
{
    reveal(chunk_step);
    let cleared = ChunkSt { in_hunk: false, ..st };
    lemma_header_flags(cleared, line);
    if has_prefix(line, "new file mode "@) {
        lemma_new_file_line(line);
    }
}

/// The rename/copy reading and the `new file mode` flag after `n` lines.
proof fn lemma_state_flags(lines: Seq<Seq<char>>, n: int)
    requires
        1 <= n <= lines.len(),
        forall|k: int| 1 <= k < lines.len() ==> no_rename_or_copy(#[trigger] lines[k]),
    ensures
        chunk_state(lines, n).rename_from is None,
        chunk_state(lines, n).rename_to is None,
        chunk_state(lines, n).copy_from is None,
        chunk_state(lines, n).copy_to is None,
        (exists|k: int| 1 <= k < n && has_prefix(#[trigger] lines[k], "new file mode "@)) ==> chunk_state(
            lines,
            n,
        ).new_file_mode,
    decreases n,
{
    if n > 1 {
        lemma_state_flags(lines, n - 1);
        lemma_step_flags(chunk_state(lines, n - 1), lines[n - 1]);
        assert(no_rename_or_copy(lines[n - 1]));
        if exists|k: int| 1 <= k < n && has_prefix(#[trigger] lines[k], "new file mode "@) {
            let k = choose|k: int| 1 <= k < n && has_prefix(#[trigger] lines[k], "new file mode "@);
            if k < n - 1 {
                assert(exists|j: int| 1 <= j < n - 1 && has_prefix(#[trigger] lines[j], "new file mode "@));
            }
        }
    }
}

/// A chunk that carries a `new file mode` line, and no rename or copy line,
/// is an added file, whatever paths it names.
pub proof fn law_a_new_file_mode_chunk_is_added(lines: Seq<Seq<char>>, k: int)
    requires
        1 <= k < lines.len(),
        has_prefix(lines[k], "new file mode "@),
        forall|j: int| 1 <= j < lines.len() ==> no_rename_or_copy(#[trigger] lines[j]),
    ensures
        parse_chunk_spec(lines).status == FileStatus::Added,
{
    lemma_state_flags(lines, lines.len() as int);
    assert(has_prefix(lines[k], "new file mode "@));
}

// ───────────────────────────── execution: readers ─────────────────────────────

/// `s` without the literal prefix `lit`, when it has it.
fn strip_lit(s: &[char], lit: &str) -> (r: Option<Vec<char>>)
    ensures
        match r {
            Some(v) => has_prefix(s@, lit@) && v@ == after_prefix(s@, lit@),
            None => !has_prefix(s@, lit@),
        },
{
    let p = chars_of(lit);
    if crate::text::starts_with(s, &p) {
        Some(slice_vec(s, p.len(), s.len()))
    } else {
        None
    }
}

/// `s.split_once(pat)`.
fn split_once(s: &[char], pat: &str) -> (r: Option<(Vec<char>, Vec<char>)>)
    ensures
        match r {
            Some((a, b)) => split_once_spec(s@, pat@) == Some((a@, b@)),
            None => split_once_spec(s@, pat@) is None,
        },
{
    let p = chars_of(pat);
    match find(s, &p) {
        Some(i) => {
            let n = s.len();
            assert(occurs_at(s@, p@, i as int));
            let j = i + p.len();
            Some((slice_vec(s, 0, i), slice_vec(s, j, n)))
        },
        None => None,
    }
}

/// `a[,b]`.
fn parse_range(s: &[char]) -> (r: Option<(u32, u32)>)
    ensures
        r == parse_range_spec(s@),
{
    match split_once(s, ",") {
        Some((a, b)) => {
            let x = match parse_u32(&a) {
                Some(x) => x,
                None => return None,
            };
            let y = match parse_u32(&b) {
                Some(y) => y,
                None => return None,
            };
            Some((x, y))
        },
        None => match parse_u32(s) {
            Some(x) => Some((x, 1)),
            None => None,
        },
    }
}

/// The hunk described by `-a[,b] +c[,d]` and its context.
fn hunk_from_parts(ranges: &[char], header: &[char]) -> (r: Option<Hunk>)
    ensures
        match r {
            Some(h) => hunk_of_parts(ranges@, header@) == Some(h@),
            None => hunk_of_parts(ranges@, header@) is None,
        },
{
    let (old, new) = match split_once(ranges, " +") {
        Some(p) => p,
        None => return None,
    };
    let (old_start, old_lines) = match parse_range(&old) {
        Some(p) => p,
        None => return None,
    };
    let (new_start, new_lines) = match parse_range(&new) {
        Some(p) => p,
        None => return None,
    };
    let head = if header.len() > 0 && header[0] == ' ' {
        slice_vec(header, 1, header.len())
    } else {
        slice_vec(header, 0, header.len())
    };
    assert(header@.subrange(0, header@.len() as int) == header@);
    assert(head@ == hunk_context(header@));
    let h = Hunk { old_start, old_lines, new_start, new_lines, header: string_of(&head), lines: Vec::new() };
    assert(h@.lines =~= Seq::<DiffLineV>::empty());
    Some(h)
}

/// `@@ -a[,b] +c[,d] @@[ header]`.
fn parse_hunk_header(line: &[char]) -> (r: Option<Hunk>)
    ensures
        match r {
            Some(h) => parse_hunk_header_spec(line@) == Some(h@),
            None => parse_hunk_header_spec(line@) is None,
        },
{
    let rest = match strip_lit(line, "@@ -") {
        Some(r) => r,
        None => return None,
    };
    match split_once(&rest, " @@") {
        Some((ranges, header)) => hunk_from_parts(&ranges, &header),
        None => None,
    }
}

/// `String::from_utf8_lossy`: the text of `bytes`, with every invalid
/// sequence replaced by U+FFFD. Stated: the result is the lossy decoding of
/// exactly these bytes, and for valid UTF-8 it is the plain decoding.
#[verifier::external_body]
fn decode_lossy(bytes: &[u8]) -> (s: String)
    ensures
        s@ == utf8_lossy(bytes@),
        valid_utf8(bytes@) ==> s@ == decode_utf8(bytes@),
{
    String::from_utf8_lossy(bytes).into_owned()
}

/// The value of the leading octal digits of `src[from..]`, at most three.
fn octal_at(src: &[u8], from: usize) -> (r: (u32, usize))
    requires
        from <= src.len(),
    ensures
        r.1 == octal_run(src@.skip(from as int)),
        r.0 == octal_value(src@.skip(from as int), r.1 as nat),
        r.0 < 512,
{
    let ghost t = src@.skip(from as int);
    let mut j = from;
    let mut oct: u32 = 0;
    let mut digits: usize = 0;
    while j < src.len() && digits < 3 && 48 <= src[j] && src[j] <= 55
        invariant
            from <= j <= src.len(),
            digits == j - from,
            digits <= 3,
            t == src@.skip(from as int),
            oct == octal_value(t, digits as nat),
            oct < 8 * 8 * 8,
            forall|k: int| 0 <= k < digits ==> is_octal(#[trigger] t[k]),
            digits < 3 ==> oct < 8 * 8,
            digits < 2 ==> oct < 8,
            digits == 0 ==> oct == 0,
        decreases 3 - digits,
    {
        assert(t[digits as int] == src@[j as int]);
        oct = oct * 8 + (src[j] - 48) as u32;
        j += 1;
        digits += 1;
    }
    proof {
        if digits < 3 {
            if j < src.len() {
                assert(t[digits as int] == src@[j as int]);
            }
        }
    }
    (oct, digits)
}

/// C-unquoting on bytes.
fn unquote(src: &[u8]) -> (r: Vec<u8>)
    ensures
        r@ == unquote_bytes(src@),
{
    let mut out: Vec<u8> = Vec::new();
    let mut i: usize = 0;
    assert(src@.skip(0) == src@);
    while i < src.len()
        invariant
            i <= src.len(),
            out@ + unquote_bytes(src@.skip(i as int)) == unquote_bytes(src@),
        decreases src.len() - i,
    {
        let ghost rest = src@.skip(i as int);
        let c = src[i];
        assert(rest[0] == c);
        if c != 92 {
            out.push(c);
            assert(rest.drop_first() == src@.skip(i + 1));
            i += 1;
        } else if i + 1 >= src.len() {
            assert(rest.len() == 1);
            i = src.len();
            assert(src@.skip(i as int).len() == 0);
        } else {
            let n = src[i + 1];
            assert(rest[1] == n);
            if 48 <= n && n <= 55 {
                let (oct, k) = octal_at(src, i + 1);
                assert(rest.drop_first() == src@.skip(i + 1));
                out.push((oct % 256) as u8);
                assert(rest.skip(1 + k) == src@.skip(i + 1 + k));
                i = i + 1 + k;
            } else {
                let b: u8 = if n == 97 {
                    7
                } else if n == 98 {
                    8
                } else if n == 102 {
                    12
                } else if n == 110 {
                    10
                } else if n == 114 {
                    13
                } else if n == 116 {
                    9
                } else if n == 118 {
                    11
                } else {
                    n
                };
                out.push(b);
                assert(rest.skip(2) == src@.skip(i + 2));
                i = i + 2;
            }
        }
    }
    assert(unquote_bytes(src@.skip(i as int)) == Seq::<u8>::empty());
    assert(out@ + Seq::<u8>::empty() == out@);
    out
}

/// C-unquote the inside of a double-quoted git path.
fn c_unquote(inner: &[char]) -> (r: Vec<char>)
    ensures
        r@ == c_unquote_spec(inner@),
{
    let s = string_of(inner);
    let bytes = s.as_str().as_bytes();
    let raw = unquote(bytes);
    let text = decode_lossy(&raw);
    chars_of(text.as_str())
}

/// A git path token, C-unquoted when double-quoted.
fn decode_path(token: &[char]) -> (r: Option<Vec<char>>)
    ensures
        match r {
            Some(p) => decode_path_spec(token@) == Some(p@),
            None => decode_path_spec(token@) is None,
        },
{
    if token.len() == 0 {
        return None;
    }
    if token.len() >= 2 && token[0] == '"' && token[token.len() - 1] == '"' {
        let inner = slice_vec(token, 1, token.len() - 1);
        return Some(c_unquote(&inner));
    }
    Some(slice_vec(token, 0, token.len()))
}

/// A side path: `/dev/null` is none, the `a/`/`b/` prefix is dropped.
fn side_path(token: &[char], prefix: &str) -> (r: Option<Vec<char>>)
    ensures
        match r {
            Some(p) => side_path_spec(token@, prefix@) == Some(p@),
            None => side_path_spec(token@, prefix@) is None,
        },
{
    let path = decode_path(token)?;
    let null = chars_of("/dev/null");
    if same_text(&path, &null) {
        return None;
    }
    match strip_lit(&path, prefix) {
        Some(p) => Some(p),
        None => Some(path),
    }
}

/// The path of a `--- `/`+++ ` marker.
fn marker_path(rest: &[char], prefix: &str) -> (r: Option<Vec<char>>)
    ensures
        match r {
            Some(p) => marker_path_spec(rest@, prefix@) == Some(p@),
            None => marker_path_spec(rest@, prefix@) is None,
        },
{
    if rest.len() > 0 && rest[rest.len() - 1] == '\t' {
        let r = slice_vec(rest, 0, rest.len() - 1);
        side_path(&r, prefix)
    } else {
        side_path(rest, prefix)
    }
}

/// The path of a mode-only change, from the `diff --git` header.
fn header_path(header: &[char]) -> (r: Option<Vec<char>>)
    ensures
        match r {
            Some(p) => header_path_spec(header@) == Some(p@),
            None => header_path_spec(header@) is None,
        },
{
    let rest = strip_lit(header, "diff --git ")?;
    if rest.len() < 5 || (rest.len() - 5) % 2 != 0 {
        return None;
    }
    let half = (rest.len() - 5) / 2;
    let x = slice_vec(&rest, 2, 2 + half);
    let mut expect: Vec<char> = Vec::new();
    crate::text::push_str(&mut expect, "a/");
    crate::text::push_all(&mut expect, &x);
    crate::text::push_str(&mut expect, " b/");
    crate::text::push_all(&mut expect, &x);
    if same_text(&rest, &expect) {
        Some(x)
    } else {
        None
    }
}

// ───────────────────────────── execution: the chunk fold ─────────────────────────────

/// The reader's state while walking one chunk.
struct ChunkAcc {
    rename_from: Option<Vec<char>>,
    rename_to: Option<Vec<char>>,
    copy_from: Option<Vec<char>>,
    copy_to: Option<Vec<char>>,
    minus_path: Option<Option<Vec<char>>>,
    plus_path: Option<Option<Vec<char>>>,
    binary_old: Option<Vec<char>>,
    binary_new: Option<Vec<char>>,
    binary: bool,
    new_file_mode: bool,
    deleted_file_mode: bool,
    hunks: Vec<Hunk>,
    additions: u32,
    deletions: u32,
    old_no: u32,
    new_no: u32,
    in_hunk: bool,
}

/// The value of an optional character vector.
spec fn ov(o: Option<Vec<char>>) -> Option<Seq<char>> {
    match o {
        Some(v) => Some(v@),
        None => None,
    }
}

/// The value of a doubly optional character vector.
spec fn oov(o: Option<Option<Vec<char>>>) -> Option<Option<Seq<char>>> {
    match o {
        Some(x) => Some(ov(x)),
        None => None,
    }
}

impl View for ChunkAcc {
    type V = ChunkSt;

    closed spec fn view(&self) -> ChunkSt {
        ChunkSt {
            rename_from: ov(self.rename_from),
            rename_to: ov(self.rename_to),
            copy_from: ov(self.copy_from),
            copy_to: ov(self.copy_to),
            minus_path: oov(self.minus_path),
            plus_path: oov(self.plus_path),
            binary_old: ov(self.binary_old),
            binary_new: ov(self.binary_new),
            binary: self.binary,
            new_file_mode: self.new_file_mode,
            deleted_file_mode: self.deleted_file_mode,
            hunks: self.hunks@.map_values(|h: Hunk| h@),
            additions: self.additions as int,
            deletions: self.deletions as int,
            old_no: self.old_no as int,
            new_no: self.new_no as int,
            in_hunk: self.in_hunk,
        }
    }
}

impl ChunkAcc {
    fn new() -> (a: ChunkAcc)
        ensures
            a@ == chunk_start(),
    {
        let a = ChunkAcc {
            rename_from: None,
            rename_to: None,
            copy_from: None,
            copy_to: None,
            minus_path: None,
            plus_path: None,
            binary_old: None,
            binary_new: None,
            binary: false,
            new_file_mode: false,
            deleted_file_mode: false,
            hunks: Vec::new(),
            additions: 0,
            deletions: 0,
            old_no: 0,
            new_no: 0,
            in_hunk: false,
        };
        assert(a@.hunks =~= Seq::<HunkV>::empty());
        a
    }

    /// Append `l` to the last hunk, if any.
    fn push_line(&mut self, l: DiffLine)
        ensures
            final(self)@ == (ChunkSt { hunks: with_line(old(self)@, l@), ..old(self)@ }),
    {
        let ghost before = self@;
        match self.hunks.pop() {
            Some(mut h) => {
                let ghost hv = h@;
                h.lines.push(l);
                assert(h@.lines =~= hv.lines.push(l@));
                self.hunks.push(h);
                proof {
                    assert(self.hunks@.map_values(|h: Hunk| h@) =~= with_line(before, l@));
                }
            },
            None => {
                assert(self.hunks@.map_values(|h: Hunk| h@) =~= before.hunks);
            },
        }
        assert(self@ =~= (ChunkSt { hunks: with_line(before, l@), ..before }));
    }

    /// The effect of a line that is not a hunk body line.
    fn header_line(&mut self, line: &[char])
        ensures
            final(self)@ == header_step(old(self)@, line@),
    {
        reveal(header_step);
        let ghost before = self@;
        if let Some(h) = parse_hunk_header(line) {
            self.old_no = h.old_start;
            self.new_no = h.new_start;
            self.hunks.push(h);
            self.in_hunk = true;
            assert(self.hunks@.map_values(|h: Hunk| h@) =~= before.hunks.push(h@));
            assert(self@ =~= header_step(before, line@));
            return;
        }
        if let Some(p) = strip_lit(line, "rename from ") {
            self.rename_from = decode_path(&p);
        } else if let Some(p) = strip_lit(line, "rename to ") {
            self.rename_to = decode_path(&p);
        } else if let Some(p) = strip_lit(line, "copy from ") {
            self.copy_from = decode_path(&p);
        } else if let Some(p) = strip_lit(line, "copy to ") {
            self.copy_to = decode_path(&p);
        } else if strip_lit(line, "new file mode ").is_some() {
            self.new_file_mode = true;
        } else if strip_lit(line, "deleted file mode ").is_some() {
            self.deleted_file_mode = true;
        } else if let Some(rest) = strip_lit(line, "--- ") {
            self.minus_path = Some(marker_path(&rest, "a/"));
        } else if let Some(rest) = strip_lit(line, "+++ ") {
            self.plus_path = Some(marker_path(&rest, "b/"));
        } else if same_text(line, &chars_of("GIT binary patch")) {
            self.binary = true;
        } else if let Some(rest) = strip_lit(line, "Binary files ") {
            self.binary = true;
            let suffix = chars_of(" differ");
            if crate::text::ends_with(&rest, &suffix) {
                let mid = slice_vec(&rest, 0, rest.len() - suffix.len());
                if let Some((a, b)) = split_once(&mid, " and ") {
                    self.binary_old = side_path(&a, "a/");
                    self.binary_new = side_path(&b, "b/");
                }
            }
        }
        assert(self@ =~= header_step(before, line@));
    }

    /// The effect of one line of the chunk.
    fn step(&mut self, line: &[char])
        ensures
            final(self)@ == chunk_step(old(self)@, line@),
    {
        reveal(chunk_step);
        let ghost before = self@;
        if self.in_hunk && line.len() > 0 {
            if line[0] == '+' {
                let content = string_of(&slice_vec(line, 1, line.len()));
                let l = DiffLine { kind: LineKind::Add, content, old_no: None, new_no: Some(self.new_no) };
                self.push_line(l);
                self.new_no = next_count_exec(self.new_no);
                self.additions = next_count_exec(self.additions);
                assert(self@ =~= chunk_step(before, line@));
                return;
            }
            if line[0] == '-' {
                let content = string_of(&slice_vec(line, 1, line.len()));
                let l = DiffLine { kind: LineKind::Del, content, old_no: Some(self.old_no), new_no: None };
                self.push_line(l);
                self.old_no = next_count_exec(self.old_no);
                self.deletions = next_count_exec(self.deletions);
                assert(self@ =~= chunk_step(before, line@));
                return;
            }
            if line[0] == ' ' {
                let content = string_of(&slice_vec(line, 1, line.len()));
                let l = DiffLine {
                    kind: LineKind::Context,
                    content,
                    old_no: Some(self.old_no),
                    new_no: Some(self.new_no),
                };
                self.push_line(l);
                self.old_no = next_count_exec(self.old_no);
                self.new_no = next_count_exec(self.new_no);
                assert(self@ =~= chunk_step(before, line@));
                return;
            }
            if line[0] == '\\' {
                return;
            }
        }
        if self.in_hunk && line.len() == 0 {
            return;
        }
        self.in_hunk = false;
        assert(self@ == (ChunkSt { in_hunk: false, ..before }));
        self.header_line(line);
    }
}

/// An optional character vector as an optional `String`.
fn to_path(o: Option<Vec<char>>) -> (r: Option<String>)
    ensures
        path_view(r) == ov(o),
{
    match o {
        Some(v) => Some(string_of(&v)),
        None => None,
    }
}

/// Read one chunk (its `diff --git` header first) into a file.
fn parse_chunk(lines: &Vec<Vec<char>>) -> (f: FileDiff)
    requires
        lines@.len() >= 1,
    ensures
        f@ == parse_chunk_spec(lines@.map_values(|l: Vec<char>| l@)),
{
    let ghost ls = lines@.map_values(|l: Vec<char>| l@);
    let mut acc = ChunkAcc::new();
    let mut i: usize = 1;
    while i < lines.len()
        invariant
            1 <= i <= lines@.len(),
            ls == lines@.map_values(|l: Vec<char>| l@),
            acc@ == chunk_state(ls, i as int),
        decreases lines.len() - i,
    {
        assert(ls[i as int] == lines@[i as int]@);
        acc.step(&lines[i]);
        assert(chunk_state(ls, i + 1) == chunk_step(chunk_state(ls, i as int), ls[i as int]));
        i += 1;
    }
    proof {
        assert(ls[0] == lines@[0]@);
    }
    acc.finish(&lines[0])
}

impl ChunkAcc {
    /// The file's paths.
    fn paths(&self, header: &[char]) -> (r: (Option<Vec<char>>, Option<Vec<char>>))
        ensures
            (ov(r.0), ov(r.1)) == chunk_paths(header@, self@),
    {
        if self.rename_from.is_some() || self.rename_to.is_some() {
            (clone_opt(&self.rename_from), clone_opt(&self.rename_to))
        } else if self.copy_from.is_some() || self.copy_to.is_some() {
            (clone_opt(&self.copy_from), clone_opt(&self.copy_to))
        } else if self.minus_path.is_some() || self.plus_path.is_some() {
            let a = match &self.minus_path {
                Some(p) => clone_opt(p),
                None => None,
            };
            let b = match &self.plus_path {
                Some(p) => clone_opt(p),
                None => None,
            };
            (a, b)
        } else if self.binary_old.is_some() || self.binary_new.is_some() {
            (clone_opt(&self.binary_old), clone_opt(&self.binary_new))
        } else {
            (header_path(header), header_path(header))
        }
    }

    /// The file this chunk describes.
    fn finish(self, header: &[char]) -> (f: FileDiff)
        ensures
            f@ == finish_chunk(header@, self@),
    {
        let ghost sv = self@;
        let (old_path, new_path) = self.paths(header);
        let is_rename = self.rename_from.is_some() || self.rename_to.is_some();
        let is_copy = !is_rename && (self.copy_from.is_some() || self.copy_to.is_some());
        let status = if is_rename {
            FileStatus::Renamed
        } else if is_copy {
            FileStatus::Copied
        } else if self.new_file_mode || old_path.is_none() {
            FileStatus::Added
        } else if self.deleted_file_mode || new_path.is_none() {
            FileStatus::Deleted
        } else {
            FileStatus::Modified
        };
        assert(status == chunk_status(sv, ov(old_path), ov(new_path)));
        let binary = self.binary;
        let (additions, deletions, hunks) = if binary {
            (0, 0, Vec::new())
        } else {
            (self.additions, self.deletions, self.hunks)
        };
        let f = FileDiff {
            old_path: to_path(old_path),
            new_path: to_path(new_path),
            status,
            binary,
            additions,
            deletions,
            hunks,
        };
        assert(f@.hunks =~= finish_chunk(header@, sv).hunks);
        assert(f@ =~= finish_chunk(header@, sv));
        f
    }
}

/// A copy of an optional character vector.
fn clone_opt(o: &Option<Vec<char>>) -> (r: Option<Vec<char>>)
    ensures
        ov(r) == ov(*o),
{
    match o {
        Some(v) => {
            let c = slice_vec(v, 0, v.len());
            assert(v@.subrange(0, v@.len() as int) == v@);
            Some(c)
        },
        None => None,
    }
}

/// Group the lines of a patch into per-file chunks.
fn chunk_lines(lines: &Vec<Vec<char>>) -> (r: Vec<Vec<Vec<char>>>)
    ensures
        r@.len() == chunks_upto(lines@.map_values(|l: Vec<char>| l@), lines@.len() as int).len(),
        forall|i: int|
            0 <= i < r@.len() ==> (#[trigger] r@[i])@.map_values(|l: Vec<char>| l@) == chunks_upto(
                lines@.map_values(|l: Vec<char>| l@),
                lines@.len() as int,
            )[i],
{
    let ghost ls = lines@.map_values(|l: Vec<char>| l@);
    let mut chunks: Vec<Vec<Vec<char>>> = Vec::new();
    let head = chars_of("diff --git ");
    let mut i: usize = 0;
    while i < lines.len()
        invariant
            i <= lines@.len(),
            ls == lines@.map_values(|l: Vec<char>| l@),
            head@ == "diff --git "@,
            chunks@.len() == chunks_upto(ls, i as int).len(),
            forall|k: int|
                0 <= k < chunks@.len() ==> (#[trigger] chunks@[k])@.map_values(|l: Vec<char>| l@)
                    == chunks_upto(ls, i as int)[k],
        decreases lines.len() - i,
    {
        let line = slice_vec(&lines[i], 0, lines[i].len());
        assert(lines@[i as int]@.subrange(0, lines@[i as int]@.len() as int) == lines@[i as int]@);
        assert(line@ == ls[i as int]);
        let ghost prev = chunks_upto(ls, i as int);
        if crate::text::starts_with(&line, &head) {
            let mut c: Vec<Vec<char>> = Vec::new();
            c.push(line);
            chunks.push(c);
            proof {
                assert forall|k: int| 0 <= k < chunks@.len() implies (#[trigger] chunks@[k])@.map_values(
                    |l: Vec<char>| l@,
                ) == chunks_upto(ls, i + 1)[k] by {
                    if k == chunks@.len() - 1 {
                        assert(chunks@[k]@.map_values(|l: Vec<char>| l@) =~= seq![ls[i as int]]);
                    }
                }
            }
        } else if chunks.len() > 0 {
            let ghost before = chunks@;
            let mut last = chunks.pop().unwrap();
            last.push(line);
            chunks.push(last);
            proof {
                assert(chunks@ == before.update(before.len() - 1, chunks@.last()));
                assert forall|k: int| 0 <= k < chunks@.len() implies (#[trigger] chunks@[k])@.map_values(
                    |l: Vec<char>| l@,
                ) == chunks_upto(ls, i + 1)[k] by {
                    if k == chunks@.len() - 1 {
                        assert(before[k]@.map_values(|l: Vec<char>| l@) == prev[k]);
                        assert(chunks@[k]@.map_values(|l: Vec<char>| l@) =~= prev.last().push(ls[i as int]));
                    } else {
                        assert(chunks@[k] == before[k]);
                    }
                }
            }
        }
        i += 1;
    }
    chunks
}

/// Parse a full unified `git diff` into per-file sections, in patch order:
/// none for blank input, and never a failure — a chunk that cannot be
/// understood still yields a file with whatever could be read.
pub fn parse_patch(raw: &str) -> (r: Vec<FileDiff>)
    ensures
        r@.map_values(|f: FileDiff| f@) == parse_patch_spec(raw@),
{
    let text = chars_of(raw);
    if is_blank(&text) {
        let r: Vec<FileDiff> = Vec::new();
        assert(r@.map_values(|f: FileDiff| f@) =~= parse_patch_spec(raw@));
        return r;
    }
    let pieces = split_exec(&text, '\n');
    let ghost ls = pieces@.map_values(|l: Vec<char>| l@);
    assert(ls =~= split_on(raw@, '\n'));
    let chunks = chunk_lines(&pieces);
    let ghost cs = chunks_upto(ls, ls.len() as int);
    proof {
        lemma_chunks_nonempty(ls, ls.len() as int);
    }
    let mut out: Vec<FileDiff> = Vec::new();
    let mut i: usize = 0;
    while i < chunks.len()
        invariant
            i <= chunks@.len(),
            cs == patch_chunks(raw@),
            chunks@.len() == cs.len(),
            forall|k: int| 0 <= k < chunks@.len() ==> (#[trigger] chunks@[k])@.map_values(|l: Vec<char>| l@) == cs[k],
            forall|k: int| 0 <= k < cs.len() ==> #[trigger] cs[k].len() > 0,
            out@.len() == i,
            forall|k: int| 0 <= k < i ==> (#[trigger] out@[k])@ == parse_chunk_spec(cs[k]),
        decreases chunks.len() - i,
    {
        assert(chunks@[i as int]@.map_values(|l: Vec<char>| l@) == cs[i as int]);
        assert(cs[i as int].len() > 0);
        let f = parse_chunk(&chunks[i]);
        out.push(f);
        i += 1;
    }
    assert(out@.map_values(|f: FileDiff| f@) =~= parse_patch_spec(raw@));
    out
}

// ───────────────────────────── refs, paths, errors ─────────────────────────────

/// A control character (Unicode general category `Cc`): what
/// `char::is_control` tests.
pub open spec fn is_control_char(c: char) -> bool {
    (c as u32) <= 0x1f || (0x7f <= (c as u32) && (c as u32) <= 0x9f)
}

/// A ref that is safe to hand to `git` as a positional argument: non-empty,
/// no leading `-` (option injection), no white space or control character.
pub open spec fn safe_ref(r: Seq<char>) -> bool {
    r.len() > 0 && r[0] != '-' && forall|i: int| 0 <= i < r.len() ==> !is_space(#[trigger] r[i])
        && !is_control_char(r[i])
}

/// A repo-relative path that is safe for `git show <ref>:<path>`: non-empty,
/// no leading `-` or `/`, no NUL, and no `..` segment.
pub open spec fn safe_path(p: Seq<char>) -> bool {
    &&& p.len() > 0
    &&& p[0] != '-'
    &&& p[0] != '/'
    &&& !p.contains('\0')
    &&& forall|i: int| 0 <= i < split_on(p, '/').len() ==> #[trigger] split_on(p, '/')[i] != ".."@
}

/// Whether `r` is safe to pass to `git` as a ref.
pub fn is_safe_ref(r: &str) -> (b: bool)
    ensures
        b == safe_ref(r@),
{
    let cs = chars_of(r);
    if cs.len() == 0 || cs[0] == '-' {
        return false;
    }
    let mut i: usize = 0;
    while i < cs.len()
        invariant
            i <= cs.len(),
            cs@ == r@,
            forall|j: int| 0 <= j < i ==> !is_space(#[trigger] cs@[j]) && !is_control_char(cs@[j]),
        decreases cs.len() - i,
    {
        let c = cs[i];
        let u = c as u32;
        if crate::text::is_space_exec(c) || u <= 0x1f || (0x7f <= u && u <= 0x9f) {
            return false;
        }
        i += 1;
    }
    true
}

/// Whether `p` is a safe repo-relative path.
pub fn is_safe_path(p: &str) -> (b: bool)
    ensures
        b == safe_path(p@),
{
    let cs = chars_of(p);
    if cs.len() == 0 || cs[0] == '-' || cs[0] == '/' {
        return false;
    }
    if crate::text::has_char(&cs, '\0') {
        return false;
    }
    let segs = split_exec(&cs, '/');
    let dots = chars_of("..");
    let mut i: usize = 0;
    while i < segs.len()
        invariant
            i <= segs@.len(),
            cs@ == p@,
            dots@ == ".."@,
            segs@.len() == split_on(cs@, '/').len(),
            forall|j: int| 0 <= j < segs@.len() ==> #[trigger] segs@[j]@ == split_on(cs@, '/')[j],
            forall|j: int| 0 <= j < i ==> #[trigger] split_on(cs@, '/')[j] != ".."@,
        decreases segs.len() - i,
    {
        if same_text(&segs[i], &dots) {
            assert(split_on(cs@, '/')[i as int] == ".."@);
            return false;
        }
        i += 1;
    }
    true
}

/// Why running `git` failed.
#[derive(Debug, Clone, PartialEq, Eq)]
pub enum GitError {
    /// `git` could not be spawned at all (the spawn error's message).
    Spawn(String),
    /// `git` ran and failed; `stderr` verbatim.
    Failed { stderr: String },
}

/// The `stderr` fragments that mean a ref or the repo does not exist.
pub open spec fn names_unknown_revision(stderr: Seq<char>) -> bool {
    ||| contains_text(stderr, "unknown revision"@)
    ||| contains_text(stderr, "not a git repository"@)
    ||| contains_text(stderr, "bad revision"@)
    ||| contains_text(stderr, "Not a valid object name"@)
    ||| contains_text(stderr, "invalid object name"@)
}

impl GitError {
    /// The failure means one of the refs (or the repo) does not exist: the
    /// caller answers 404, not 500.
    pub fn is_unknown_revision(&self) -> (b: bool)
        ensures
            b == match self {
                GitError::Spawn(_) => false,
                GitError::Failed { stderr } => names_unknown_revision(stderr@),
            },
    {
        match self {
            GitError::Spawn(_) => false,
            GitError::Failed { stderr } => {
                let e = chars_of(stderr.as_str());
                crate::text::contains(&e, &chars_of("unknown revision"))
                    || crate::text::contains(&e, &chars_of("not a git repository"))
                    || crate::text::contains(&e, &chars_of("bad revision"))
                    || crate::text::contains(&e, &chars_of("Not a valid object name"))
                    || crate::text::contains(&e, &chars_of("invalid object name"))
            },
        }
    }

    /// The error as text: `git diff failed: ` and the spawn error or the
    /// verbatim stderr.
    pub fn message(&self) -> (s: String)
        ensures
            s@ == "git diff failed: "@ + match self {
                GitError::Spawn(e) => e@,
                GitError::Failed { stderr } => stderr@,
            },
    {
        let mut out = chars_of("git diff failed: ");
        match self {
            GitError::Spawn(e) => crate::text::push_str(&mut out, e.as_str()),
            GitError::Failed { stderr } => crate::text::push_str(&mut out, stderr.as_str()),
        }
        string_of(&out)
    }
}

/// The whole answer for a structured diff between two refs.
#[derive(Debug, Clone)]
pub struct StructuredDiff {
    /// The source ref as asked, verbatim.
    pub from_ref: String,
    /// The destination ref as asked, verbatim.
    pub to_ref: String,
    /// `from_ref` resolved to an object id, when it resolves.
    pub from_sha: Option<String>,
    /// `to_ref` resolved to an object id.
    pub to_sha: Option<String>,
    /// Whether the pair was compared in the three-dot (merge-base) form.
    pub three_dot: bool,
    pub files: Vec<FileDiff>,
    pub additions: u32,
    pub deletions: u32,
    pub files_changed: u32,
}

/// `a + b` as `u32` sums it: past `u32::MAX` it wraps around, as unchecked
/// `u32` arithmetic does.
pub open spec fn wrap_add(a: int, b: int) -> int {
    if a + b > u32::MAX {
        a + b - 0x1_0000_0000
    } else {
        a + b
    }
}

/// Additions over the first `n` files, summed as `u32`.
pub open spec fn additions_upto(files: Seq<FileDiff>, n: int) -> int
    decreases n,
{
    if n <= 0 {
        0
    } else {
        wrap_add(additions_upto(files, n - 1), files[n - 1].additions as int)
    }
}

/// Deletions over the first `n` files, summed as `u32`.
pub open spec fn deletions_upto(files: Seq<FileDiff>, n: int) -> int
    decreases n,
{
    if n <= 0 {
        0
    } else {
        wrap_add(deletions_upto(files, n - 1), files[n - 1].deletions as int)
    }
}

/// `a + b` summed as `u32`.
fn wrap_add_exec(a: u32, b: u32) -> (r: u32)
    ensures
        r == wrap_add(a as int, b as int),
{
    if a > u32::MAX - b {
        a - (u32::MAX - b) - 1
    } else {
        a + b
    }
}

/// Assemble the answer from the parsed files: totals are the sums over the
/// files and `files_changed` their number, each as a `u32` holds it (the
/// sums wrap past `u32::MAX`, the number is taken modulo 2^32).
pub fn summarize(
    from_ref: String,
    to_ref: String,
    from_sha: Option<String>,
    to_sha: Option<String>,
    three_dot: bool,
    files: Vec<FileDiff>,
) -> (d: StructuredDiff)
    ensures
        d.from_ref == from_ref,
        d.to_ref == to_ref,
        d.from_sha == from_sha,
        d.to_sha == to_sha,
        d.three_dot == three_dot,
        d.files == files,
        d.additions == additions_upto(files@, files@.len() as int),
        d.deletions == deletions_upto(files@, files@.len() as int),
        d.files_changed == files@.len() % 0x1_0000_0000,
{
    let mut additions: u32 = 0;
    let mut deletions: u32 = 0;
    let mut i: usize = 0;
    while i < files.len()
        invariant
            i <= files@.len(),
            additions == additions_upto(files@, i as int),
            deletions == deletions_upto(files@, i as int),
        decreases files.len() - i,
    {
        additions = wrap_add_exec(additions, files[i].additions);
        deletions = wrap_add_exec(deletions, files[i].deletions);
        i += 1;
    }
    let n = files.len() as u64;
    let files_changed = (n % 0x1_0000_0000u64) as u32;
    StructuredDiff { from_ref, to_ref, from_sha, to_sha, three_dot, files, additions, deletions, files_changed }
}

} // verus!
