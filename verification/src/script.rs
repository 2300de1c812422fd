//! The shell script a tmux session runs: the `PDO_*` env exports, then the
//! node's tail (an agent launch, a `script` node's bash body, or an
//! interactive run shell), optionally run inside the Run's sandbox container.
use vstd::prelude::*;
use crate::shell::{push_quoted_arg, push_single_quoted, quoted_arg, sh_single_quote, single_quoted};
use crate::text::{chars_of, int_text, nat_text, push_all, push_decimal, push_i64, push_str, string_of};

verus! {

broadcast use vstd::string::group_string_axioms;

/// Default wall-clock bound of a `script` node's bash body, in seconds.
pub const SCRIPT_TIMEOUT_SECS: u64 = 60;

/// The env var whose export keeps an agent from registering a remote
/// session that a sibling session would supersede.
pub const CCR_ENV: &'static str = "CLAUDE_CODE_DISABLE_NONESSENTIAL_TRAFFIC";

/// The container wrap of a sandboxed Run: the node's tail runs inside the
/// Run's long-lived container through `docker exec`.
pub struct SandboxWrap<'a> {
    /// The `docker` binary to invoke.
    pub docker_bin: &'a str,
    pub uid: u32,
    pub gid: u32,
    /// The session marker: the tmux session name the kill path uses.
    pub marker: &'a str,
    /// The node's working directory inside the container.
    pub workdir: &'a str,
}

/// What a session runs after the shared env exports.
pub enum SessionTail<'a> {
    /// An agent: `launch` is the launch command rendered from the node's
    /// harness descriptor, `env` the descriptor's env block.
    Agent { launch: &'a str, env: &'a [(String, String)] },
    /// A `script` node: its bash body under `timeout`, self-signalling the
    /// outcome; `env` is its I/O catalogue.
    Script { timeout_secs: u64, env: &'a [(String, String)] },
    /// An ad-hoc interactive run shell.
    Shell,
}

// ───────────────────────────── specification ─────────────────────────────

/// The daemon URL a host-side session is given.
pub open spec fn daemon_url_spec(port: nat) -> Seq<char> {
    "http://localhost:"@ + nat_text(port)
}

/// The `script` node tail: the body under `timeout`, then `pdo complete` on
/// exit 0 (falling back to `pdo fail` only when completion is refused with a
/// code other than 4), a timeout report on 124, and the exit code otherwise.
pub open spec fn script_tail_spec(prompt_path: Seq<char>, secs: nat) -> Seq<char> {
    "timeout "@ + nat_text(secs) + "s bash "@ + single_quoted(prompt_path)
        + " ; ec=$? ; if [ $ec -eq 0 ]; then pdo complete ; cc=$? ; if [ $cc -ne 0 ] && [ $cc -ne 4 ]; then pdo fail --reason \"pdo complete refused with exit $cc after script success\" ; fi ; elif [ $ec -eq 124 ]; then pdo fail --reason \"script timed out after "@
        + nat_text(secs) + "s\" ; else pdo fail --reason \"script exited $ec\" ; fi"@
}

/// The interactive run shell: bash respawned in the same pane.
pub open spec fn shell_tail_spec() -> Seq<char> {
    "while true; do bash -i; sleep 0.2; done"@
}

/// `export K=V && ` for the first `n` pairs, values quoted only when needed.
pub open spec fn harness_exports(env: Seq<(String, String)>, n: int) -> Seq<char>
    decreases n,
{
    if n <= 0 {
        Seq::empty()
    } else {
        harness_exports(env, n - 1) + "export "@ + env[n - 1].0@ + "="@ + quoted_arg(env[n - 1].1@)
            + " && "@
    }
}

/// `export K='V' && ` for the first `n` pairs.
pub open spec fn extra_exports(env: Seq<(String, String)>, n: int) -> Seq<char>
    decreases n,
{
    if n <= 0 {
        Seq::empty()
    } else {
        extra_exports(env, n - 1) + "export "@ + env[n - 1].0@ + "="@ + single_quoted(env[n - 1].1@)
            + " && "@
    }
}

/// The env-wrapped session command: the base `PDO_*` exports, the harness
/// env, the extra env, then the tail, all under `exec bash -c '…'`.
pub open spec fn wrap_with_env_spec(
    run_id: Seq<char>,
    node_id: Seq<char>,
    iter: int,
    port: nat,
    harness_env: Seq<(String, String)>,
    extra_env: Seq<(String, String)>,
    tail: Seq<char>,
) -> Seq<char> {
    let inner = "export PDO_RUN_ID="@ + single_quoted(run_id) + " && export PDO_NODE_ID="@
        + single_quoted(node_id) + " && export PDO_NODE_ITER="@ + single_quoted(int_text(iter))
        + " && export PDO_DAEMON_URL="@ + single_quoted(daemon_url_spec(port)) + " && "@
        + harness_exports(harness_env, harness_env.len() as int) + extra_exports(
        extra_env,
        extra_env.len() as int,
    ) + tail;
    "exec bash -c "@ + single_quoted(inner)
}

/// The words of the `docker exec` argument list, before the container's
/// command: the marker and the node identity forwarded, the catalogue as
/// `-e K=V`, the user, and the working directory.
pub open spec fn exec_words(run_id: Seq<char>, w: SandboxWrap, extra: Seq<(String, String)>) -> Seq<Seq<char>> {
    seq!["exec"@, "-i"@, "-t"@, "-e"@, "PDO_SBX_SESSION="@ + w.marker@, "-e"@, "PDO_NODE_ID"@, "-e"@, "PDO_NODE_ITER"@]
        + env_words(extra, extra.len() as int) + seq![
        "--user"@,
        nat_text(w.uid as nat) + ":"@ + nat_text(w.gid as nat),
        "-w"@,
        w.workdir@,
        "pdo-sbx-"@ + run_id,
    ]
}

/// `-e K=V` for the first `n` pairs.
pub open spec fn env_words(env: Seq<(String, String)>, n: int) -> Seq<Seq<char>>
    decreases n,
{
    if n <= 0 {
        Seq::empty()
    } else {
        env_words(env, n - 1) + seq!["-e"@, env[n - 1].0@ + "="@ + env[n - 1].1@]
    }
}

/// Words joined by single spaces, each quoted only when needed.
pub open spec fn join_quoted(words: Seq<Seq<char>>, n: int) -> Seq<char>
    decreases n,
{
    if n <= 0 {
        Seq::empty()
    } else if n == 1 {
        quoted_arg(words[0])
    } else {
        join_quoted(words, n - 1) + " "@ + quoted_arg(words[n - 1])
    }
}

/// The tail wrapped to run in the container:
/// `docker exec … pdo-sbx-<run> bash -lc '<tail>'`.
pub open spec fn docker_tail_spec(run_id: Seq<char>, w: SandboxWrap, extra: Seq<(String, String)>, tail: Seq<char>) -> Seq<char> {
    let words = seq![w.docker_bin@] + exec_words(run_id, w, extra) + seq!["bash"@, "-lc"@, tail];
    join_quoted(words, words.len() as int)
}

/// The env the wrapper forces for bash tails.
pub open spec fn forced_env_ok(env: Seq<(String, String)>) -> bool {
    env.len() == 1 && env[0].0@ == CCR_ENV@ && env[0].1@ == "1"@
}

/// The script a session runs.
pub open spec fn session_script(
    run_id: Seq<char>,
    node_id: Seq<char>,
    iter: int,
    port: nat,
    prompt_path: Seq<char>,
    cmd_override: Option<Seq<char>>,
    tail: SessionTail,
    sandbox: Option<SandboxWrap>,
    forced: Seq<(String, String)>,
) -> Seq<char> {
    let (cmd, extra, henv) = match tail {
        SessionTail::Script { timeout_secs, env } => (
            script_tail_spec(prompt_path, timeout_secs as nat),
            env@,
            forced,
        ),
        SessionTail::Shell => (shell_tail_spec(), Seq::<(String, String)>::empty(), forced),
        SessionTail::Agent { launch, env } => (
            match cmd_override {
                Some(c) => c,
                None => launch@,
            },
            Seq::<(String, String)>::empty(),
            env@,
        ),
    };
    match sandbox {
        Some(w) => wrap_with_env_spec(
            run_id,
            node_id,
            iter,
            port,
            henv,
            Seq::empty(),
            docker_tail_spec(run_id, w, extra, cmd),
        ),
        None => wrap_with_env_spec(run_id, node_id, iter, port, henv, extra, cmd),
    }
}

/// The view of an optional string slice.
pub open spec fn opt_text(s: Option<&str>) -> Option<Seq<char>> {
    match s {
        Some(v) => Some(v@),
        None => None,
    }
}

// ───────────────────────────── execution ─────────────────────────────

/// The daemon URL a host-side session is given: `http://localhost:<port>`.
pub fn daemon_url(daemon_port: u16) -> (r: Vec<char>)
    ensures
        r@ == daemon_url_spec(daemon_port as nat),
{
    let mut out: Vec<char> = Vec::new();
    push_str(&mut out, "http://localhost:");
    push_decimal(&mut out, daemon_port as u64);
    out
}

/// The env the wrapper forces for bash tails.
pub fn forced_ccr_env() -> (env: Vec<(String, String)>)
    ensures
        forced_env_ok(env@),
{
    let mut env: Vec<(String, String)> = Vec::new();
    env.push((string_of(&chars_of(CCR_ENV)), string_of(&chars_of("1"))));
    env
}

/// The `script` node tail.
pub fn build_script_tail(prompt_path: &str, timeout_secs: u64) -> (r: String)
    ensures
        r@ == script_tail_spec(prompt_path@, timeout_secs as nat),
{
    let mut out: Vec<char> = Vec::new();
    push_script_tail(&mut out, prompt_path, timeout_secs);
    assert(out@ =~= script_tail_spec(prompt_path@, timeout_secs as nat));
    string_of(&out)
}

/// Appends the `script` node tail.
fn push_script_tail(out: &mut Vec<char>, prompt_path: &str, timeout_secs: u64)
    ensures
        final(out)@ == old(out)@ + script_tail_spec(prompt_path@, timeout_secs as nat),
{
    push_str(out, "timeout ");
    push_decimal(out, timeout_secs);
    push_str(out, "s bash ");
    push_single_quoted(out, &chars_of(prompt_path));
    push_str(
        out,
        " ; ec=$? ; if [ $ec -eq 0 ]; then pdo complete ; cc=$? ; if [ $cc -ne 0 ] && [ $cc -ne 4 ]; then pdo fail --reason \"pdo complete refused with exit $cc after script success\" ; fi ; elif [ $ec -eq 124 ]; then pdo fail --reason \"script timed out after ",
    );
    push_decimal(out, timeout_secs);
    push_str(out, "s\" ; else pdo fail --reason \"script exited $ec\" ; fi");
    assert(out@ =~= old(out)@ + script_tail_spec(prompt_path@, timeout_secs as nat));
}

/// Appends `export K=V && ` for every pair, values quoted when needed.
fn push_harness_exports(out: &mut Vec<char>, env: &[(String, String)])
    ensures
        final(out)@ == old(out)@ + harness_exports(env@, env@.len() as int),
{
    let mut i: usize = 0;
    while i < env.len()
        invariant
            i <= env@.len(),
            out@ == old(out)@ + harness_exports(env@, i as int),
        decreases env.len() - i,
    {
        let ghost before = out@;
        push_str(out, "export ");
        push_str(out, env[i].0.as_str());
        push_str(out, "=");
        push_quoted_arg(out, &chars_of(env[i].1.as_str()));
        push_str(out, " && ");
        assert(out@ =~= before + ("export "@ + env@[i as int].0@ + "="@ + quoted_arg(env@[i as int].1@)
            + " && "@));
        i += 1;
    }
}

/// Appends `export K='V' && ` for every pair.
fn push_extra_exports(out: &mut Vec<char>, env: &[(String, String)])
    ensures
        final(out)@ == old(out)@ + extra_exports(env@, env@.len() as int),
{
    let mut i: usize = 0;
    while i < env.len()
        invariant
            i <= env@.len(),
            out@ == old(out)@ + extra_exports(env@, i as int),
        decreases env.len() - i,
    {
        let ghost before = out@;
        push_str(out, "export ");
        push_str(out, env[i].0.as_str());
        push_str(out, "=");
        push_single_quoted(out, &chars_of(env[i].1.as_str()));
        push_str(out, " && ");
        assert(out@ =~= before + ("export "@ + env@[i as int].0@ + "="@ + single_quoted(env@[i as int].1@)
            + " && "@));
        i += 1;
    }
}

/// Wrap a tail with the PDO env exports under an `exec bash -c` trampoline.
pub fn wrap_with_env(
    run_id: &str,
    node_id: &str,
    iter: i64,
    daemon_port: u16,
    harness_env: &[(String, String)],
    extra_env: &[(String, String)],
    tail_cmd: &[char],
) -> (r: String)
    ensures
        r@ == wrap_with_env_spec(run_id@, node_id@, iter as int, daemon_port as nat, harness_env@, extra_env@, tail_cmd@),
{
    let mut inner: Vec<char> = Vec::new();
    push_str(&mut inner, "export PDO_RUN_ID=");
    push_single_quoted(&mut inner, &chars_of(run_id));
    push_str(&mut inner, " && export PDO_NODE_ID=");
    push_single_quoted(&mut inner, &chars_of(node_id));
    push_str(&mut inner, " && export PDO_NODE_ITER=");
    let mut it: Vec<char> = Vec::new();
    push_i64(&mut it, iter);
    assert(it@ =~= int_text(iter as int));
    push_single_quoted(&mut inner, &it);
    push_str(&mut inner, " && export PDO_DAEMON_URL=");
    push_single_quoted(&mut inner, &daemon_url(daemon_port));
    push_str(&mut inner, " && ");
    push_harness_exports(&mut inner, harness_env);
    push_extra_exports(&mut inner, extra_env);
    push_all(&mut inner, tail_cmd);
    let mut out: Vec<char> = Vec::new();
    push_str(&mut out, "exec bash -c ");
    push_single_quoted(&mut out, &inner);
    proof {
        let inner_spec = "export PDO_RUN_ID="@ + single_quoted(run_id@) + " && export PDO_NODE_ID="@
            + single_quoted(node_id@) + " && export PDO_NODE_ITER="@ + single_quoted(int_text(iter as int))
            + " && export PDO_DAEMON_URL="@ + single_quoted(daemon_url_spec(daemon_port as nat)) + " && "@
            + harness_exports(harness_env@, harness_env@.len() as int) + extra_exports(
            extra_env@,
            extra_env@.len() as int,
        ) + tail_cmd@;
        assert(inner@ =~= inner_spec);
        assert(out@ =~= "exec bash -c "@ + single_quoted(inner_spec));
    }
    string_of(&out)
}

/// Appends one word.
fn push_word(words: &mut Vec<Vec<char>>, w: Vec<char>)
    ensures
        final(words)@.map_values(|w: Vec<char>| w@) == old(words)@.map_values(|w: Vec<char>| w@).push(w@),
{
    let ghost before = words@;
    words.push(w);
    assert(words@.map_values(|w: Vec<char>| w@) =~= before.map_values(|w: Vec<char>| w@).push(w@));
}

/// Appends `-e K=V` words for every pair.
fn push_env_words(words: &mut Vec<Vec<char>>, env: &[(String, String)])
    ensures
        final(words)@.map_values(|w: Vec<char>| w@) == old(words)@.map_values(|w: Vec<char>| w@)
            + env_words(env@, env@.len() as int),
{
    let mut i: usize = 0;
    while i < env.len()
        invariant
            i <= env@.len(),
            words@.map_values(|w: Vec<char>| w@) == old(words)@.map_values(|w: Vec<char>| w@) + env_words(
                env@,
                i as int,
            ),
        decreases env.len() - i,
    {
        let ghost before = words@.map_values(|w: Vec<char>| w@);
        words.push(chars_of("-e"));
        let mut kv: Vec<char> = Vec::new();
        push_str(&mut kv, env[i].0.as_str());
        push_str(&mut kv, "=");
        push_str(&mut kv, env[i].1.as_str());
        words.push(kv);
        assert(words@.map_values(|w: Vec<char>| w@) =~= before + seq![
            "-e"@,
            env@[i as int].0@ + "="@ + env@[i as int].1@,
        ]);
        i += 1;
    }
}

/// Appends the words joined by single spaces, each quoted when needed.
fn push_joined(out: &mut Vec<char>, words: &Vec<Vec<char>>)
    ensures
        final(out)@ == old(out)@ + join_quoted(words@.map_values(|w: Vec<char>| w@), words@.len() as int),
{
    let ghost ws = words@.map_values(|w: Vec<char>| w@);
    let mut i: usize = 0;
    while i < words.len()
        invariant
            i <= words@.len(),
            ws == words@.map_values(|w: Vec<char>| w@),
            out@ == old(out)@ + join_quoted(ws, i as int),
        decreases words.len() - i,
    {
        let ghost before = out@;
        if i > 0 {
            push_str(out, " ");
        }
        push_quoted_arg(out, &words[i]);
        assert(ws[i as int] == words@[i as int]@);
        if i > 0 {
            assert(out@ =~= before + " "@ + quoted_arg(ws[i as int]));
        }
        i += 1;
    }
}

/// Splice the container-exec prefix around a tail:
/// `docker exec … pdo-sbx-<run> bash -lc '<tail>'`.
pub fn wrap_tail_in_docker_exec(run_id: &str, wrap: &SandboxWrap, extra_env: &[(String, String)], base_tail: &[char]) -> (r: Vec<char>)
    ensures
        r@ == docker_tail_spec(run_id@, *wrap, extra_env@, base_tail@),
{
    let mut words: Vec<Vec<char>> = Vec::new();
    push_word(&mut words, chars_of(wrap.docker_bin));
    push_word(&mut words, chars_of("exec"));
    push_word(&mut words, chars_of("-i"));
    push_word(&mut words, chars_of("-t"));
    push_word(&mut words, chars_of("-e"));
    let mut marker: Vec<char> = Vec::new();
    push_str(&mut marker, "PDO_SBX_SESSION=");
    push_str(&mut marker, wrap.marker);
    push_word(&mut words, marker);
    push_word(&mut words, chars_of("-e"));
    push_word(&mut words, chars_of("PDO_NODE_ID"));
    push_word(&mut words, chars_of("-e"));
    push_word(&mut words, chars_of("PDO_NODE_ITER"));
    push_env_words(&mut words, extra_env);
    push_word(&mut words, chars_of("--user"));
    let mut ids: Vec<char> = Vec::new();
    push_decimal(&mut ids, wrap.uid as u64);
    push_str(&mut ids, ":");
    push_decimal(&mut ids, wrap.gid as u64);
    push_word(&mut words, ids);
    push_word(&mut words, chars_of("-w"));
    push_word(&mut words, chars_of(wrap.workdir));
    let mut container: Vec<char> = Vec::new();
    push_str(&mut container, "pdo-sbx-");
    push_str(&mut container, run_id);
    push_word(&mut words, container);
    push_word(&mut words, chars_of("bash"));
    push_word(&mut words, chars_of("-lc"));
    push_word(&mut words, slice_copy(base_tail));
    proof {
        let expect = seq![wrap.docker_bin@] + exec_words(run_id@, *wrap, extra_env@) + seq![
            "bash"@,
            "-lc"@,
            base_tail@,
        ];
        assert(words@.map_values(|w: Vec<char>| w@) =~= expect);
    }
    let mut out: Vec<char> = Vec::new();
    push_joined(&mut out, &words);
    assert(out@ =~= docker_tail_spec(run_id@, *wrap, extra_env@, base_tail@));
    out
}

/// A fresh copy of a character slice.
fn slice_copy(s: &[char]) -> (r: Vec<char>)
    ensures
        r@ == s@,
{
    let r = crate::text::slice_vec(s, 0, s.len());
    assert(s@.subrange(0, s@.len() as int) == s@);
    r
}

/// Construct the script tmux launches for a session.
///
/// `tmux_cmd_override` replaces an agent's launch command when `Some` (the
/// per-daemon test seam); it is ignored for `script` and shell tails, which
/// are deterministic bash. With a `sandbox`, the tail runs inside the Run's
/// container and the catalogue crosses the exec as `-e K=V`; the host-side
/// env exports still run.
pub fn build_tmux_script(
    run_id: &str,
    node_id: &str,
    iter: i64,
    daemon_port: u16,
    prompt_path: &str,
    tmux_cmd_override: Option<&str>,
    tail: SessionTail<'_>,
    sandbox: Option<&SandboxWrap<'_>>,
) -> (r: String)
    ensures
        exists|forced: Seq<(String, String)>|
            forced_env_ok(forced) && r@ == session_script(
                run_id@,
                node_id@,
                iter as int,
                daemon_port as nat,
                prompt_path@,
                opt_text(tmux_cmd_override),
                tail,
                match sandbox {
                    Some(w) => Some(*w),
                    None => None,
                },
                forced,
            ),
{
    let forced = forced_ccr_env();
    let no_env: Vec<(String, String)> = Vec::new();
    let mut cmd: Vec<char> = Vec::new();
    let extra: &[(String, String)];
    let henv: &[(String, String)];
    match tail {
        SessionTail::Script { timeout_secs, env } => {
            push_script_tail(&mut cmd, prompt_path, timeout_secs);
            extra = env;
            henv = forced.as_slice();
        },
        SessionTail::Shell => {
            push_str(&mut cmd, "while true; do bash -i; sleep 0.2; done");
            extra = no_env.as_slice();
            henv = forced.as_slice();
        },
        SessionTail::Agent { launch, env } => {
            match tmux_cmd_override {
                Some(c) => push_str(&mut cmd, c),
                None => push_str(&mut cmd, launch),
            }
            extra = no_env.as_slice();
            henv = env;
        },
    }
    assert(no_env@ =~= Seq::<(String, String)>::empty());
    let r = match sandbox {
        Some(wrap) => {
            let docker = wrap_tail_in_docker_exec(run_id, wrap, extra, &cmd);
            wrap_with_env(run_id, node_id, iter, daemon_port, henv, no_env.as_slice(), &docker)
        },
        None => wrap_with_env(run_id, node_id, iter, daemon_port, henv, extra, &cmd),
    };
    assert(forced_env_ok(forced@));
    r
}


// ───────────────────────────── resume ─────────────────────────────

/// A template hole for an optional value: the value single-quoted, or
/// empty when absent or empty (an empty hole drops its flag).
pub open spec fn hole_spec(v: Option<Seq<char>>) -> Seq<char> {
    match v {
        Some(s) => if s.len() > 0 {
            single_quoted(s)
        } else {
            Seq::empty()
        },
        None => Seq::empty(),
    }
}

/// How a resume picks the transcript: the harness's resume-by-id verb
/// with the pinned session id when there is one and the harness has such
/// a verb, else its blind verb (which may be empty: no resume flag).
pub open spec fn resume_selector_spec(by_id: Seq<char>, blind: Seq<char>, session_id: Option<Seq<char>>) -> Seq<char> {
    match session_id {
        Some(s) => if s.len() > 0 && by_id.len() > 0 {
            by_id + " "@ + single_quoted(s)
        } else {
            blind
        },
        None => blind,
    }
}

/// The script a resumed session runs: the resume command (or the
/// override), with the harness env, wrapped like a launch.
pub open spec fn resume_script_spec(
    run_id: Seq<char>,
    node_id: Seq<char>,
    iter: int,
    port: nat,
    env: Seq<(String, String)>,
    resume: Seq<char>,
    cmd_override: Option<Seq<char>>,
    sandbox: Option<SandboxWrap>,
) -> Seq<char> {
    let cmd = match cmd_override {
        Some(c) => c,
        None => resume,
    };
    match sandbox {
        Some(w) => wrap_with_env_spec(
            run_id,
            node_id,
            iter,
            port,
            env,
            Seq::empty(),
            docker_tail_spec(run_id, w, Seq::empty(), cmd),
        ),
        None => wrap_with_env_spec(run_id, node_id, iter, port, env, Seq::empty(), cmd),
    }
}

/// A template hole for an optional value.
pub fn quote_hole(v: Option<&str>) -> (r: String)
    ensures
        r@ == hole_spec(opt_text(v)),
{
    match v {
        Some(s) => if chars_of(s).len() == 0 {
            String::new()
        } else {
            sh_single_quote(s)
        },
        None => String::new(),
    }
}

/// The values a harness's launch template is filled with.
#[derive(Debug, PartialEq, Eq)]
pub struct Holes {
    /// `"$(cat '<prompt file>')"`: the prompt, read at launch.
    pub prompt: String,
    pub model: String,
    pub effort: String,
    pub settings: String,
    pub session_id: String,
    /// The launch template carries no resume hole.
    pub resume: String,
}

/// The prompt hole: the prompt file read by a `cat` substitution.
pub open spec fn prompt_hole_spec(prompt_path: Seq<char>) -> Seq<char> {
    "\"$(cat "@ + single_quoted(prompt_path) + ")\""@
}

/// The settings hole: the settings file single-quoted, empty when there is
/// none.
pub open spec fn settings_hole_spec(settings_path: Option<Seq<char>>) -> Seq<char> {
    match settings_path {
        Some(p) => single_quoted(p),
        None => Seq::empty(),
    }
}

/// The holes of an agent launch: the prompt file's `cat` substitution; the
/// model, the effort and the session id each single-quoted, or empty (so
/// their flag is dropped) when absent or empty; the settings file
/// single-quoted when there is one; no resume.
pub fn agent_holes(
    prompt_path: &str,
    model: Option<&str>,
    effort: Option<&str>,
    settings_path: Option<&str>,
    session_id: Option<&str>,
) -> (h: Holes)
    ensures
        h.prompt@ == prompt_hole_spec(prompt_path@),
        h.model@ == hole_spec(opt_text(model)),
        h.effort@ == hole_spec(opt_text(effort)),
        h.settings@ == settings_hole_spec(opt_text(settings_path)),
        h.session_id@ == hole_spec(opt_text(session_id)),
        h.resume@ == Seq::<char>::empty(),
{
    let mut prompt: Vec<char> = Vec::new();
    push_str(&mut prompt, "\"$(cat ");
    let quoted = sh_single_quote(prompt_path);
    push_str(&mut prompt, quoted.as_str());
    push_str(&mut prompt, ")\"");
    proof {
        reveal_strlit("\"$(cat ");
        reveal_strlit(")\"");
    }
    let settings = match settings_path {
        Some(p) => sh_single_quote(p),
        None => String::new(),
    };
    let resume = String::new();
    proof {
        assert(resume@ =~= Seq::<char>::empty());
        assert(settings_path is None ==> settings@ =~= Seq::<char>::empty());
    }
    Holes {
        prompt: string_of(&prompt),
        model: quote_hole(model),
        effort: quote_hole(effort),
        settings,
        session_id: quote_hole(session_id),
        resume,
    }
}

/// The resume selector of a harness: `resume_by_id '<session id>'` for a
/// pinned session, else `resume_blind`.
pub fn resume_selector(resume_by_id: &str, resume_blind: &str, session_id: Option<&str>) -> (r: String)
    ensures
        r@ == resume_selector_spec(resume_by_id@, resume_blind@, opt_text(session_id)),
{
    match session_id {
        Some(s) => {
            if chars_of(s).len() > 0 && chars_of(resume_by_id).len() > 0 {
                let mut out: Vec<char> = chars_of(resume_by_id);
                out.push(' ');
                push_single_quoted(&mut out, &chars_of(s));
                assert(out@ =~= resume_by_id@ + " "@ + single_quoted(s@)) by {
                    reveal_strlit(" ");
                }
                string_of(&out)
            } else {
                resume_blind.to_owned()
            }
        },
        None => resume_blind.to_owned(),
    }
}

/// Construct the script that resumes a node's saved conversation in the
/// same working directory: `resume` is the harness's resume command
/// rendered with its selector, effort and hook settings;
/// `tmux_cmd_override` replaces it when `Some`. A sandboxed resume
/// re-enters the same container.
pub fn build_resume_script(
    run_id: &str,
    node_id: &str,
    iter: i64,
    daemon_port: u16,
    harness_env: &[(String, String)],
    resume: &str,
    tmux_cmd_override: Option<&str>,
    sandbox: Option<&SandboxWrap<'_>>,
) -> (r: String)
    ensures
        r@ == resume_script_spec(
            run_id@,
            node_id@,
            iter as int,
            daemon_port as nat,
            harness_env@,
            resume@,
            opt_text(tmux_cmd_override),
            match sandbox {
                Some(w) => Some(*w),
                None => None,
            },
        ),
{
    let no_env: Vec<(String, String)> = Vec::new();
    assert(no_env@ =~= Seq::<(String, String)>::empty());
    let cmd = match tmux_cmd_override {
        Some(c) => chars_of(c),
        None => chars_of(resume),
    };
    match sandbox {
        Some(wrap) => {
            let docker = wrap_tail_in_docker_exec(run_id, wrap, no_env.as_slice(), &cmd);
            wrap_with_env(run_id, node_id, iter, daemon_port, harness_env, no_env.as_slice(), &docker)
        },
        None => wrap_with_env(run_id, node_id, iter, daemon_port, harness_env, no_env.as_slice(), &cmd),
    }
}

} // verus!
