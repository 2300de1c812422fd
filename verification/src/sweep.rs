//! The orphan sweep's decision: for every live `pdo-*` session, keep it or
//! kill it and say why. Pure: the tmux inventory, the owners' facts, the clock
//! and the TTLs are all inputs.
use vstd::prelude::*;
use crate::clock::{Duration, Timestamp};
use crate::session::{opt_key, ParsedSession, SessionKey};
use crate::text::{int_text, push_i64, push_str, string_of};

verus! {

broadcast use vstd::string::group_string_axioms;

/// Timestamps are within the range a UTC date-time can take (about ±262 000
/// years around the epoch), well inside these bounds.
pub open spec fn timestamp_in_range(t: Timestamp) -> bool {
    t.wf() && -1_152_921_504_606_846_976 <= t.secs <= 1_152_921_504_606_846_976
}

/// What the reaper knows about the NodeRun owning a session.
#[derive(Debug, Clone, Copy, PartialEq, Eq)]
pub struct NodeRunInfo {
    pub completed_at: Option<Timestamp>,
    pub is_archived: bool,
}

/// One live `pdo-*` session, plus everything the reaper knows about its owner.
/// The owner's facts must have been read after the inventory that produced
/// the name.
#[derive(Debug, Clone)]
pub struct SweepInput {
    pub session_name: String,
    /// `None`: the name did not parse.
    pub parsed: Option<ParsedSession>,
    /// The owner's facts; `None` when the owner is absent from the event log.
    pub info: Option<NodeRunInfo>,
    /// Whether a tmux client is attached (used for the library assistant).
    pub attached: bool,
    /// How long ago an edit view was last declared open (library assistant);
    /// `None` when never.
    pub focus_age: Option<Duration>,
}

/// The TTLs the sweep arbitrates on.
#[derive(Debug, Clone, Copy, PartialEq, Eq)]
pub struct SweepTtls {
    /// A completed NodeRun's session.
    pub node_run: Duration,
    /// The library assistant with nobody attached and no fresh focus.
    pub libassist_idle: Duration,
}

/// Why a session is killed.
#[derive(Debug, Clone, PartialEq, Eq)]
pub enum KillReason {
    UnrecognisedName { session_name: String },
    ManagerRunAbsent { run_id: String },
    ManagerRunArchived { run_id: String },
    ShellRunAbsent { run_id: String },
    ShellRunArchived { run_id: String },
    NodeRunAbsent { run_id: String, node_id: String },
    NodeRunArchived { run_id: String, node_id: String },
    /// A completed NodeRun past its TTL.
    NodeRunStale { session_name: String, age_secs: i64 },
    /// The library assistant with nobody attached and no fresh focus.
    LibAssistIdle { session_name: String, idle_secs: Option<i64> },
}

/// What the sweep decided about one session.
#[derive(Debug, Clone, PartialEq, Eq)]
pub enum SweepVerdict {
    Keep,
    Kill(KillReason),
}

/// One decision per input.
#[derive(Debug, Clone, PartialEq, Eq)]
pub struct SweepDecision {
    pub session_name: String,
    pub verdict: SweepVerdict,
}

/// What one sweep pass killed.
#[derive(Debug, Clone, Copy, Default, PartialEq, Eq)]
pub struct SweepTally {
    pub killed: i64,
    pub killed_for_absent_run: i64,
}

/// The mathematical value of a [`KillReason`].
pub enum KillCause {
    UnrecognisedName { session_name: Seq<char> },
    ManagerRunAbsent { run_id: Seq<char> },
    ManagerRunArchived { run_id: Seq<char> },
    ShellRunAbsent { run_id: Seq<char> },
    ShellRunArchived { run_id: Seq<char> },
    NodeRunAbsent { run_id: Seq<char>, node_id: Seq<char> },
    NodeRunArchived { run_id: Seq<char>, node_id: Seq<char> },
    NodeRunStale { session_name: Seq<char>, age_secs: i64 },
    LibAssistIdle { session_name: Seq<char>, idle_secs: Option<i64> },
}

/// The mathematical value of a [`SweepVerdict`].
pub enum VerdictView {
    Keep,
    Kill(KillCause),
}

impl View for KillReason {
    type V = KillCause;

    open spec fn view(&self) -> KillCause {
        match self {
            KillReason::UnrecognisedName { session_name } => KillCause::UnrecognisedName {
                session_name: session_name@,
            },
            KillReason::ManagerRunAbsent { run_id } => KillCause::ManagerRunAbsent { run_id: run_id@ },
            KillReason::ManagerRunArchived { run_id } => KillCause::ManagerRunArchived {
                run_id: run_id@,
            },
            KillReason::ShellRunAbsent { run_id } => KillCause::ShellRunAbsent { run_id: run_id@ },
            KillReason::ShellRunArchived { run_id } => KillCause::ShellRunArchived { run_id: run_id@ },
            KillReason::NodeRunAbsent { run_id, node_id } => KillCause::NodeRunAbsent {
                run_id: run_id@,
                node_id: node_id@,
            },
            KillReason::NodeRunArchived { run_id, node_id } => KillCause::NodeRunArchived {
                run_id: run_id@,
                node_id: node_id@,
            },
            KillReason::NodeRunStale { session_name, age_secs } => KillCause::NodeRunStale {
                session_name: session_name@,
                age_secs: *age_secs,
            },
            KillReason::LibAssistIdle { session_name, idle_secs } => KillCause::LibAssistIdle {
                session_name: session_name@,
                idle_secs: *idle_secs,
            },
        }
    }
}

impl View for SweepVerdict {
    type V = VerdictView;

    open spec fn view(&self) -> VerdictView {
        match self {
            SweepVerdict::Keep => VerdictView::Keep,
            SweepVerdict::Kill(r) => VerdictView::Kill(r@),
        }
    }
}

// ───────────────────────────── specification ─────────────────────────────

/// The NodeRun TTL window in nanoseconds: the TTL itself when it fits a
/// signed time delta (at most `i64::MAX` milliseconds), one hour otherwise.
pub open spec fn node_run_window(ttl: Duration) -> int {
    if ttl.secs > 9_223_372_036_854_775 || (ttl.secs == 9_223_372_036_854_775 && ttl.nanos
        > 807_000_000) {
        3_600_000_000_000
    } else {
        ttl.total_nanos() as int
    }
}

/// The verdict on one session.
pub open spec fn sweep_verdict(input: SweepInput, ttls: SweepTtls, now: Timestamp) -> VerdictView {
    let name = input.session_name@;
    match opt_key(input.parsed) {
        None => VerdictView::Kill(KillCause::UnrecognisedName { session_name: name }),
        Some(SessionKey::Manager { run_id }) => match input.info {
            None => VerdictView::Kill(KillCause::ManagerRunAbsent { run_id }),
            Some(info) => if info.is_archived {
                VerdictView::Kill(KillCause::ManagerRunArchived { run_id })
            } else {
                VerdictView::Keep
            },
        },
        Some(SessionKey::Shell { run_id }) => match input.info {
            None => VerdictView::Kill(KillCause::ShellRunAbsent { run_id }),
            Some(info) => if info.is_archived {
                VerdictView::Kill(KillCause::ShellRunArchived { run_id })
            } else {
                VerdictView::Keep
            },
        },
        Some(SessionKey::LibAssist) => if input.attached {
            VerdictView::Keep
        } else {
            match input.focus_age {
                Some(age) => if age.total_nanos() < ttls.libassist_idle.total_nanos() {
                    VerdictView::Keep
                } else {
                    VerdictView::Kill(
                        KillCause::LibAssistIdle { session_name: name, idle_secs: Some(age.secs as i64) },
                    )
                },
                None => VerdictView::Kill(
                    KillCause::LibAssistIdle { session_name: name, idle_secs: None },
                ),
            }
        },
        Some(SessionKey::NodeRun { run_id, node_id, iter }) => match input.info {
            None => VerdictView::Kill(KillCause::NodeRunAbsent { run_id, node_id }),
            Some(info) => if info.is_archived {
                VerdictView::Kill(KillCause::NodeRunArchived { run_id, node_id })
            } else {
                match info.completed_at {
                    None => VerdictView::Keep,
                    Some(completed) => {
                        let age = now.total_nanos() - completed.total_nanos();
                        if age > node_run_window(ttls.node_run) {
                            VerdictView::Kill(
                                KillCause::NodeRunStale {
                                    session_name: name,
                                    age_secs: (age / 1_000_000_000) as i64,
                                },
                            )
                        } else {
                            VerdictView::Keep
                        }
                    },
                }
            },
        },
    }
}

/// The timestamps a sweep compares are all within range.
pub open spec fn sweep_times_in_range(inputs: Seq<SweepInput>, ttls: SweepTtls, now: Timestamp) -> bool {
    &&& timestamp_in_range(now)
    &&& ttls.node_run.wf()
    &&& ttls.libassist_idle.wf()
    &&& forall|i: int| 0 <= i < inputs.len() ==> input_times_in_range(#[trigger] inputs[i])
}

/// The timestamps of one input are within range.
pub open spec fn input_times_in_range(input: SweepInput) -> bool {
    &&& (input.info matches Some(info) ==> (info.completed_at matches Some(c) ==> timestamp_in_range(c)))
    &&& (input.focus_age matches Some(a) ==> a.wf())
}

/// Absence verdicts (the owner is unknown or the name unparseable), as
/// opposed to routine housekeeping.
pub open spec fn is_absence_cause(c: KillCause) -> bool {
    match c {
        KillCause::UnrecognisedName { .. } => true,
        KillCause::ManagerRunAbsent { .. } => true,
        KillCause::ShellRunAbsent { .. } => true,
        KillCause::NodeRunAbsent { .. } => true,
        _ => false,
    }
}

/// The log line of a kill, verbatim.
pub open spec fn kill_message(c: KillCause) -> Seq<char> {
    match c {
        KillCause::UnrecognisedName { session_name } => "Orphan sweep: killing unrecognised session "@
            + session_name,
        KillCause::ManagerRunAbsent { run_id } => "Orphan sweep: killing manager session for absent run "@
            + run_id,
        KillCause::ManagerRunArchived { run_id } =>
            "Orphan sweep: killing manager session for archived run "@ + run_id,
        KillCause::ShellRunAbsent { run_id } => "Orphan sweep: killing shell session for absent run "@
            + run_id,
        KillCause::ShellRunArchived { run_id } => "Orphan sweep: killing shell session for archived run "@
            + run_id,
        KillCause::NodeRunAbsent { run_id, node_id } => "Orphan sweep: killing session for absent run "@
            + run_id + "/"@ + node_id,
        KillCause::NodeRunArchived { run_id, node_id } =>
            "Orphan sweep: killing session for archived run "@ + run_id + "/"@ + node_id,
        KillCause::NodeRunStale { session_name, age_secs } => "Orphan sweep: killing stale session "@
            + session_name + " (completed "@ + int_text(age_secs as int) + "s ago)"@,
        KillCause::LibAssistIdle { session_name, idle_secs } => match idle_secs {
            Some(secs) => "Orphan sweep: killing idle library assistant "@ + session_name
                + " (no edit view for "@ + int_text(secs as int) + "s)"@,
            None => "Orphan sweep: killing idle library assistant "@ + session_name
                + " (no edit view ever declared)"@,
        },
    }
}

/// Number of kills among the first `n` decisions.
pub open spec fn kills_in(d: Seq<SweepDecision>, n: int) -> int
    decreases n,
{
    if n <= 0 {
        0
    } else {
        kills_in(d, n - 1) + if d[n - 1].verdict is Kill {
            1int
        } else {
            0
        }
    }
}

/// Number of absence kills among the first `n` decisions.
pub open spec fn absence_kills_in(d: Seq<SweepDecision>, n: int) -> int
    decreases n,
{
    if n <= 0 {
        0
    } else {
        absence_kills_in(d, n - 1) + match d[n - 1].verdict {
            SweepVerdict::Kill(r) => if is_absence_cause(r@) {
                1int
            } else {
                0
            },
            SweepVerdict::Keep => 0,
        }
    }
}

// ───────────────────────────── execution ─────────────────────────────

impl KillReason {
    /// Whether this kill is an absence verdict (an unknown owner or an
    /// unparseable name) rather than routine housekeeping.
    pub fn is_absence(&self) -> (r: bool)
        ensures
            r == is_absence_cause(self@),
    {
        match self {
            KillReason::UnrecognisedName { .. } => true,
            KillReason::ManagerRunAbsent { .. } => true,
            KillReason::ShellRunAbsent { .. } => true,
            KillReason::NodeRunAbsent { .. } => true,
            _ => false,
        }
    }

    /// The log line of this kill, verbatim (its `Display` rendering).
    pub fn message(&self) -> (s: String)
        ensures
            s@ == kill_message(self@),
    {
        let mut out: Vec<char> = Vec::new();
        match self {
            KillReason::UnrecognisedName { session_name } => {
                push_str(&mut out, "Orphan sweep: killing unrecognised session ");
                push_str(&mut out, session_name.as_str());
            },
            KillReason::ManagerRunAbsent { run_id } => {
                push_str(&mut out, "Orphan sweep: killing manager session for absent run ");
                push_str(&mut out, run_id.as_str());
            },
            KillReason::ManagerRunArchived { run_id } => {
                push_str(&mut out, "Orphan sweep: killing manager session for archived run ");
                push_str(&mut out, run_id.as_str());
            },
            KillReason::ShellRunAbsent { run_id } => {
                push_str(&mut out, "Orphan sweep: killing shell session for absent run ");
                push_str(&mut out, run_id.as_str());
            },
            KillReason::ShellRunArchived { run_id } => {
                push_str(&mut out, "Orphan sweep: killing shell session for archived run ");
                push_str(&mut out, run_id.as_str());
            },
            KillReason::NodeRunAbsent { run_id, node_id } => {
                push_str(&mut out, "Orphan sweep: killing session for absent run ");
                push_str(&mut out, run_id.as_str());
                push_str(&mut out, "/");
                push_str(&mut out, node_id.as_str());
            },
            KillReason::NodeRunArchived { run_id, node_id } => {
                push_str(&mut out, "Orphan sweep: killing session for archived run ");
                push_str(&mut out, run_id.as_str());
                push_str(&mut out, "/");
                push_str(&mut out, node_id.as_str());
            },
            KillReason::NodeRunStale { session_name, age_secs } => {
                push_str(&mut out, "Orphan sweep: killing stale session ");
                push_str(&mut out, session_name.as_str());
                push_str(&mut out, " (completed ");
                push_i64(&mut out, *age_secs);
                push_str(&mut out, "s ago)");
            },
            KillReason::LibAssistIdle { session_name, idle_secs } => {
                push_str(&mut out, "Orphan sweep: killing idle library assistant ");
                push_str(&mut out, session_name.as_str());
                match idle_secs {
                    Some(secs) => {
                        push_str(&mut out, " (no edit view for ");
                        push_i64(&mut out, *secs);
                        push_str(&mut out, "s)");
                    },
                    None => {
                        push_str(&mut out, " (no edit view ever declared)");
                    },
                }
            },
        }
        assert(out@ =~= kill_message(self@));
        string_of(&out)
    }
}

/// A fresh copy of a string.
fn copy_string(s: &String) -> (r: String)
    ensures
        r@ == s@,
{
    s.clone()
}

/// The NodeRun TTL window in nanoseconds.
fn node_run_window_exec(ttl: Duration) -> (w: i128)
    requires
        ttl.wf(),
    ensures
        w == node_run_window(ttl),
{
    if ttl.secs > 9_223_372_036_854_775 || (ttl.secs == 9_223_372_036_854_775 && ttl.nanos
        > 807_000_000) {
        3_600_000_000_000
    } else {
        (ttl.secs as i128) * 1_000_000_000 + (ttl.nanos as i128)
    }
}

/// Decide one session.
fn decide_one(input: &SweepInput, ttls: SweepTtls, now: Timestamp) -> (v: SweepVerdict)
    requires
        input_times_in_range(*input),
        timestamp_in_range(now),
        ttls.node_run.wf(),
        ttls.libassist_idle.wf(),
    ensures
        v@ == sweep_verdict(*input, ttls, now),
{
    let parsed = match &input.parsed {
        Some(p) => p,
        None => {
            return SweepVerdict::Kill(
                KillReason::UnrecognisedName { session_name: copy_string(&input.session_name) },
            );
        },
    };
    match parsed {
        ParsedSession::Manager { run_id } => match &input.info {
            None => SweepVerdict::Kill(KillReason::ManagerRunAbsent { run_id: copy_string(run_id) }),
            Some(info) => if info.is_archived {
                SweepVerdict::Kill(KillReason::ManagerRunArchived { run_id: copy_string(run_id) })
            } else {
                SweepVerdict::Keep
            },
        },
        ParsedSession::Shell { run_id } => match &input.info {
            None => SweepVerdict::Kill(KillReason::ShellRunAbsent { run_id: copy_string(run_id) }),
            Some(info) => if info.is_archived {
                SweepVerdict::Kill(KillReason::ShellRunArchived { run_id: copy_string(run_id) })
            } else {
                SweepVerdict::Keep
            },
        },
        ParsedSession::LibAssist => {
            if input.attached {
                return SweepVerdict::Keep;
            }
            match input.focus_age {
                Some(age) => {
                    let younger = age.secs < ttls.libassist_idle.secs || (age.secs
                        == ttls.libassist_idle.secs && age.nanos < ttls.libassist_idle.nanos);
                    proof {
                        assert(younger == (age.total_nanos() < ttls.libassist_idle.total_nanos()))
                            by (nonlinear_arith)
                            requires
                                age.nanos < 1_000_000_000,
                                ttls.libassist_idle.nanos < 1_000_000_000,
                                younger == (age.secs < ttls.libassist_idle.secs || (age.secs
                                    == ttls.libassist_idle.secs && age.nanos
                                    < ttls.libassist_idle.nanos)),
                        ;
                    }
                    if younger {
                        SweepVerdict::Keep
                    } else {
                        SweepVerdict::Kill(
                            KillReason::LibAssistIdle {
                                session_name: copy_string(&input.session_name),
                                idle_secs: Some(#[verifier::truncate] (age.secs as i64)),
                            },
                        )
                    }
                },
                None => SweepVerdict::Kill(
                    KillReason::LibAssistIdle {
                        session_name: copy_string(&input.session_name),
                        idle_secs: None,
                    },
                ),
            }
        },
        ParsedSession::NodeRun { run_id, node_id, iter: _ } => match &input.info {
            None => SweepVerdict::Kill(
                KillReason::NodeRunAbsent { run_id: copy_string(run_id), node_id: copy_string(node_id) },
            ),
            Some(info) => {
                if info.is_archived {
                    return SweepVerdict::Kill(
                        KillReason::NodeRunArchived {
                            run_id: copy_string(run_id),
                            node_id: copy_string(node_id),
                        },
                    );
                }
                match info.completed_at {
                    None => SweepVerdict::Keep,
                    Some(completed) => {
                        let age: i128 = ((now.secs as i128) - (completed.secs as i128))
                            * 1_000_000_000 + ((now.nanos as i128) - (completed.nanos as i128));
                        assert(age == now.total_nanos() - completed.total_nanos());
                        let window = node_run_window_exec(ttls.node_run);
                        if age > window {
                            let secs = age / 1_000_000_000;
                            SweepVerdict::Kill(
                                KillReason::NodeRunStale {
                                    session_name: copy_string(&input.session_name),
                                    age_secs: secs as i64,
                                },
                            )
                        } else {
                            SweepVerdict::Keep
                        }
                    },
                }
            },
        },
    }
}

/// Decide, for every live session, whether it is an orphan: one decision
/// per input, in input order, `Keep` included.
///
/// An orphan is a session whose owner is archived or absent from the event
/// log, a NodeRun completed more than the NodeRun TTL ago, or an idle library
/// assistant (nobody attached, no edit view declared within its TTL). Managers
/// and shells have no TTL.
pub fn decide_sweep(inputs: &[SweepInput], ttls: SweepTtls, now: Timestamp) -> (r: Vec<SweepDecision>)
    requires
        sweep_times_in_range(inputs@, ttls, now),
    ensures
        r@.len() == inputs@.len(),
        forall|i: int|
            0 <= i < inputs@.len() ==> (#[trigger] r@[i]).session_name@ == inputs@[i].session_name@
                && r@[i].verdict@ == sweep_verdict(inputs@[i], ttls, now),
{
    let mut out: Vec<SweepDecision> = Vec::new();
    let mut i: usize = 0;
    while i < inputs.len()
        invariant
            i <= inputs.len(),
            sweep_times_in_range(inputs@, ttls, now),
            out@.len() == i,
            forall|k: int|
                0 <= k < i ==> (#[trigger] out@[k]).session_name@ == inputs@[k].session_name@
                    && out@[k].verdict@ == sweep_verdict(inputs@[k], ttls, now),
        decreases inputs.len() - i,
    {
        assert(input_times_in_range(inputs@[i as int]));
        let verdict = decide_one(&inputs[i], ttls, now);
        out.push(SweepDecision { session_name: copy_string(&inputs[i].session_name), verdict });
        i += 1;
    }
    out
}

/// The pass's own tally of kills: every kill, and the absence kills among
/// them.
pub fn tally_sweep(decisions: &[SweepDecision]) -> (t: SweepTally)
    requires
        decisions@.len() < 0x4000_0000_0000_0000,
    ensures
        t.killed == kills_in(decisions@, decisions@.len() as int),
        t.killed_for_absent_run == absence_kills_in(decisions@, decisions@.len() as int),
{
    let mut t = SweepTally { killed: 0, killed_for_absent_run: 0 };
    let mut i: usize = 0;
    while i < decisions.len()
        invariant
            i <= decisions.len(),
            decisions@.len() < 0x4000_0000_0000_0000,
            t.killed == kills_in(decisions@, i as int),
            t.killed_for_absent_run == absence_kills_in(decisions@, i as int),
            0 <= t.killed_for_absent_run <= t.killed <= i,
        decreases decisions.len() - i,
    {
        match &decisions[i].verdict {
            SweepVerdict::Keep => {},
            SweepVerdict::Kill(reason) => {
                if reason.is_absence() {
                    t.killed_for_absent_run = t.killed_for_absent_run + 1;
                }
                t.killed = t.killed + 1;
            },
        }
        i += 1;
    }
    t
}

// ───────────────────────────── laws ─────────────────────────────

/// A session whose name does not parse is killed as unrecognised, whatever
/// its owner's facts.
pub proof fn law_unparsed_name_is_killed(input: SweepInput, ttls: SweepTtls, now: Timestamp)
    requires
        input.parsed is None,
    ensures
        sweep_verdict(input, ttls, now) == VerdictView::Kill(
            KillCause::UnrecognisedName { session_name: input.session_name@ },
        ),
{
}

/// Managers and run shells have no TTL: while their run is known and not
/// archived they are kept, however long ago anything completed.
pub proof fn law_manager_and_shell_have_no_ttl(input: SweepInput, ttls: SweepTtls, now: Timestamp)
    requires
        opt_key(input.parsed) matches Some(k) && (k is Manager || k is Shell),
        input.info matches Some(info) && !info.is_archived,
    ensures
        sweep_verdict(input, ttls, now) == VerdictView::Keep,
{
}

/// The library assistant is never killed while a client is attached.
pub proof fn law_attached_assistant_is_kept(input: SweepInput, ttls: SweepTtls, now: Timestamp)
    requires
        opt_key(input.parsed) == Some(SessionKey::LibAssist),
        input.attached,
    ensures
        sweep_verdict(input, ttls, now) == VerdictView::Keep,
{
}

/// The NodeRun TTL is strict: a session whose NodeRun completed exactly one
/// TTL ago is kept; one nanosecond more and it is stale.
pub proof fn law_node_run_ttl_is_strict(
    input: SweepInput,
    ttls: SweepTtls,
    now: Timestamp,
    completed: Timestamp,
)
    requires
        opt_key(input.parsed) matches Some(k) && k is NodeRun,
        input.info == Some(NodeRunInfo { completed_at: Some(completed), is_archived: false }),
    ensures
        now.total_nanos() - completed.total_nanos() == node_run_window(ttls.node_run) ==> sweep_verdict(
            input,
            ttls,
            now,
        ) == VerdictView::Keep,
        now.total_nanos() - completed.total_nanos() > node_run_window(ttls.node_run) ==> sweep_verdict(
            input,
            ttls,
            now,
        ) is Kill,
{
}

/// A TTL too large for a signed time delta falls back to one hour, never to
/// "never reap".
pub proof fn law_out_of_range_ttl_is_one_hour(ttl: Duration)
    requires
        ttl.secs > 9_223_372_036_854_775,
    ensures
        node_run_window(ttl) == 3_600_000_000_000,
{
}

/// Absence kills are a subset of the kills.
pub proof fn law_absence_kills_within_kills(d: Seq<SweepDecision>, n: int)
    requires
        0 <= n <= d.len(),
    ensures
        0 <= absence_kills_in(d, n) <= kills_in(d, n) <= n,
    decreases n,
{
    if n > 0 {
        law_absence_kills_within_kills(d, n - 1);
    }
}

} // verus!
