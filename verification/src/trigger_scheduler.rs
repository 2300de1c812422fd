//! The Trigger scheduler's per-tick decisions: whether a Trigger is due,
//! how its overlap settings read, and which audit record a fire decision
//! leaves.
//!
//! A manual fire ("Run now") is a first-class fire: same guard, same
//! overlap gate, same audit trail, but always due, and stamped `manual`.
use vstd::prelude::*;
use crate::clock::Timestamp;
use crate::text::{nat_text, push_decimal, push_str, str_eq, string_of};

verus! {

broadcast use vstd::string::group_string_axioms;

/// Where a fire evaluation comes from.
#[derive(Debug, Clone, Copy, PartialEq, Eq, Structural)]
pub enum FireSource {
    Cron,
    Manual,
}

/// How a Trigger treats a fire while its own Runs are still live.
#[derive(Debug, Clone, Copy, PartialEq, Eq, Structural)]
pub enum OverlapPolicy {
    Allow,
    Skip,
}

/// Why a fire was skipped.
#[derive(Debug, PartialEq, Eq)]
pub enum SkipReason {
    /// `skip` overlap: the previous Run is still live.
    OverlapPreviousRunLive,
    /// Bounded `allow` overlap: the ceiling of live Runs is reached.
    OverlapMaxConcurrentReached { live: usize, max: usize },
    /// The guard command exited non-zero: there is no work.
    GuardExitNonZero { stdout: String, stderr: String, exit_code: Option<i32> },
    /// The guard command could not be run.
    GuardError { detail: String },
}

/// The outcome of a fire evaluation.
#[derive(Debug, PartialEq, Eq)]
pub enum FireDecision {
    /// Fire, with the rendered input.
    Fire { input: String },
    /// Do not fire; `None` is a silent no-op (not due, or disabled).
    Skip { reason: Option<SkipReason> },
    /// The Trigger cannot fire.
    Reject { reason: String },
}

/// What happened on a tick, persisted to the audit table.
#[derive(Debug, PartialEq, Eq)]
pub struct FireRecord {
    pub outcome: String,
    pub reason: Option<String>,
    pub run_id: Option<String>,
    /// Guard diagnostics, set only on a `guard-exit-nonzero` record.
    pub guard_stdout: Option<String>,
    pub guard_stderr: Option<String>,
    pub guard_exit_code: Option<i32>,
    /// `cron` or `manual`.
    pub source: Option<String>,
}

/// One row of a Trigger's fire history.
#[derive(Debug, PartialEq, Eq)]
pub struct TriggerFire {
    pub id: i64,
    pub trigger_id: String,
    pub ts: String,
    /// `fired` / `skipped-overlap` / `guard-exit-nonzero` / `guard-error` / `error`.
    pub outcome: String,
    pub reason: Option<String>,
    pub run_id: Option<String>,
    pub guard_stdout: Option<String>,
    pub guard_stderr: Option<String>,
    pub guard_exit_code: Option<i32>,
}

/// The plan for one Trigger on one tick.
#[derive(Debug, PartialEq, Eq)]
pub struct TickPlan {
    pub decision: FireDecision,
    /// The audit record to persist; a silent no-op leaves none.
    pub record: Option<FireRecord>,
    /// The next scheduled fire after now, if any.
    pub next_fire_at: Option<String>,
    pub cron_invalid: bool,
}

/// The mathematical value of a [`FireRecord`].
pub struct Audit {
    pub outcome: Seq<char>,
    pub reason: Option<Seq<char>>,
    pub run_id: Option<Seq<char>>,
    pub guard_stdout: Option<Seq<char>>,
    pub guard_stderr: Option<Seq<char>>,
    pub guard_exit_code: Option<i32>,
    pub source: Option<Seq<char>>,
}

/// The view of an optional string.
pub open spec fn opt_view(s: Option<String>) -> Option<Seq<char>> {
    match s {
        Some(v) => Some(v@),
        None => None,
    }
}

impl View for FireRecord {
    type V = Audit;

    open spec fn view(&self) -> Audit {
        Audit {
            outcome: self.outcome@,
            reason: opt_view(self.reason),
            run_id: opt_view(self.run_id),
            guard_stdout: opt_view(self.guard_stdout),
            guard_stderr: opt_view(self.guard_stderr),
            guard_exit_code: self.guard_exit_code,
            source: opt_view(self.source),
        }
    }
}

/// The `trigger_fires.source` value of a fire source.
pub open spec fn source_text(s: FireSource) -> Seq<char> {
    match s {
        FireSource::Cron => "cron"@,
        FireSource::Manual => "manual"@,
    }
}

impl FireSource {
    /// The `trigger_fires.source` column value.
    pub fn as_str(self) -> (r: &'static str)
        ensures
            r@ == source_text(self),
    {
        match self {
            FireSource::Cron => "cron",
            FireSource::Manual => "manual",
        }
    }
}

// ───────────────────────────── when a Trigger is due ─────────────────────────────

/// The instant an RFC 3339 text denotes, as seconds since the epoch and the
/// sub-second nanoseconds; `None` when the text is not RFC 3339.
pub uninterp spec fn rfc3339_instant(text: Seq<char>) -> Option<(i64, u32)>;

/// `chrono::DateTime::parse_from_rfc3339`, read as an instant.
#[verifier::external_body]
fn parse_rfc3339(text: &str) -> (r: Option<(i64, u32)>)
    ensures
        r == rfc3339_instant(text@),
{
    match chrono::DateTime::parse_from_rfc3339(text) {
        Ok(t) => Some((t.timestamp(), t.timestamp_subsec_nanos())),
        Err(_) => None,
    }
}

/// The instant `at` is no later than `now`.
pub open spec fn not_after(at: (i64, u32), now: Timestamp) -> bool {
    at.0 < now.secs || (at.0 == now.secs && at.1 <= now.nanos)
}

/// Due: a manual fire always is (the click is the schedule); a cron fire is
/// when its stored next fire parses and is no later than now.
pub open spec fn due_spec(next_fire_at: Option<Seq<char>>, now: Timestamp, source: FireSource) -> bool {
    source is Manual || match next_fire_at {
        Some(t) => rfc3339_instant(t) is Some && not_after(rfc3339_instant(t)->0, now),
        None => false,
    }
}

/// Whether the Trigger is due on this tick.
pub fn is_due(next_fire_at: Option<&str>, now: Timestamp, source: FireSource) -> (r: bool)
    ensures
        r == due_spec(
            match next_fire_at {
                Some(t) => Some(t@),
                None => None,
            },
            now,
            source,
        ),
{
    if matches!(source, FireSource::Manual) {
        return true;
    }
    match next_fire_at {
        Some(t) => match parse_rfc3339(t) {
            Some((secs, nanos)) => secs < now.secs || (secs == now.secs && nanos <= now.nanos),
            None => false,
        },
        None => false,
    }
}

/// The overlap policy a Trigger's setting reads as: `allow`, else `skip`.
pub fn overlap_policy_of(setting: &str) -> (r: OverlapPolicy)
    ensures
        r == (if setting@ == "allow"@ {
            OverlapPolicy::Allow
        } else {
            OverlapPolicy::Skip
        }),
{
    if str_eq(setting, "allow") {
        OverlapPolicy::Allow
    } else {
        OverlapPolicy::Skip
    }
}

/// The ceiling of live Runs: the stored value, a stray negative read as 0.
pub fn max_concurrent_of(stored: Option<i64>) -> (r: Option<usize>)
    requires
        stored matches Some(m) ==> m <= usize::MAX,
    ensures
        r == (match stored {
            Some(m) => Some((if m < 0 { 0 } else { m }) as usize),
            None => None,
        }),
{
    match stored {
        Some(m) => Some(if m < 0 { 0 } else { m as usize }),
        None => None,
    }
}

// ───────────────────────────── the audit trail ─────────────────────────────

/// The audit record a decision leaves, stamped with its source: none for a
/// silent no-op.
pub open spec fn audit_of(decision: FireDecision, source: FireSource) -> Option<Audit> {
    let stamp = Some(source_text(source));
    match decision {
        FireDecision::Fire { .. } => Some(
            Audit {
                outcome: "fired"@,
                reason: None,
                run_id: None,
                guard_stdout: None,
                guard_stderr: None,
                guard_exit_code: None,
                source: stamp,
            },
        ),
        FireDecision::Skip { reason: None } => None,
        FireDecision::Skip { reason: Some(SkipReason::OverlapPreviousRunLive) } => Some(
            Audit {
                outcome: "skipped-overlap"@,
                reason: Some("previous run still active"@),
                run_id: None,
                guard_stdout: None,
                guard_stderr: None,
                guard_exit_code: None,
                source: stamp,
            },
        ),
        FireDecision::Skip { reason: Some(SkipReason::OverlapMaxConcurrentReached { live, max }) } => Some(
            Audit {
                outcome: "skipped-overlap"@,
                reason: Some(
                    "max concurrent runs reached ("@ + nat_text(live as nat) + "/"@ + nat_text(max as nat) + ")"@,
                ),
                run_id: None,
                guard_stdout: None,
                guard_stderr: None,
                guard_exit_code: None,
                source: stamp,
            },
        ),
        FireDecision::Skip { reason: Some(SkipReason::GuardExitNonZero { stdout, stderr, exit_code }) } => Some(
            Audit {
                outcome: "guard-exit-nonzero"@,
                reason: Some("guard exited non-zero"@),
                run_id: None,
                guard_stdout: Some(stdout@),
                guard_stderr: Some(stderr@),
                guard_exit_code: exit_code,
                source: stamp,
            },
        ),
        FireDecision::Skip { reason: Some(SkipReason::GuardError { detail }) } => Some(
            Audit {
                outcome: "guard-error"@,
                reason: Some(detail@),
                run_id: None,
                guard_stdout: None,
                guard_stderr: None,
                guard_exit_code: None,
                source: stamp,
            },
        ),
        FireDecision::Reject { reason } => Some(
            Audit {
                outcome: "error"@,
                reason: Some(reason@),
                run_id: None,
                guard_stdout: None,
                guard_stderr: None,
                guard_exit_code: None,
                source: stamp,
            },
        ),
    }
}

/// A record with an outcome and a reason, stamped with its source.
fn stamped(outcome: &str, reason: Option<String>, source: FireSource) -> (r: FireRecord)
    ensures
        r.outcome@ == outcome@,
        r.reason == reason,
        r.run_id is None,
        r.guard_stdout is None,
        r.guard_stderr is None,
        r.guard_exit_code is None,
        opt_view(r.source) == Some(source_text(source)),
{
    FireRecord {
        outcome: outcome.to_owned(),
        reason,
        run_id: None,
        guard_stdout: None,
        guard_stderr: None,
        guard_exit_code: None,
        source: Some(source.as_str().to_owned()),
    }
}

/// The audit record of a decision; the caller fills `run_id` once a fired
/// Run exists.
pub fn record_for(decision: &FireDecision, source: FireSource) -> (r: Option<FireRecord>)
    ensures
        match r {
            Some(rec) => audit_of(*decision, source) == Some(rec@),
            None => audit_of(*decision, source) is None,
        },
{
    match decision {
        FireDecision::Fire { .. } => Some(stamped("fired", None, source)),
        FireDecision::Skip { reason: None } => None,
        FireDecision::Skip { reason: Some(SkipReason::OverlapPreviousRunLive) } => Some(
            stamped("skipped-overlap", Some("previous run still active".to_owned()), source),
        ),
        FireDecision::Skip { reason: Some(SkipReason::OverlapMaxConcurrentReached { live, max }) } => {
            let mut out: Vec<char> = Vec::new();
            push_str(&mut out, "max concurrent runs reached (");
            push_decimal(&mut out, *live as u64);
            push_str(&mut out, "/");
            push_decimal(&mut out, *max as u64);
            push_str(&mut out, ")");
            assert(out@ =~= "max concurrent runs reached ("@ + nat_text(*live as nat) + "/"@ + nat_text(
                *max as nat,
            ) + ")"@);
            Some(stamped("skipped-overlap", Some(string_of(&out)), source))
        },
        FireDecision::Skip { reason: Some(SkipReason::GuardExitNonZero { stdout, stderr, exit_code }) } => {
            let mut rec = stamped("guard-exit-nonzero", Some("guard exited non-zero".to_owned()), source);
            rec.guard_stdout = Some(stdout.clone());
            rec.guard_stderr = Some(stderr.clone());
            rec.guard_exit_code = *exit_code;
            Some(rec)
        },
        FireDecision::Skip { reason: Some(SkipReason::GuardError { detail }) } => Some(
            stamped("guard-error", Some(detail.clone()), source),
        ),
        FireDecision::Reject { reason } => Some(stamped("error", Some(reason.clone()), source)),
    }
}

/// `invalid cron expression: <cron>`.
pub open spec fn invalid_cron_text(cron: Seq<char>) -> Seq<char> {
    "invalid cron expression: "@ + cron
}

/// The plan of a Trigger whose cron does not parse: a refusal, audited as an
/// `error` on this evaluation (a broken cron has no next fire, so it would
/// never surface again), and no next fire.
pub fn invalid_cron_plan(cron: &str, source: FireSource) -> (p: TickPlan)
    ensures
        p.cron_invalid,
        p.next_fire_at is None,
        p.decision matches FireDecision::Reject { reason } && reason@ == invalid_cron_text(cron@),
        p.record matches Some(rec) && audit_of(p.decision, source) == Some(rec@),
{
    let mut out: Vec<char> = Vec::new();
    push_str(&mut out, "invalid cron expression: ");
    push_str(&mut out, cron);
    let decision = FireDecision::Reject { reason: string_of(&out) };
    let record = record_for(&decision, source);
    TickPlan { decision, record, next_fire_at: None, cron_invalid: true }
}

/// The plan of a Trigger whose cron parses: the decision, its audit record,
/// and the next fire the cron yields after now.
pub fn plan_with(decision: FireDecision, next_fire_at: Option<String>, source: FireSource) -> (p: TickPlan)
    ensures
        !p.cron_invalid,
        p.decision == decision,
        p.next_fire_at == next_fire_at,
        match p.record {
            Some(rec) => audit_of(decision, source) == Some(rec@),
            None => audit_of(decision, source) is None,
        },
{
    let record = record_for(&decision, source);
    TickPlan { decision, record, next_fire_at, cron_invalid: false }
}

/// A lifecycle event that decides what happens to a Trigger's stored next
/// fire. The advancing transitions carry nothing here: the slot their cron
/// yields after now is handed to [`recompute_next_fire`] by the caller, which
/// parsed the cron that applies (a schedule edit's new cron, not the stored one).
#[derive(Debug, Clone, Copy, PartialEq, Eq, Structural)]
pub enum Transition {
    Create,
    /// A schedule edit (new cron).
    CronEdit,
    /// A pipeline repoint reviving a dormant Trigger (existing cron).
    Repoint,
    /// Re-enabling a disabled Trigger: forward from now, never a catch-up fire.
    Enable,
    /// A scheduler tick advancing past the slot it just evaluated.
    CronTick,
    /// A manual "Run now": the stored next fire stays as it is.
    ManualFire,
    /// A dangling pipeline or repository reference: stop firing.
    Dangling,
}

/// Whether a transition moves the schedule forward to the cron's next slot.
pub open spec fn advances(t: Transition) -> bool {
    !(t is ManualFire) && !(t is Dangling)
}

/// The one writer-side decision for the stored next fire. `None` leaves the
/// stored value alone; `Some(None)` clears it; `Some(Some(s))` writes `s`.
/// Every advancing transition writes `next_slot`, the first slot after now of
/// the cron that applies (`None` when the cron yields none, which clears the
/// column and stops an impossible expression firing).
pub fn recompute_next_fire(transition: Transition, next_slot: Option<String>) -> (r: Option<Option<String>>)
    ensures
        advances(transition) ==> r == Some(next_slot),
        transition is ManualFire ==> r is None,
        transition is Dangling ==> r == Some(None::<String>),
{
    match transition {
        Transition::Create | Transition::CronEdit | Transition::Repoint | Transition::Enable
        | Transition::CronTick => Some(next_slot),
        Transition::ManualFire => None,
        Transition::Dangling => Some(None),
    }
}

// ───────────────────────────── laws ─────────────────────────────

/// A manual fire is due whatever the schedule says.
pub proof fn law_manual_fire_is_always_due(next_fire_at: Option<Seq<char>>, now: Timestamp)
    ensures
        due_spec(next_fire_at, now, FireSource::Manual),
{
}

/// Only a silent no-op goes unaudited; every other decision leaves a record
/// stamped with the source it came from.
pub proof fn law_every_decision_but_a_noop_is_audited(decision: FireDecision, source: FireSource)
    ensures
        (audit_of(decision, source) is None) <==> (decision matches FireDecision::Skip { reason: None }),
        audit_of(decision, source) matches Some(a) ==> a.source == Some(source_text(source)) && a.run_id is None,
{
}

/// Only a guard that exited non-zero leaves guard diagnostics on the record.
pub proof fn law_guard_output_only_on_guard_exit(decision: FireDecision, source: FireSource)
    ensures
        audit_of(decision, source) matches Some(a) && (a.guard_stdout is Some || a.guard_stderr is Some
            || a.guard_exit_code is Some) ==> decision matches FireDecision::Skip {
            reason: Some(SkipReason::GuardExitNonZero { .. }),
        },
{
}

} // verus!
