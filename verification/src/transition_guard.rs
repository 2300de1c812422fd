//! The transition guard: is a node-lifecycle event legal given the run state
//! projected from the event log?
//!
//! Every emitter of a node-lifecycle event consults the guard before it
//! appends. The guard is pure: no I/O, no clock, no store.
use vstd::prelude::*;
use crate::json::{flagged, is_flagged, JsonValue};
use crate::text::{int_text, push_i64, push_str, str_eq, string_of};

verus! {

broadcast use vstd::string::group_string_axioms;

/// The kind of an event of the run's log.
#[derive(Clone, Copy, Debug, PartialEq, Eq, Structural)]
pub enum EventKind {
    RunStarted,
    RunPaused,
    RunResumed,
    RunCompleted,
    RunFailed,
    RunSkipped,
    NodeStarted,
    NodeWaiting,
    NodeCompleted,
    NodeAutoCompleted,
    NodeFailed,
    NodeInterrupted,
    NodeStale,
    NodeStopped,
    NodeInvalidated,
    CollectionStarted,
    CommandIssued,
    MergeResolverStarted,
    MergeResolverCompleted,
    MergeResolverFailed,
}

/// The projected status of a node, or of one of its iterations.
#[derive(Clone, Copy, Debug, PartialEq, Eq, Structural)]
pub enum NodeStatus {
    Pending,
    Waiting,
    Running,
    AwaitingUser,
    Completed,
    Skipped,
    Failed,
    Stopped,
    Stale,
    Interrupted,
}

/// The projected status of a run.
#[derive(Clone, Copy, Debug, PartialEq, Eq, Structural)]
pub enum RunStatus {
    Running,
    AwaitingUser,
    Paused,
    Completed,
    Failed,
}

/// One iteration of a node.
#[derive(Clone, Copy, Debug, PartialEq, Eq, Structural)]
pub struct IterationState {
    pub iter: i64,
    pub status: NodeStatus,
}

/// A node of the projection. `iter` is the iteration the node-level status
/// speaks of (the one a `Waiting` node is owed).
#[derive(Debug, PartialEq, Eq)]
pub struct NodeState {
    pub node_id: String,
    pub status: NodeStatus,
    pub iter: i64,
    pub iterations: Vec<IterationState>,
}

/// A `kind: collection` region: a parallel fan-out of one node over
/// `total_items` laps, open until its barrier fires (`done`).
#[derive(Debug, PartialEq, Eq)]
pub struct CollectionState {
    /// The region's entry node.
    pub entry: String,
    /// The other nodes the region governs.
    pub members: Vec<String>,
    pub total_items: i64,
    pub done: bool,
}

/// The run state projected from the log. Nodes are looked up by id, the
/// first entry with the id answering (ids are unique in a projection).
#[derive(Debug, PartialEq, Eq)]
pub struct RunState {
    pub run_id: String,
    pub status: RunStatus,
    pub nodes: Vec<NodeState>,
    pub collection_states: Vec<CollectionState>,
}

/// A lifecycle event to validate. `iter` defaults to 1 when absent.
#[derive(Debug, PartialEq, Eq)]
pub struct Event {
    pub kind: EventKind,
    pub node_id: Option<String>,
    pub iter: Option<i64>,
    pub payload: Option<JsonValue>,
}

/// Why the guard refused an event: one variant per tested condition.
#[derive(Debug, PartialEq, Eq)]
pub enum RejectReason {
    /// A lifecycle event with no `node_id`.
    MissingNodeId { kind: EventKind },
    /// The run does not accept lifecycle events (neither `Running` nor
    /// `AwaitingUser`); `kind` picks the wording.
    RunNotLive { run_id: String, status: RunStatus, node_id: String, iter: i64, kind: EventKind },
    /// Start refused: a different iteration holds the live slot, outside an
    /// open collection lap. `live_iter` may be older than `iter`.
    ConcurrentIterationLive { node_id: String, live_iter: i64, iter: i64 },
    /// Start refused: the iteration is already settled.
    IterationAlreadyCompleted { node_id: String, iter: i64 },
    /// Completion refused: the iteration sits in a status one cannot
    /// complete from.
    IterationNotCompletable { node_id: String, iter: i64, status: NodeStatus },
    /// Completion refused: no iteration ever started.
    IterationNeverStarted { node_id: String, iter: i64 },
}

/// The outcome of validating an event.
#[derive(Debug, PartialEq, Eq)]
pub enum Verdict {
    /// Legal: append it.
    Allow,
    /// A legal duplicate: skip the append and any re-evaluation, silently.
    NoOp { reason: String },
    /// Illegal: refuse the append and surface the reason.
    Reject { reason: RejectReason },
}

/// The mathematical value of a [`RejectReason`].
pub enum Refusal {
    MissingNodeId { kind: EventKind },
    RunNotLive { run_id: Seq<char>, status: RunStatus, node_id: Seq<char>, iter: i64, kind: EventKind },
    ConcurrentIterationLive { node_id: Seq<char>, live_iter: i64, iter: i64 },
    IterationAlreadyCompleted { node_id: Seq<char>, iter: i64 },
    IterationNotCompletable { node_id: Seq<char>, iter: i64, status: NodeStatus },
    IterationNeverStarted { node_id: Seq<char>, iter: i64 },
}

/// The mathematical value of a [`Verdict`].
pub enum Ruling {
    Allow,
    NoOp(Seq<char>),
    Reject(Refusal),
}

impl View for RejectReason {
    type V = Refusal;

    open spec fn view(&self) -> Refusal {
        match self {
            RejectReason::MissingNodeId { kind } => Refusal::MissingNodeId { kind: *kind },
            RejectReason::RunNotLive { run_id, status, node_id, iter, kind } => Refusal::RunNotLive {
                run_id: run_id@,
                status: *status,
                node_id: node_id@,
                iter: *iter,
                kind: *kind,
            },
            RejectReason::ConcurrentIterationLive { node_id, live_iter, iter } =>
                Refusal::ConcurrentIterationLive { node_id: node_id@, live_iter: *live_iter, iter: *iter },
            RejectReason::IterationAlreadyCompleted { node_id, iter } =>
                Refusal::IterationAlreadyCompleted { node_id: node_id@, iter: *iter },
            RejectReason::IterationNotCompletable { node_id, iter, status } =>
                Refusal::IterationNotCompletable { node_id: node_id@, iter: *iter, status: *status },
            RejectReason::IterationNeverStarted { node_id, iter } =>
                Refusal::IterationNeverStarted { node_id: node_id@, iter: *iter },
        }
    }
}

impl View for Verdict {
    type V = Ruling;

    open spec fn view(&self) -> Ruling {
        match self {
            Verdict::Allow => Ruling::Allow,
            Verdict::NoOp { reason } => Ruling::NoOp(reason@),
            Verdict::Reject { reason } => Ruling::Reject(reason@),
        }
    }
}

// ───────────────────────────── the projection ─────────────────────────────

/// A run accepts lifecycle events while `Running` or `AwaitingUser`.
pub open spec fn accepts_lifecycle(s: RunStatus) -> bool {
    s is Running || s is AwaitingUser
}

/// A status holding (or owed) a live agent session.
pub open spec fn is_live_status(s: NodeStatus) -> bool {
    s is Running || s is AwaitingUser
}

/// A settled iteration: completed, or skipped (as settled as completed).
pub open spec fn is_settled(s: Option<NodeStatus>) -> bool {
    s == Some(NodeStatus::Completed) || s == Some(NodeStatus::Skipped)
}

/// The first node with the id.
pub open spec fn node_of(nodes: Seq<NodeState>, id: Seq<char>) -> Option<NodeState>
    decreases nodes.len(),
{
    if nodes.len() == 0 {
        None
    } else if nodes[0].node_id@ == id {
        Some(nodes[0])
    } else {
        node_of(nodes.drop_first(), id)
    }
}

/// The status of the first iteration numbered `iter`.
pub open spec fn status_in(its: Seq<IterationState>, iter: i64) -> Option<NodeStatus>
    decreases its.len(),
{
    if its.len() == 0 {
        None
    } else if its[0].iter == iter {
        Some(its[0].status)
    } else {
        status_in(its.drop_first(), iter)
    }
}

/// The status of iteration `iter` of node `id`, if the node has it.
pub open spec fn iteration_status_of(state: RunState, id: Seq<char>, iter: i64) -> Option<NodeStatus> {
    match node_of(state.nodes@, id) {
        Some(n) => status_in(n.iterations@, iter),
        None => None,
    }
}

/// The highest iteration number among the live iterations.
pub open spec fn max_live(its: Seq<IterationState>) -> Option<i64>
    decreases its.len(),
{
    if its.len() == 0 {
        None
    } else {
        let rest = max_live(its.drop_last());
        let last = its.last();
        if is_live_status(last.status) {
            match rest {
                Some(m) => Some(if m >= last.iter { m } else { last.iter }),
                None => Some(last.iter),
            }
        } else {
            rest
        }
    }
}

/// The iteration holding (or owed) the node's live session: the node's own
/// iteration when it is `Waiting` (throttled, no row yet), else the highest
/// `Running` / `AwaitingUser` iteration.
pub open spec fn live_iteration_of(state: RunState, id: Seq<char>) -> Option<i64> {
    match node_of(state.nodes@, id) {
        Some(n) => if n.status is Waiting {
            Some(n.iter)
        } else {
            max_live(n.iterations@)
        },
        None => None,
    }
}

/// The region governs the node: its entry or one of its members.
pub open spec fn governs(cs: CollectionState, id: Seq<char>) -> bool {
    cs.entry@ == id || exists|j: int| 0 <= j < cs.members@.len() && (#[trigger] cs.members@[j])@ == id
}

/// `(id, iter)` is a lap of this region while its barrier is still open.
pub open spec fn lap_of(cs: CollectionState, id: Seq<char>, iter: i64) -> bool {
    !cs.done && 1 <= iter && iter <= cs.total_items && governs(cs, id)
}

/// `(id, iter)` is a parallel item lap of an open collection region: the one
/// exemption to "a node has at most one live iteration".
pub open spec fn open_lap(state: RunState, id: Seq<char>, iter: i64) -> bool {
    exists|k: int| 0 <= k < state.collection_states@.len() && lap_of(#[trigger] state.collection_states@[k], id, iter)
}

// ───────────────────────────── the rules ─────────────────────────────

/// A completion: `NodeCompleted` or `NodeAutoCompleted`.
pub open spec fn is_completion(k: EventKind) -> bool {
    k is NodeCompleted || k is NodeAutoCompleted
}

/// A start: `NodeStarted` or `NodeWaiting`.
pub open spec fn is_start(k: EventKind) -> bool {
    k is NodeStarted || k is NodeWaiting
}

/// The lifecycle kinds the guard governs.
pub open spec fn is_lifecycle(k: EventKind) -> bool {
    is_completion(k) || is_start(k) || k is NodeStale || k is NodeFailed || k is NodeInterrupted
}

/// The node an event names.
pub open spec fn event_node(e: Event) -> Option<Seq<char>> {
    match e.node_id {
        Some(s) => Some(s@),
        None => None,
    }
}

/// The iteration an event names; 1 when it names none.
pub open spec fn event_iter(e: Event) -> i64 {
    match e.iter {
        Some(i) => i,
        None => 1,
    }
}

/// The `skipped: true` marker of a local skip or a reachability auto-skip.
pub open spec fn is_skip(e: Event) -> bool {
    match e.payload {
        Some(p) => flagged(p, "skipped"@),
        None => false,
    }
}

/// `node <id> iter <n>`.
pub open spec fn node_iter(id: Seq<char>, iter: i64) -> Seq<char> {
    "node "@ + id + " iter "@ + int_text(iter as int)
}

/// The refusal of a run that is not live.
pub open spec fn not_live(state: RunState, id: Seq<char>, iter: i64, kind: EventKind) -> Refusal {
    Refusal::RunNotLive { run_id: state.run_id@, status: state.status, node_id: id, iter, kind }
}

/// The ruling on a completion.
pub open spec fn completion_ruling(state: RunState, e: Event) -> Ruling {
    match event_node(e) {
        None => Ruling::Reject(Refusal::MissingNodeId { kind: e.kind }),
        Some(id) => {
            let iter = event_iter(e);
            if !accepts_lifecycle(state.status) {
                Ruling::Reject(not_live(state, id, iter, e.kind))
            } else {
                match iteration_status_of(state, id, iter) {
                    Some(s) => if s is Completed || s is Skipped {
                        Ruling::NoOp(node_iter(id, iter) + " is already completed: duplicate completion ignored"@)
                    } else if s is Running || s is AwaitingUser || s is Failed {
                        Ruling::Allow
                    } else {
                        Ruling::Reject(Refusal::IterationNotCompletable { node_id: id, iter, status: s })
                    },
                    None => if is_skip(e) {
                        Ruling::Allow
                    } else {
                        Ruling::Reject(Refusal::IterationNeverStarted { node_id: id, iter })
                    },
                }
            }
        },
    }
}

/// The ruling on a start.
pub open spec fn start_ruling(state: RunState, e: Event) -> Ruling {
    match event_node(e) {
        None => Ruling::Reject(Refusal::MissingNodeId { kind: e.kind }),
        Some(id) => {
            let iter = event_iter(e);
            if !accepts_lifecycle(state.status) {
                Ruling::Reject(not_live(state, id, iter, e.kind))
            } else if live_iteration_of(state, id) is Some && live_iteration_of(state, id)->0 != iter
                && !open_lap(state, id, iter) {
                Ruling::Reject(Refusal::ConcurrentIterationLive {
                    node_id: id,
                    live_iter: live_iteration_of(state, id)->0,
                    iter,
                })
            } else if is_settled(iteration_status_of(state, id, iter)) {
                Ruling::Reject(Refusal::IterationAlreadyCompleted { node_id: id, iter })
            } else {
                Ruling::Allow
            }
        },
    }
}

/// Terminal for a late failure or stale marker.
pub open spec fn is_terminal(s: NodeStatus) -> bool {
    s is Completed || s is Skipped || s is Failed || s is Stopped || s is Stale
}

/// The ruling on a late detector event (`NodeFailed` or `NodeStale`):
/// dropped on a terminal or never-started iteration, allowed otherwise.
pub open spec fn late_ruling(state: RunState, e: Event, what: Seq<char>) -> Ruling {
    match event_node(e) {
        None => Ruling::Reject(Refusal::MissingNodeId { kind: e.kind }),
        Some(id) => {
            let iter = event_iter(e);
            match iteration_status_of(state, id, iter) {
                Some(s) => if is_terminal(s) {
                    Ruling::NoOp(node_iter(id, iter) + " is already terminal: "@ + what + " ignored"@)
                } else {
                    Ruling::Allow
                },
                None => Ruling::NoOp(node_iter(id, iter) + " has no started iteration: "@ + what + " ignored"@),
            }
        },
    }
}

/// The ruling on an interrupt: dropped on a terminal or interrupted
/// iteration, and on a never-started iteration of an already-interrupted
/// node; allowed otherwise, whatever the run's status.
pub open spec fn interrupt_ruling(state: RunState, e: Event) -> Ruling {
    match event_node(e) {
        None => Ruling::Reject(Refusal::MissingNodeId { kind: e.kind }),
        Some(id) => {
            let iter = event_iter(e);
            match iteration_status_of(state, id, iter) {
                Some(s) => if is_terminal(s) || s is Interrupted {
                    Ruling::NoOp(node_iter(id, iter) + " is already terminal: interrupt ignored"@)
                } else {
                    Ruling::Allow
                },
                None => if node_of(state.nodes@, id) is Some && node_of(state.nodes@, id)->0.status is Interrupted {
                    Ruling::NoOp("node "@ + id + " is already interrupted: interrupt ignored"@)
                } else {
                    Ruling::Allow
                },
            }
        },
    }
}

/// The guard's ruling on an event, given the projected state if any.
pub open spec fn transition_ruling(state: Option<RunState>, e: Event) -> Ruling {
    match state {
        None => Ruling::Allow,
        Some(st) => if is_completion(e.kind) {
            completion_ruling(st, e)
        } else if is_start(e.kind) {
            start_ruling(st, e)
        } else if e.kind is NodeStale {
            late_ruling(st, e, "stale marker"@)
        } else if e.kind is NodeFailed {
            late_ruling(st, e, "failure"@)
        } else if e.kind is NodeInterrupted {
            interrupt_ruling(st, e)
        } else {
            Ruling::Allow
        },
    }
}

/// Why a scheduler proposal to spawn `(id, iter)` is superfluous, if it is:
/// the node has a live iteration (the proposed one included) that is not a
/// sibling lap of an open collection, or the proposed iteration is settled.
pub open spec fn superfluous_reason(state: RunState, id: Seq<char>, iter: i64) -> Option<Seq<char>> {
    if live_iteration_of(state, id) is Some && !(live_iteration_of(state, id)->0 != iter && open_lap(
        state,
        id,
        iter,
    )) {
        Some(node_iter(id, live_iteration_of(state, id)->0) + " is live: scheduler will not spawn iter "@
            + int_text(iter as int))
    } else if is_settled(iteration_status_of(state, id, iter)) {
        Some(node_iter(id, iter) + " already completed: nothing to spawn"@)
    } else {
        None
    }
}

// ───────────────────────────── laws ─────────────────────────────

/// The guard governs node lifecycle only: any other kind of event is
/// allowed, whatever the state.
pub proof fn law_ungoverned_kinds_are_allowed(state: Option<RunState>, e: Event)
    requires
        !is_lifecycle(e.kind),
    ensures
        transition_ruling(state, e) == Ruling::Allow,
{
}

/// A settled (completed or skipped) iteration is never started again.
pub proof fn law_settled_iteration_never_restarts(state: RunState, e: Event)
    requires
        is_start(e.kind),
        event_node(e) is Some,
        is_settled(iteration_status_of(state, event_node(e)->0, event_iter(e))),
    ensures
        transition_ruling(Some(state), e) is Reject,
{
}

/// Completing a settled iteration again, on a live run, is a silent no-op.
pub proof fn law_duplicate_completion_is_noop(state: RunState, e: Event)
    requires
        is_completion(e.kind),
        event_node(e) is Some,
        accepts_lifecycle(state.status),
        is_settled(iteration_status_of(state, event_node(e)->0, event_iter(e))),
    ensures
        transition_ruling(Some(state), e) is NoOp,
{
}

/// A run that is neither running nor awaiting its user refuses every start
/// and every completion, and says the run must be resumed first.
pub proof fn law_dead_run_refuses_starts_and_completions(state: RunState, e: Event)
    requires
        is_start(e.kind) || is_completion(e.kind),
        event_node(e) is Some,
        !accepts_lifecycle(state.status),
    ensures
        transition_ruling(Some(state), e) == Ruling::Reject(
            not_live(state, event_node(e)->0, event_iter(e), e.kind),
        ),
{
}

/// A late detector event (failure, stale marker, interrupt) that names its
/// node is never refused: it is appended or dropped as a duplicate.
pub proof fn law_late_events_are_never_refused(state: RunState, e: Event)
    requires
        e.kind is NodeFailed || e.kind is NodeStale || e.kind is NodeInterrupted,
        event_node(e) is Some,
    ensures
        !(transition_ruling(Some(state), e) is Reject),
{
}

/// Outside an open collection lap, an allowed start never leaves two live
/// iterations: any iteration already live is the one being started.
pub proof fn law_allowed_start_is_the_only_live_iteration(state: RunState, e: Event)
    requires
        is_start(e.kind),
        event_node(e) is Some,
        transition_ruling(Some(state), e) == Ruling::Allow,
        live_iteration_of(state, event_node(e)->0) is Some,
        !open_lap(state, event_node(e)->0, event_iter(e)),
    ensures
        live_iteration_of(state, event_node(e)->0) == Some(event_iter(e)),
{
}

/// On a live run, a spawn the scheduler does not dedup passes the guard: the
/// `NodeStarted` it emits is allowed.
pub proof fn law_spawn_dedup_agrees_with_the_guard(state: RunState, e: Event)
    requires
        e.kind is NodeStarted,
        event_node(e) is Some,
        accepts_lifecycle(state.status),
        superfluous_reason(state, event_node(e)->0, event_iter(e)) is None,
    ensures
        transition_ruling(Some(state), e) == Ruling::Allow,
{
}

/// A completion of a never-started iteration on a live run is allowed
/// exactly when it carries the skip marker; otherwise it is refused as
/// never started.
pub proof fn law_only_a_skip_completes_the_unstarted(state: RunState, e: Event)
    requires
        is_completion(e.kind),
        event_node(e) is Some,
        accepts_lifecycle(state.status),
        iteration_status_of(state, event_node(e)->0, event_iter(e)) is None,
    ensures
        transition_ruling(Some(state), e) == (if is_skip(e) {
            Ruling::Allow
        } else {
            Ruling::Reject(Refusal::IterationNeverStarted { node_id: event_node(e)->0, iter: event_iter(e) })
        }),
{
}

/// On a live run, a completion of a started iteration is ruled by that
/// iteration's status alone: an iteration holding (or owed) a session,
/// running, awaiting its user or failed, may always complete; a completed or
/// skipped one drops the duplicate; any other (pending, waiting, stopped,
/// stale, interrupted) is refused as not completable, naming its status.
pub proof fn law_a_live_session_may_always_complete(state: RunState, e: Event, s: NodeStatus)
    requires
        e.kind is NodeCompleted || e.kind is NodeAutoCompleted,
        e.node_id is Some,
        state.status is Running || state.status is AwaitingUser,
        iteration_status_of(state, e.node_id->0@, event_iter(e)) == Some(s),
    ensures
        (s is Running || s is AwaitingUser || s is Failed) ==> transition_ruling(Some(state), e) == Ruling::Allow,
        (s is Completed || s is Skipped) ==> transition_ruling(Some(state), e) is NoOp,
        (s is Pending || s is Waiting || s is Stopped || s is Stale || s is Interrupted) ==> transition_ruling(
            Some(state),
            e,
        ) == Ruling::Reject(Refusal::IterationNotCompletable { node_id: e.node_id->0@, iter: event_iter(e), status: s }),
{
}

// ───────────────────────────── the wording ─────────────────────────────

/// The `Debug` name of a run status.
pub open spec fn run_status_name(s: RunStatus) -> Seq<char> {
    match s {
        RunStatus::Running => "Running"@,
        RunStatus::AwaitingUser => "AwaitingUser"@,
        RunStatus::Paused => "Paused"@,
        RunStatus::Completed => "Completed"@,
        RunStatus::Failed => "Failed"@,
    }
}

/// The `Debug` name of a node status.
pub open spec fn node_status_name(s: NodeStatus) -> Seq<char> {
    match s {
        NodeStatus::Pending => "Pending"@,
        NodeStatus::Waiting => "Waiting"@,
        NodeStatus::Running => "Running"@,
        NodeStatus::AwaitingUser => "AwaitingUser"@,
        NodeStatus::Completed => "Completed"@,
        NodeStatus::Skipped => "Skipped"@,
        NodeStatus::Failed => "Failed"@,
        NodeStatus::Stopped => "Stopped"@,
        NodeStatus::Stale => "Stale"@,
        NodeStatus::Interrupted => "Interrupted"@,
    }
}

/// The verb naming an event kind in a missing-node refusal.
pub open spec fn kind_verb(k: EventKind) -> Seq<char> {
    if is_completion(k) {
        "completion"@
    } else if is_start(k) {
        "start"@
    } else if k is NodeFailed {
        "fail"@
    } else if k is NodeInterrupted {
        "interrupt"@
    } else if k is NodeStale {
        "stale"@
    } else {
        "lifecycle"@
    }
}

/// The wire text of a refusal.
pub open spec fn refusal_text(r: Refusal) -> Seq<char> {
    match r {
        Refusal::MissingNodeId { kind } => kind_verb(kind) + " event without node_id"@,
        Refusal::RunNotLive { run_id, status, node_id, iter, kind } => if is_completion(kind) {
            "run "@ + run_id + " is "@ + run_status_name(status) + ": cannot complete "@ + node_iter(node_id, iter)
                + " \u{2014} resume the run first"@
        } else {
            "run "@ + run_id + " is "@ + run_status_name(status)
                + ": no scheduling on a non-running run \u{2014} resume the run first"@
        },
        Refusal::ConcurrentIterationLive { node_id, live_iter, iter } => node_iter(node_id, live_iter)
            + " is still live: refusing concurrent iter "@ + int_text(iter as int),
        Refusal::IterationAlreadyCompleted { node_id, iter } => node_iter(node_id, iter)
            + " already completed: refusing to re-run it"@,
        Refusal::IterationNotCompletable { node_id, iter, status } => node_iter(node_id, iter) + " is "@
            + node_status_name(status) + ": cannot complete"@,
        Refusal::IterationNeverStarted { node_id, iter } => node_iter(node_id, iter)
            + " was never started (no node_started event): cannot complete"@,
    }
}

// ───────────────────────────── execution ─────────────────────────────

/// The first node with the id.
fn find_node<'a>(state: &'a RunState, id: &str) -> (r: Option<&'a NodeState>)
    ensures
        match r {
            Some(n) => node_of(state.nodes@, id@) == Some(*n),
            None => node_of(state.nodes@, id@) is None,
        },
{
    let mut i: usize = 0;
    assert(state.nodes@.skip(0) == state.nodes@);
    while i < state.nodes.len()
        invariant
            i <= state.nodes@.len(),
            node_of(state.nodes@, id@) == node_of(state.nodes@.skip(i as int), id@),
        decreases state.nodes.len() - i,
    {
        let ghost rest = state.nodes@.skip(i as int);
        assert(rest[0] == state.nodes@[i as int]);
        assert(rest.drop_first() == state.nodes@.skip(i + 1));
        if str_eq(state.nodes[i].node_id.as_str(), id) {
            return Some(&state.nodes[i]);
        }
        i += 1;
    }
    assert(state.nodes@.skip(i as int) =~= Seq::<NodeState>::empty());
    None
}

/// The status of the first iteration numbered `iter`.
fn find_status(its: &Vec<IterationState>, iter: i64) -> (r: Option<NodeStatus>)
    ensures
        r == status_in(its@, iter),
{
    let mut i: usize = 0;
    assert(its@.skip(0) == its@);
    while i < its.len()
        invariant
            i <= its@.len(),
            status_in(its@, iter) == status_in(its@.skip(i as int), iter),
        decreases its.len() - i,
    {
        let ghost rest = its@.skip(i as int);
        assert(rest[0] == its@[i as int]);
        assert(rest.drop_first() == its@.skip(i + 1));
        if its[i].iter == iter {
            return Some(its[i].status);
        }
        i += 1;
    }
    assert(its@.skip(i as int) =~= Seq::<IterationState>::empty());
    None
}

/// Whether the run accepts lifecycle events.
pub fn run_accepts_lifecycle(status: RunStatus) -> (r: bool)
    ensures
        r == accepts_lifecycle(status),
{
    matches!(status, RunStatus::Running | RunStatus::AwaitingUser)
}

/// The status of iteration `iter` of the node, if the node has it.
pub fn iteration_status(state: &RunState, node_id: &str, iter: i64) -> (r: Option<NodeStatus>)
    ensures
        r == iteration_status_of(*state, node_id@, iter),
{
    match find_node(state, node_id) {
        Some(n) => find_status(&n.iterations, iter),
        None => None,
    }
}

/// The iteration currently holding (or owed) the node's live session.
pub fn live_iteration(state: &RunState, node_id: &str) -> (r: Option<i64>)
    ensures
        r == live_iteration_of(*state, node_id@),
{
    match find_node(state, node_id) {
        None => None,
        Some(n) => {
            if matches!(n.status, NodeStatus::Waiting) {
                return Some(n.iter);
            }
            let mut best: Option<i64> = None;
            let mut i: usize = 0;
            while i < n.iterations.len()
                invariant
                    i <= n.iterations@.len(),
                    best == max_live(n.iterations@.take(i as int)),
                decreases n.iterations.len() - i,
            {
                let it = n.iterations[i];
                assert(n.iterations@.take(i + 1).drop_last() =~= n.iterations@.take(i as int));
                assert(n.iterations@.take(i + 1).last() == it);
                if matches!(it.status, NodeStatus::Running | NodeStatus::AwaitingUser) {
                    best = match best {
                        Some(m) => Some(if m >= it.iter { m } else { it.iter }),
                        None => Some(it.iter),
                    };
                }
                i += 1;
            }
            assert(n.iterations@.take(i as int) =~= n.iterations@);
            best
        },
    }
}

/// Whether the region governs the node.
fn region_governs(cs: &CollectionState, id: &str) -> (r: bool)
    ensures
        r == governs(*cs, id@),
{
    if str_eq(cs.entry.as_str(), id) {
        return true;
    }
    let mut j: usize = 0;
    while j < cs.members.len()
        invariant
            j <= cs.members@.len(),
            cs.entry@ != id@,
            forall|k: int| 0 <= k < j ==> (#[trigger] cs.members@[k])@ != id@,
        decreases cs.members.len() - j,
    {
        if str_eq(cs.members[j].as_str(), id) {
            assert(cs.members@[j as int]@ == id@);
            return true;
        }
        j += 1;
    }
    false
}

/// Whether `(node_id, iter)` is a parallel item lap of a collection region
/// whose barrier is still open.
pub fn is_open_collection_lap(state: &RunState, node_id: &str, iter: i64) -> (r: bool)
    ensures
        r == open_lap(*state, node_id@, iter),
{
    let mut k: usize = 0;
    while k < state.collection_states.len()
        invariant
            k <= state.collection_states@.len(),
            forall|m: int| 0 <= m < k ==> !lap_of(#[trigger] state.collection_states@[m], node_id@, iter),
        decreases state.collection_states.len() - k,
    {
        let cs = &state.collection_states[k];
        if !cs.done && iter >= 1 && iter <= cs.total_items && region_governs(cs, node_id) {
            assert(lap_of(state.collection_states@[k as int], node_id@, iter));
            return true;
        }
        k += 1;
    }
    false
}

/// Appends `node <id> iter <n>`.
fn push_node_iter(out: &mut Vec<char>, id: &str, iter: i64)
    ensures
        final(out)@ == old(out)@ + node_iter(id@, iter),
{
    push_str(out, "node ");
    push_str(out, id);
    push_str(out, " iter ");
    push_i64(out, iter);
    assert(out@ =~= old(out)@ + node_iter(id@, iter));
}

/// `node <id> iter <n><tail>`.
fn node_iter_then(id: &str, iter: i64, tail: &str) -> (r: String)
    ensures
        r@ == node_iter(id@, iter) + tail@,
{
    let mut out: Vec<char> = Vec::new();
    push_node_iter(&mut out, id, iter);
    push_str(&mut out, tail);
    assert(out@ =~= node_iter(id@, iter) + tail@);
    string_of(&out)
}

/// The refusal of a run that is not live.
fn run_not_live(state: &RunState, node_id: &str, iter: i64, kind: EventKind) -> (r: RejectReason)
    ensures
        r@ == not_live(*state, node_id@, iter, kind),
{
    RejectReason::RunNotLive {
        run_id: state.run_id.clone(),
        status: state.status,
        node_id: node_id.to_owned(),
        iter,
        kind,
    }
}

/// The node id of a lifecycle event, or the refusal of one without.
fn lifecycle_node(event: &Event) -> (r: Result<&str, Verdict>)
    ensures
        match r {
            Ok(id) => event_node(*event) == Some(id@),
            Err(v) => event_node(*event) is None && v@ == Ruling::Reject(Refusal::MissingNodeId { kind: event.kind }),
        },
{
    match &event.node_id {
        Some(s) => Ok(s.as_str()),
        None => Err(Verdict::Reject { reason: RejectReason::MissingNodeId { kind: event.kind } }),
    }
}

/// Whether the event carries the `skipped: true` marker.
fn is_skip_completion(event: &Event) -> (r: bool)
    ensures
        r == is_skip(*event),
{
    match &event.payload {
        Some(p) => is_flagged(p, "skipped"),
        None => false,
    }
}

/// Validate a completion.
fn validate_completion(state: &RunState, event: &Event) -> (v: Verdict)
    ensures
        v@ == completion_ruling(*state, *event),
{
    let node_id = match lifecycle_node(event) {
        Ok(id) => id,
        Err(v) => return v,
    };
    let iter: i64 = match event.iter {
        Some(i) => i,
        None => 1,
    };
    if !run_accepts_lifecycle(state.status) {
        return Verdict::Reject { reason: run_not_live(state, node_id, iter, event.kind) };
    }
    match iteration_status(state, node_id, iter) {
        Some(s) => match s {
            NodeStatus::Completed | NodeStatus::Skipped => Verdict::NoOp {
                reason: node_iter_then(node_id, iter, " is already completed: duplicate completion ignored"),
            },
            NodeStatus::Running | NodeStatus::AwaitingUser | NodeStatus::Failed => Verdict::Allow,
            other => Verdict::Reject {
                reason: RejectReason::IterationNotCompletable { node_id: node_id.to_owned(), iter, status: other },
            },
        },
        None => if is_skip_completion(event) {
            Verdict::Allow
        } else {
            Verdict::Reject { reason: RejectReason::IterationNeverStarted { node_id: node_id.to_owned(), iter } }
        },
    }
}

/// Validate a start.
fn validate_start(state: &RunState, event: &Event) -> (v: Verdict)
    ensures
        v@ == start_ruling(*state, *event),
{
    let node_id = match lifecycle_node(event) {
        Ok(id) => id,
        Err(v) => return v,
    };
    let iter: i64 = match event.iter {
        Some(i) => i,
        None => 1,
    };
    if !run_accepts_lifecycle(state.status) {
        return Verdict::Reject { reason: run_not_live(state, node_id, iter, event.kind) };
    }
    if let Some(live_iter) = live_iteration(state, node_id) {
        if live_iter != iter && !is_open_collection_lap(state, node_id, iter) {
            return Verdict::Reject {
                reason: RejectReason::ConcurrentIterationLive { node_id: node_id.to_owned(), live_iter, iter },
            };
        }
    }
    if matches!(iteration_status(state, node_id, iter), Some(NodeStatus::Completed) | Some(NodeStatus::Skipped)) {
        return Verdict::Reject {
            reason: RejectReason::IterationAlreadyCompleted { node_id: node_id.to_owned(), iter },
        };
    }
    Verdict::Allow
}

/// Validate a late detector event; `what` names it in the no-op reason.
fn validate_late(state: &RunState, event: &Event, what: &str) -> (v: Verdict)
    ensures
        v@ == late_ruling(*state, *event, what@),
{
    let node_id = match lifecycle_node(event) {
        Ok(id) => id,
        Err(v) => return v,
    };
    let iter: i64 = match event.iter {
        Some(i) => i,
        None => 1,
    };
    match iteration_status(state, node_id, iter) {
        Some(s) => if matches!(
            s,
            NodeStatus::Completed | NodeStatus::Skipped | NodeStatus::Failed | NodeStatus::Stopped | NodeStatus::Stale
        ) {
            let mut out: Vec<char> = Vec::new();
            push_node_iter(&mut out, node_id, iter);
            push_str(&mut out, " is already terminal: ");
            push_str(&mut out, what);
            push_str(&mut out, " ignored");
            assert(out@ =~= node_iter(node_id@, iter) + " is already terminal: "@ + what@ + " ignored"@);
            Verdict::NoOp { reason: string_of(&out) }
        } else {
            Verdict::Allow
        },
        None => {
            let mut out: Vec<char> = Vec::new();
            push_node_iter(&mut out, node_id, iter);
            push_str(&mut out, " has no started iteration: ");
            push_str(&mut out, what);
            push_str(&mut out, " ignored");
            assert(out@ =~= node_iter(node_id@, iter) + " has no started iteration: "@ + what@ + " ignored"@);
            Verdict::NoOp { reason: string_of(&out) }
        },
    }
}

/// Validate an interrupt: never-started iterations are allowed, and the
/// run's liveness is not consulted.
fn validate_interrupt(state: &RunState, event: &Event) -> (v: Verdict)
    ensures
        v@ == interrupt_ruling(*state, *event),
{
    let node_id = match lifecycle_node(event) {
        Ok(id) => id,
        Err(v) => return v,
    };
    let iter: i64 = match event.iter {
        Some(i) => i,
        None => 1,
    };
    match iteration_status(state, node_id, iter) {
        Some(s) => if matches!(
            s,
            NodeStatus::Completed | NodeStatus::Skipped | NodeStatus::Failed | NodeStatus::Stopped
                | NodeStatus::Stale | NodeStatus::Interrupted
        ) {
            Verdict::NoOp { reason: node_iter_then(node_id, iter, " is already terminal: interrupt ignored") }
        } else {
            Verdict::Allow
        },
        None => {
            let interrupted = match find_node(state, node_id) {
                Some(n) => matches!(n.status, NodeStatus::Interrupted),
                None => false,
            };
            if interrupted {
                let mut out: Vec<char> = Vec::new();
                push_str(&mut out, "node ");
                push_str(&mut out, node_id);
                push_str(&mut out, " is already interrupted: interrupt ignored");
                assert(out@ =~= "node "@ + node_id@ + " is already interrupted: interrupt ignored"@);
                Verdict::NoOp { reason: string_of(&out) }
            } else {
                Verdict::Allow
            }
        },
    }
}

/// Validate a lifecycle event against the projected run state.
///
/// With no projected state, and for the kinds the guard does not govern,
/// the event is allowed.
pub fn validate_transition(state: Option<&RunState>, event: &Event) -> (v: Verdict)
    ensures
        v@ == transition_ruling(
            match state {
                Some(s) => Some(*s),
                None => None,
            },
            *event,
        ),
{
    let state = match state {
        Some(s) => s,
        None => return Verdict::Allow,
    };
    match event.kind {
        EventKind::NodeCompleted | EventKind::NodeAutoCompleted => validate_completion(state, event),
        EventKind::NodeStarted | EventKind::NodeWaiting => validate_start(state, event),
        EventKind::NodeStale => validate_late(state, event, "stale marker"),
        EventKind::NodeFailed => validate_late(state, event, "failure"),
        EventKind::NodeInterrupted => validate_interrupt(state, event),
        _ => Verdict::Allow,
    }
}

/// Scheduler-side dedup of a proposed spawn of `(node_id, iter)`: the reason
/// to skip it, if it is superfluous.
pub fn spawn_superfluous(state: &RunState, node_id: &str, iter: i64) -> (r: Option<String>)
    ensures
        match r {
            Some(s) => superfluous_reason(*state, node_id@, iter) == Some(s@),
            None => superfluous_reason(*state, node_id@, iter) is None,
        },
{
    if let Some(live_iter) = live_iteration(state, node_id) {
        if !(live_iter != iter && is_open_collection_lap(state, node_id, iter)) {
            let mut out: Vec<char> = Vec::new();
            push_node_iter(&mut out, node_id, live_iter);
            push_str(&mut out, " is live: scheduler will not spawn iter ");
            push_i64(&mut out, iter);
            assert(out@ =~= node_iter(node_id@, live_iter) + " is live: scheduler will not spawn iter "@ + int_text(
                iter as int,
            ));
            return Some(string_of(&out));
        }
    }
    if matches!(iteration_status(state, node_id, iter), Some(NodeStatus::Completed) | Some(NodeStatus::Skipped)) {
        return Some(node_iter_then(node_id, iter, " already completed: nothing to spawn"));
    }
    None
}

/// The head-of-handler precondition of a retry: is the run live? `iter`
/// feeds the refusal's wording only.
pub fn retry_run_precondition(state: &RunState, node_id: &str, iter: i64) -> (r: Option<RejectReason>)
    ensures
        match r {
            Some(reason) => !accepts_lifecycle(state.status) && reason@ == not_live(
                *state,
                node_id@,
                iter,
                EventKind::NodeStarted,
            ),
            None => accepts_lifecycle(state.status),
        },
{
    if run_accepts_lifecycle(state.status) {
        return None;
    }
    Some(run_not_live(state, node_id, iter, EventKind::NodeStarted))
}

/// Appends the `Debug` name of a run status.
fn push_run_status(out: &mut Vec<char>, s: RunStatus)
    ensures
        final(out)@ == old(out)@ + run_status_name(s),
{
    match s {
        RunStatus::Running => push_str(out, "Running"),
        RunStatus::AwaitingUser => push_str(out, "AwaitingUser"),
        RunStatus::Paused => push_str(out, "Paused"),
        RunStatus::Completed => push_str(out, "Completed"),
        RunStatus::Failed => push_str(out, "Failed"),
    }
}

/// Appends the `Debug` name of a node status.
fn push_node_status(out: &mut Vec<char>, s: NodeStatus)
    ensures
        final(out)@ == old(out)@ + node_status_name(s),
{
    match s {
        NodeStatus::Pending => push_str(out, "Pending"),
        NodeStatus::Waiting => push_str(out, "Waiting"),
        NodeStatus::Running => push_str(out, "Running"),
        NodeStatus::AwaitingUser => push_str(out, "AwaitingUser"),
        NodeStatus::Completed => push_str(out, "Completed"),
        NodeStatus::Skipped => push_str(out, "Skipped"),
        NodeStatus::Failed => push_str(out, "Failed"),
        NodeStatus::Stopped => push_str(out, "Stopped"),
        NodeStatus::Stale => push_str(out, "Stale"),
        NodeStatus::Interrupted => push_str(out, "Interrupted"),
    }
}

/// Appends the verb naming an event kind.
fn push_kind_verb(out: &mut Vec<char>, k: EventKind)
    ensures
        final(out)@ == old(out)@ + kind_verb(k),
{
    match k {
        EventKind::NodeCompleted | EventKind::NodeAutoCompleted => push_str(out, "completion"),
        EventKind::NodeStarted | EventKind::NodeWaiting => push_str(out, "start"),
        EventKind::NodeFailed => push_str(out, "fail"),
        EventKind::NodeInterrupted => push_str(out, "interrupt"),
        EventKind::NodeStale => push_str(out, "stale"),
        _ => push_str(out, "lifecycle"),
    }
}

impl RejectReason {
    /// The wire text of the refusal (its `Display` rendering), verbatim.
    pub fn message(&self) -> (s: String)
        ensures
            s@ == refusal_text(self@),
    {
        let mut out: Vec<char> = Vec::new();
        match self {
            RejectReason::MissingNodeId { kind } => {
                push_kind_verb(&mut out, *kind);
                push_str(&mut out, " event without node_id");
            },
            RejectReason::RunNotLive { run_id, status, node_id, iter, kind } => {
                push_str(&mut out, "run ");
                push_str(&mut out, run_id.as_str());
                push_str(&mut out, " is ");
                push_run_status(&mut out, *status);
                if matches!(kind, EventKind::NodeCompleted | EventKind::NodeAutoCompleted) {
                    push_str(&mut out, ": cannot complete ");
                    push_node_iter(&mut out, node_id.as_str(), *iter);
                    push_str(&mut out, " \u{2014} resume the run first");
                } else {
                    push_str(&mut out, ": no scheduling on a non-running run \u{2014} resume the run first");
                }
            },
            RejectReason::ConcurrentIterationLive { node_id, live_iter, iter } => {
                push_node_iter(&mut out, node_id.as_str(), *live_iter);
                push_str(&mut out, " is still live: refusing concurrent iter ");
                push_i64(&mut out, *iter);
            },
            RejectReason::IterationAlreadyCompleted { node_id, iter } => {
                push_node_iter(&mut out, node_id.as_str(), *iter);
                push_str(&mut out, " already completed: refusing to re-run it");
            },
            RejectReason::IterationNotCompletable { node_id, iter, status } => {
                push_node_iter(&mut out, node_id.as_str(), *iter);
                push_str(&mut out, " is ");
                push_node_status(&mut out, *status);
                push_str(&mut out, ": cannot complete");
            },
            RejectReason::IterationNeverStarted { node_id, iter } => {
                push_node_iter(&mut out, node_id.as_str(), *iter);
                push_str(&mut out, " was never started (no node_started event): cannot complete");
            },
        }
        assert(out@ =~= refusal_text(self@));
        string_of(&out)
    }
}

} // verus!
