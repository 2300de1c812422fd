//! What counts as a performance observation: a walk over one Run's event
//! log that pairs each start with the event that ends it.
//!
//! Only a successful attempt is an observation. A `NodeStarted` for
//! `(node_id, iter)` opens an attempt; a `NodeCompleted` or
//! `NodeAutoCompleted` for the same key observes it; a `NodeFailed`,
//! `NodeStopped`, `NodeInterrupted` or `NodeStale` for the key drops it. A
//! script node never opens one. The Pipeline Manager's one observation per
//! Run is `RunStarted` → `RunCompleted` (never `RunFailed` or `RunSkipped`);
//! a Merge resolver's is `MergeResolverStarted` → the next
//! `MergeResolverCompleted`, dropped by `MergeResolverFailed`.
//!
//! An Infrastructure role's own session is later looked for among the
//! session files of its directory that no Node start claims; the walk hands
//! over which session ids the starts claim, and whether a start that would
//! share the directory left no session id to exclude by.
use vstd::prelude::*;
use crate::absorption::is_empty_text;
use crate::json::{get_bool, get_boolean, get_str, get_string, json_get, get_i64, get_integer, JsonValue};
use crate::text::str_eq;
use crate::session_tally::texts;
use crate::transition_guard::EventKind;

verus! {

broadcast use vstd::string::group_string_axioms;

// ───────────────────────────── node definitions ─────────────────────────────

/// One node of a Run's frozen snapshot, as the walk reads it.
#[derive(Debug, PartialEq, Eq)]
pub struct PerfNodeDef {
    pub name: String,
    pub node_type: String,
    /// Whether the node works in its own sub-worktree.
    pub isolated: bool,
}

/// One `node_defs` entry as `(id, name, node_type, isolated)`: none without
/// a string `id`. The name is the id when unnamed, the type empty when
/// untyped; the isolation is `isolated_worktree`, else what the type
/// implies (`agent` and `merge` nodes are isolated).
pub open spec fn perf_def_of(def: JsonValue) -> Option<(Seq<char>, Seq<char>, Seq<char>, bool)> {
    match get_str(def, "id"@) {
        Some(id) => {
            let node_type = match get_str(def, "node_type"@) {
                Some(t) => t,
                None => Seq::empty(),
            };
            Some(
                (
                    id,
                    match get_str(def, "name"@) {
                        Some(n) => n,
                        None => id,
                    },
                    node_type,
                    match get_bool(def, "isolated_worktree"@) {
                        Some(b) => b,
                        None => node_type == "agent"@ || node_type == "merge"@,
                    },
                ),
            )
        },
        None => None,
    }
}

/// The readable entries among `defs`, in order.
pub open spec fn perf_defs_from(defs: Seq<JsonValue>) -> Seq<(Seq<char>, Seq<char>, Seq<char>, bool)>
    decreases defs.len(),
{
    if defs.len() == 0 {
        Seq::empty()
    } else {
        match perf_def_of(defs.last()) {
            Some(d) => perf_defs_from(defs.drop_last()).push(d),
            None => perf_defs_from(defs.drop_last()),
        }
    }
}

/// The node definitions of a Run's start: the readable entries of its
/// `node_defs` array, in order.
pub open spec fn perf_defs_of(payload: JsonValue) -> Seq<(Seq<char>, Seq<char>, Seq<char>, bool)> {
    match json_get(payload, "node_defs"@) {
        Some(JsonValue::Array(items)) => perf_defs_from(items@),
        _ => Seq::empty(),
    }
}

/// The view of node definitions.
pub open spec fn perf_defs_view(defs: Seq<(String, PerfNodeDef)>) -> Seq<(Seq<char>, Seq<char>, Seq<char>, bool)> {
    defs.map_values(|d: (String, PerfNodeDef)| (d.0@, d.1.name@, d.1.node_type@, d.1.isolated))
}

/// The definition of node `id`: its last one.
pub open spec fn perf_def(defs: Seq<(Seq<char>, Seq<char>, Seq<char>, bool)>, id: Seq<char>) -> Option<
    (Seq<char>, Seq<char>, Seq<char>, bool),
>
    decreases defs.len(),
{
    if defs.len() == 0 {
        None
    } else if defs.last().0 == id {
        Some(defs.last())
    } else {
        perf_def(defs.drop_last(), id)
    }
}

/// The node definitions of a Run's start payload, in order; a later
/// definition of an id shadows an earlier one.
pub fn node_defs_from_payload(payload: &JsonValue) -> (r: Vec<(String, PerfNodeDef)>)
    ensures
        perf_defs_view(r@) == perf_defs_of(*payload),
{
    let mut out: Vec<(String, PerfNodeDef)> = Vec::new();
    match crate::json::get(payload, "node_defs") {
        Some(JsonValue::Array(items)) => {
            let mut i: usize = 0;
            while i < items.len()
                invariant
                    i <= items@.len(),
                    perf_defs_view(out@) == perf_defs_from(items@.take(i as int)),
                decreases items.len() - i,
            {
                let def = &items[i];
                let ghost before = out@;
                assert(items@.take(i + 1).drop_last() =~= items@.take(i as int));
                assert(items@.take(i + 1).last() == *def);
                if let Some(id) = get_string(def, "id") {
                    let name = match get_string(def, "name") {
                        Some(n) => n.clone(),
                        None => id.clone(),
                    };
                    let node_type = match get_string(def, "node_type") {
                        Some(t) => t.clone(),
                        None => String::new(),
                    };
                    let isolated = match get_boolean(def, "isolated_worktree") {
                        Some(b) => b,
                        None => str_eq(node_type.as_str(), "agent") || str_eq(node_type.as_str(), "merge"),
                    };
                    out.push((id.clone(), PerfNodeDef { name, node_type, isolated }));
                    assert(perf_defs_view(out@) =~= perf_defs_view(before).push(perf_def_of(*def)->0));
                }
                i += 1;
            }
            assert(items@.take(i as int) =~= items@);
        },
        _ => {
            assert(perf_defs_view(out@) =~= Seq::<(Seq<char>, Seq<char>, Seq<char>, bool)>::empty());
        },
    }
    out
}

/// The definition of node `id`, if any.
fn perf_def_exec<'a>(defs: &'a Vec<(String, PerfNodeDef)>, id: &str) -> (r: Option<&'a PerfNodeDef>)
    ensures
        match r {
            Some(d) => perf_def(perf_defs_view(defs@), id@) == Some((id@, d.name@, d.node_type@, d.isolated)),
            None => perf_def(perf_defs_view(defs@), id@) is None,
        },
{
    let mut n: usize = defs.len();
    assert(defs@.subrange(0, n as int) =~= defs@);
    while n > 0
        invariant
            n <= defs@.len(),
            perf_def(perf_defs_view(defs@), id@) == perf_def(perf_defs_view(defs@.subrange(0, n as int)), id@),
        decreases n,
    {
        let ghost t = perf_defs_view(defs@.subrange(0, n as int));
        assert(t.last() == (defs@[n - 1].0@, defs@[n - 1].1.name@, defs@[n - 1].1.node_type@, defs@[n - 1].1.isolated));
        if str_eq(defs[n - 1].0.as_str(), id) {
            return Some(&defs[n - 1].1);
        }
        assert(t.drop_last() =~= perf_defs_view(defs@.subrange(0, n - 1)));
        n -= 1;
    }
    None
}

// ───────────────────────────── the walk, in the abstract ─────────────────────────────

/// One entry of a Run's event log, as the walk reads it.
#[derive(Debug)]
pub struct LoggedEvent {
    pub kind: EventKind,
    pub node_id: Option<String>,
    pub iter: Option<i64>,
    /// When it was logged (RFC 3339).
    pub ts: String,
    pub payload: Option<JsonValue>,
}

/// An open node attempt: what its start froze.
pub struct AttemptView {
    pub started_at: Seq<char>,
    pub harness: Seq<char>,
    pub session_id: Option<Seq<char>>,
    pub isolated: bool,
    pub requested_model: Option<Seq<char>>,
    pub requested_effort: Option<Seq<char>>,
}

/// A node start, whatever became of it.
pub struct StartView {
    pub node_id: Seq<char>,
    pub iter: i64,
    pub node_type: Seq<char>,
    pub isolated: bool,
    pub harness: Seq<char>,
    pub session_id: Option<Seq<char>>,
}

/// An open Merge resolver run.
pub struct ResolverView {
    pub started_at: Seq<char>,
    pub conflicting_node_id: Option<Seq<char>>,
    pub iter: Option<i64>,
}

/// One observation.
pub enum ObservationView {
    /// A node attempt that completed.
    Node { node_id: Seq<char>, iter: i64, node_name: Seq<char>, completed_at: Seq<char>, attempt: AttemptView },
    /// The Pipeline Manager of a Run that completed.
    Manager { started_at: Seq<char>, completed_at: Seq<char>, excluded: Seq<Seq<char>>, ambiguous: bool },
    /// A Merge resolver run that completed.
    Resolver {
        started_at: Seq<char>,
        completed_at: Seq<char>,
        conflict: Option<(Seq<char>, i64)>,
        excluded: Seq<Seq<char>>,
        ambiguous: bool,
    },
}

#[verifier::ext_equal]
/// Where the walk stands: the open attempts by `(node_id, iter)`, every
/// node start so far, the open Pipeline Manager run and the open Merge
/// resolver run.
pub struct WalkState {
    pub pending: Map<(Seq<char>, i64), AttemptView>,
    pub starts: Seq<StartView>,
    pub manager: Option<Seq<char>>,
    pub resolver: Option<ResolverView>,
}

/// The iteration of an event: 1 when it names none.
pub open spec fn iter_of(e: LoggedEvent) -> i64 {
    match e.iter {
        Some(i) => i,
        None => 1,
    }
}

/// The string member `key` of an optional payload.
pub open spec fn payload_str(p: Option<JsonValue>, key: Seq<char>) -> Option<Seq<char>> {
    match p {
        Some(v) => get_str(v, key),
        None => None,
    }
}

/// The boolean member `key` of an optional payload.
pub open spec fn payload_bool(p: Option<JsonValue>, key: Seq<char>) -> Option<bool> {
    match p {
        Some(v) => get_bool(v, key),
        None => None,
    }
}

/// The integer member `key` of an optional payload.
pub open spec fn payload_i64(p: Option<JsonValue>, key: Seq<char>) -> Option<i64> {
    match p {
        Some(v) => get_i64(v, key),
        None => None,
    }
}

/// A text unless it is empty.
pub open spec fn nonempty(o: Option<Seq<char>>) -> Option<Seq<char>> {
    match o {
        Some(s) => if s.len() > 0 {
            Some(s)
        } else {
            None
        },
        None => None,
    }
}

/// The start a `NodeStarted` for node `id` records: the type and isolation
/// it froze, else its definition's, else untyped and shared; its non-empty
/// harness, else the primary harness; its non-empty session id.
pub open spec fn start_of(
    e: LoggedEvent,
    id: Seq<char>,
    defs: Seq<(Seq<char>, Seq<char>, Seq<char>, bool)>,
    primary: Seq<char>,
) -> StartView {
    let def = perf_def(defs, id);
    StartView {
        node_id: id,
        iter: iter_of(e),
        node_type: match payload_str(e.payload, "node_type"@) {
            Some(t) => t,
            None => match def {
                Some(d) => d.2,
                None => Seq::empty(),
            },
        },
        isolated: match payload_bool(e.payload, "isolated_worktree"@) {
            Some(b) => b,
            None => match def {
                Some(d) => d.3,
                None => false,
            },
        },
        harness: match nonempty(payload_str(e.payload, "harness"@)) {
            Some(h) => h,
            None => primary,
        },
        session_id: nonempty(payload_str(e.payload, "session_id"@)),
    }
}

/// The attempt a `NodeStarted` opens.
pub open spec fn attempt_of(e: LoggedEvent, s: StartView) -> AttemptView {
    AttemptView {
        started_at: e.ts@,
        harness: s.harness,
        session_id: s.session_id,
        isolated: s.isolated,
        requested_model: nonempty(payload_str(e.payload, "model"@)),
        requested_effort: nonempty(payload_str(e.payload, "effort"@)),
    }
}

/// The session ids the starts claim, in order.
pub open spec fn claimed(starts: Seq<StartView>) -> Seq<Seq<char>>
    decreases starts.len(),
{
    if starts.len() == 0 {
        Seq::empty()
    } else {
        match starts.last().session_id {
            Some(id) => claimed(starts.drop_last()).push(id),
            None => claimed(starts.drop_last()),
        }
    }
}

/// The starts of `(node_id, iter)`, in order.
pub open spec fn starts_of(starts: Seq<StartView>, node_id: Seq<char>, iter: i64) -> Seq<StartView>
    decreases starts.len(),
{
    if starts.len() == 0 {
        Seq::empty()
    } else if starts.last().node_id == node_id && starts.last().iter == iter {
        starts_of(starts.drop_last(), node_id, iter).push(starts.last())
    } else {
        starts_of(starts.drop_last(), node_id, iter)
    }
}

/// A start that shares the Run's directory under the primary harness left
/// no session id: the Pipeline Manager's session cannot be told apart.
pub open spec fn manager_ambiguous(starts: Seq<StartView>, primary: Seq<char>) -> bool {
    exists|i: int|
        0 <= i < starts.len() && (#[trigger] starts[i]).node_type != "script"@ && !starts[i].isolated
            && starts[i].harness == primary && starts[i].session_id is None
}

/// A start of the conflicting node under the primary harness left no
/// session id: the Merge resolver's session cannot be told apart.
pub open spec fn resolver_ambiguous(starts: Seq<StartView>, primary: Seq<char>) -> bool {
    exists|i: int| 0 <= i < starts.len() && (#[trigger] starts[i]).harness == primary && starts[i].session_id is None
}

/// One step of the walk: the state after `e`, and the observation `e`
/// completes, if any.
pub open spec fn walk_step(
    st: WalkState,
    e: LoggedEvent,
    defs: Seq<(Seq<char>, Seq<char>, Seq<char>, bool)>,
    primary: Seq<char>,
) -> (WalkState, Option<ObservationView>) {
    match e.kind {
        EventKind::RunStarted => (WalkState { manager: Some(e.ts@), ..st }, None),
        EventKind::NodeStarted => match e.node_id {
            None => (st, None),
            Some(id) => {
                let s = start_of(e, id@, defs, primary);
                if s.node_type == "script"@ {
                    (WalkState { starts: st.starts.push(s), ..st }, None)
                } else {
                    (
                        WalkState {
                            pending: st.pending.insert((id@, iter_of(e)), attempt_of(e, s)),
                            starts: st.starts.push(s),
                            ..st
                        },
                        None,
                    )
                }
            },
        },
        EventKind::NodeCompleted | EventKind::NodeAutoCompleted => match e.node_id {
            None => (st, None),
            Some(id) => {
                let k = (id@, iter_of(e));
                if st.pending.contains_key(k) {
                    (
                        WalkState { pending: st.pending.remove(k), ..st },
                        Some(
                            ObservationView::Node {
                                node_id: id@,
                                iter: iter_of(e),
                                node_name: match perf_def(defs, id@) {
                                    Some(d) => d.1,
                                    None => id@,
                                },
                                completed_at: e.ts@,
                                attempt: st.pending[k],
                            },
                        ),
                    )
                } else {
                    (st, None)
                }
            },
        },
        EventKind::NodeFailed | EventKind::NodeStopped | EventKind::NodeInterrupted | EventKind::NodeStale => {
            match e.node_id {
                None => (st, None),
                Some(id) => (WalkState { pending: st.pending.remove((id@, iter_of(e))), ..st }, None),
            }
        },
        EventKind::MergeResolverStarted => (
            WalkState {
                resolver: Some(
                    ResolverView {
                        started_at: e.ts@,
                        conflicting_node_id: payload_str(e.payload, "conflicting_node_id"@),
                        iter: payload_i64(e.payload, "iter"@),
                    },
                ),
                ..st
            },
            None,
        ),
        EventKind::MergeResolverCompleted => match st.resolver {
            None => (st, None),
            Some(r) => {
                let o = match (r.conflicting_node_id, r.iter) {
                    (Some(c), Some(i)) => ObservationView::Resolver {
                        started_at: r.started_at,
                        completed_at: e.ts@,
                        conflict: Some((c, i)),
                        excluded: claimed(starts_of(st.starts, c, i)),
                        ambiguous: resolver_ambiguous(starts_of(st.starts, c, i), primary),
                    },
                    _ => ObservationView::Resolver {
                        started_at: r.started_at,
                        completed_at: e.ts@,
                        conflict: None,
                        excluded: Seq::empty(),
                        ambiguous: false,
                    },
                };
                (WalkState { resolver: None, ..st }, Some(o))
            },
        },
        EventKind::MergeResolverFailed => (WalkState { resolver: None, ..st }, None),
        EventKind::RunCompleted => match st.manager {
            None => (st, None),
            Some(t) => (
                WalkState { manager: None, ..st },
                Some(
                    ObservationView::Manager {
                        started_at: t,
                        completed_at: e.ts@,
                        excluded: claimed(st.starts),
                        ambiguous: manager_ambiguous(st.starts, primary),
                    },
                ),
            ),
        },
        EventKind::RunFailed | EventKind::RunSkipped => (WalkState { manager: None, ..st }, None),
        _ => (st, None),
    }
}

/// The state before the first event.
pub open spec fn initial_walk() -> WalkState {
    WalkState { pending: Map::empty(), starts: Seq::empty(), manager: None, resolver: None }
}

/// The state after `events`, and their observations in order.
pub open spec fn walk(
    events: Seq<LoggedEvent>,
    defs: Seq<(Seq<char>, Seq<char>, Seq<char>, bool)>,
    primary: Seq<char>,
) -> (WalkState, Seq<ObservationView>)
    decreases events.len(),
{
    if events.len() == 0 {
        (initial_walk(), Seq::empty())
    } else {
        let (st, obs) = walk(events.drop_last(), defs, primary);
        let (next, o) = walk_step(st, events.last(), defs, primary);
        (
            next,
            match o {
                Some(x) => obs.push(x),
                None => obs,
            },
        )
    }
}

// ───────────────────────────── the walk ─────────────────────────────

/// An open node attempt.
#[derive(Debug, PartialEq, Eq)]
pub struct PendingAttempt {
    pub started_at: String,
    pub harness: String,
    pub session_id: Option<String>,
    pub isolated: bool,
    pub requested_model: Option<String>,
    pub requested_effort: Option<String>,
}

/// A node start.
#[derive(Debug, PartialEq, Eq)]
pub struct StartRecord {
    pub node_id: String,
    pub iter: i64,
    pub node_type: String,
    pub isolated: bool,
    pub harness: String,
    pub session_id: Option<String>,
}

/// An open Merge resolver run.
#[derive(Debug, PartialEq, Eq)]
pub struct ResolverStart {
    pub started_at: String,
    pub conflicting_node_id: Option<String>,
    pub iter: Option<i64>,
}

/// One observation of the walk.
#[derive(Debug, PartialEq, Eq)]
pub enum Observation {
    /// A node attempt that completed.
    Node { node_id: String, iter: i64, node_name: String, completed_at: String, attempt: PendingAttempt },
    /// The Pipeline Manager of a Run that completed, with the session ids
    /// the Run's node starts claim.
    Manager { started_at: String, completed_at: String, excluded: Vec<String>, ambiguous: bool },
    /// A Merge resolver run that completed, with the conflicting node and
    /// the session ids its starts claim.
    Resolver {
        started_at: String,
        completed_at: String,
        conflict: Option<(String, i64)>,
        excluded: Vec<String>,
        ambiguous: bool,
    },
}

/// The text of an optional string.
pub open spec fn opt_view(o: Option<String>) -> Option<Seq<char>> {
    match o {
        Some(s) => Some(s@),
        None => None,
    }
}

impl View for PendingAttempt {
    type V = AttemptView;

    open spec fn view(&self) -> AttemptView {
        AttemptView {
            started_at: self.started_at@,
            harness: self.harness@,
            session_id: opt_view(self.session_id),
            isolated: self.isolated,
            requested_model: opt_view(self.requested_model),
            requested_effort: opt_view(self.requested_effort),
        }
    }
}

impl View for StartRecord {
    type V = StartView;

    open spec fn view(&self) -> StartView {
        StartView {
            node_id: self.node_id@,
            iter: self.iter,
            node_type: self.node_type@,
            isolated: self.isolated,
            harness: self.harness@,
            session_id: opt_view(self.session_id),
        }
    }
}

impl View for ResolverStart {
    type V = ResolverView;

    open spec fn view(&self) -> ResolverView {
        ResolverView {
            started_at: self.started_at@,
            conflicting_node_id: opt_view(self.conflicting_node_id),
            iter: self.iter,
        }
    }
}

impl View for Observation {
    type V = ObservationView;

    open spec fn view(&self) -> ObservationView {
        match self {
            Observation::Node { node_id, iter, node_name, completed_at, attempt } => ObservationView::Node {
                node_id: node_id@,
                iter: *iter,
                node_name: node_name@,
                completed_at: completed_at@,
                attempt: attempt@,
            },
            Observation::Manager { started_at, completed_at, excluded, ambiguous } => ObservationView::Manager {
                started_at: started_at@,
                completed_at: completed_at@,
                excluded: texts(excluded@),
                ambiguous: *ambiguous,
            },
            Observation::Resolver { started_at, completed_at, conflict, excluded, ambiguous } => {
                ObservationView::Resolver {
                    started_at: started_at@,
                    completed_at: completed_at@,
                    conflict: match conflict {
                        Some(c) => Some((c.0@, c.1)),
                        None => None,
                    },
                    excluded: texts(excluded@),
                    ambiguous: *ambiguous,
                }
            },
        }
    }
}

/// The view of an optional observation.
pub open spec fn observed(o: Option<Observation>) -> Option<ObservationView> {
    match o {
        Some(x) => Some(x@),
        None => None,
    }
}

/// The views of observations.
pub open spec fn observations(v: Seq<Observation>) -> Seq<ObservationView> {
    v.map_values(|o: Observation| o@)
}

/// The views of starts.
pub open spec fn start_views(v: Seq<StartRecord>) -> Seq<StartView> {
    v.map_values(|s: StartRecord| s@)
}

/// A log of attempt openings (`Some`) and closings (`None`) by key.
pub type AttemptLog = Vec<((String, i64), Option<PendingAttempt>)>;

/// The open attempts a log leaves: each key as its last entry left it.
pub open spec fn log_map(log: Seq<((String, i64), Option<PendingAttempt>)>) -> Map<(Seq<char>, i64), AttemptView>
    decreases log.len(),
{
    if log.len() == 0 {
        Map::empty()
    } else {
        let m = log_map(log.drop_last());
        let k = (log.last().0.0@, log.last().0.1);
        match log.last().1 {
            Some(a) => m.insert(k, a@),
            None => m.remove(k),
        }
    }
}

/// The walk's state.
pub struct RunWalk {
    pending: AttemptLog,
    starts: Vec<StartRecord>,
    manager: Option<String>,
    resolver: Option<ResolverStart>,
}

impl View for RunWalk {
    type V = WalkState;

    closed spec fn view(&self) -> WalkState {
        WalkState {
            pending: log_map(self.pending@),
            starts: start_views(self.starts@),
            manager: opt_view(self.manager),
            resolver: match self.resolver {
                Some(r) => Some(r@),
                None => None,
            },
        }
    }
}

/// The open attempt of `(id, iter)` in the log.
fn find_pending<'a>(log: &'a AttemptLog, id: &str, iter: i64) -> (r: Option<&'a PendingAttempt>)
    ensures
        match r {
            Some(a) => log_map(log@).contains_key((id@, iter)) && log_map(log@)[(id@, iter)] == a@,
            None => !log_map(log@).contains_key((id@, iter)),
        },
{
    let ghost k = (id@, iter);
    let mut n: usize = log.len();
    assert(log@.subrange(0, n as int) =~= log@);
    while n > 0
        invariant
            n <= log@.len(),
            k == (id@, iter),
            log_map(log@).contains_key(k) == log_map(log@.subrange(0, n as int)).contains_key(k),
            log_map(log@).contains_key(k) ==> log_map(log@)[k] == log_map(log@.subrange(0, n as int))[k],
        decreases n,
    {
        let ghost sub = log@.subrange(0, n as int);
        let ghost m = log_map(log@.subrange(0, n - 1));
        let ghost k2 = (log@[n - 1].0.0@, log@[n - 1].0.1);
        assert(sub.drop_last() =~= log@.subrange(0, n - 1));
        assert(sub.last() == log@[n - 1]);
        assert(log_map(sub) == match log@[n - 1].1 {
            Some(a) => m.insert(k2, a@),
            None => m.remove(k2),
        });
        let entry = &log[n - 1];
        let same = str_eq(entry.0.0.as_str(), id) && entry.0.1 == iter;
        if same {
            assert(k2 == k);
            return match &entry.1 {
                Some(a) => Some(a),
                None => None,
            };
        }
        n -= 1;
    }
    None
}

/// A copy of an attempt.
fn copy_attempt(a: &PendingAttempt) -> (c: PendingAttempt)
    ensures
        c@ == a@,
{
    PendingAttempt {
        started_at: a.started_at.clone(),
        harness: a.harness.clone(),
        session_id: copy_opt(&a.session_id),
        isolated: a.isolated,
        requested_model: copy_opt(&a.requested_model),
        requested_effort: copy_opt(&a.requested_effort),
    }
}

/// A copy of an optional string.
fn copy_opt(o: &Option<String>) -> (c: Option<String>)
    ensures
        opt_view(c) == opt_view(*o),
{
    match o {
        Some(s) => Some(s.clone()),
        None => None,
    }
}

/// A copy of a start.
fn copy_start(s: &StartRecord) -> (c: StartRecord)
    ensures
        c@ == s@,
{
    StartRecord {
        node_id: s.node_id.clone(),
        iter: s.iter,
        node_type: s.node_type.clone(),
        isolated: s.isolated,
        harness: s.harness.clone(),
        session_id: copy_opt(&s.session_id),
    }
}

/// The string member `key` of an optional payload.
fn payload_string<'a>(p: &'a Option<JsonValue>, key: &str) -> (r: Option<&'a String>)
    ensures
        match r {
            Some(s) => payload_str(*p, key@) == Some(s@),
            None => payload_str(*p, key@) is None,
        },
{
    match p {
        Some(v) => get_string(v, key),
        None => None,
    }
}

/// The non-empty string member `key` of an optional payload.
fn payload_nonempty(p: &Option<JsonValue>, key: &str) -> (r: Option<String>)
    ensures
        opt_view(r) == nonempty(payload_str(*p, key@)),
{
    match payload_string(p, key) {
        Some(s) => if is_empty_text(s.as_str()) {
            None
        } else {
            Some(s.clone())
        },
        None => None,
    }
}

/// The start a `NodeStarted` for node `id` records.
fn start_record(e: &LoggedEvent, id: &String, defs: &Vec<(String, PerfNodeDef)>, primary: &str) -> (s: StartRecord)
    ensures
        s@ == start_of(*e, id@, perf_defs_view(defs@), primary@),
{
    let def = perf_def_exec(defs, id.as_str());
    let node_type = match payload_string(&e.payload, "node_type") {
        Some(t) => t.clone(),
        None => match def {
            Some(d) => d.node_type.clone(),
            None => String::new(),
        },
    };
    let isolated = match &e.payload {
        Some(p) => match get_boolean(p, "isolated_worktree") {
            Some(b) => b,
            None => match def {
                Some(d) => d.isolated,
                None => false,
            },
        },
        None => match def {
            Some(d) => d.isolated,
            None => false,
        },
    };
    let harness = match payload_nonempty(&e.payload, "harness") {
        Some(h) => h,
        None => primary.to_owned(),
    };
    let iter: i64 = match e.iter {
        Some(i) => i,
        None => 1,
    };
    StartRecord {
        node_id: id.clone(),
        iter,
        node_type,
        isolated,
        harness,
        session_id: payload_nonempty(&e.payload, "session_id"),
    }
}

/// The session ids the starts claim, in order.
fn claimed_ids(starts: &Vec<StartRecord>) -> (r: Vec<String>)
    ensures
        texts(r@) == claimed(start_views(starts@)),
{
    let mut r: Vec<String> = Vec::new();
    let mut i: usize = 0;
    while i < starts.len()
        invariant
            i <= starts@.len(),
            texts(r@) == claimed(start_views(starts@.take(i as int))),
        decreases starts.len() - i,
    {
        let ghost before = r@;
        assert(start_views(starts@.take(i + 1)).drop_last() =~= start_views(starts@.take(i as int)));
        assert(start_views(starts@.take(i + 1)).last() == starts@[i as int]@);
        match &starts[i].session_id {
            Some(id) => {
                r.push(id.clone());
                assert(texts(r@) =~= texts(before).push(id@));
            },
            None => {},
        }
        i += 1;
    }
    assert(starts@.take(i as int) =~= starts@);
    r
}

/// The starts of `(id, iter)`, in order.
fn starts_of_key(starts: &Vec<StartRecord>, id: &str, iter: i64) -> (r: Vec<StartRecord>)
    ensures
        start_views(r@) == starts_of(start_views(starts@), id@, iter),
{
    let mut r: Vec<StartRecord> = Vec::new();
    let mut i: usize = 0;
    while i < starts.len()
        invariant
            i <= starts@.len(),
            start_views(r@) == starts_of(start_views(starts@.take(i as int)), id@, iter),
        decreases starts.len() - i,
    {
        let ghost before = r@;
        assert(start_views(starts@.take(i + 1)).drop_last() =~= start_views(starts@.take(i as int)));
        assert(start_views(starts@.take(i + 1)).last() == starts@[i as int]@);
        if str_eq(starts[i].node_id.as_str(), id) && starts[i].iter == iter {
            r.push(copy_start(&starts[i]));
            assert(start_views(r@) =~= start_views(before).push(starts@[i as int]@));
        }
        i += 1;
    }
    assert(starts@.take(i as int) =~= starts@);
    r
}

/// Whether a start sharing the Run's directory under the primary harness
/// left no session id.
fn manager_ambiguous_exec(starts: &Vec<StartRecord>, primary: &str) -> (r: bool)
    ensures
        r == manager_ambiguous(start_views(starts@), primary@),
{
    let ghost v = start_views(starts@);
    let mut i: usize = 0;
    while i < starts.len()
        invariant
            i <= starts@.len(),
            v == start_views(starts@),
            forall|j: int|
                0 <= j < i ==> !((#[trigger] v[j]).node_type != "script"@ && !v[j].isolated && v[j].harness == primary@
                    && v[j].session_id is None),
        decreases starts.len() - i,
    {
        let s = &starts[i];
        assert(v[i as int] == s@);
        if !str_eq(s.node_type.as_str(), "script") && !s.isolated && str_eq(s.harness.as_str(), primary)
            && s.session_id.is_none() {
            return true;
        }
        i += 1;
    }
    false
}

/// Whether a start under the primary harness left no session id.
fn resolver_ambiguous_exec(starts: &Vec<StartRecord>, primary: &str) -> (r: bool)
    ensures
        r == resolver_ambiguous(start_views(starts@), primary@),
{
    let ghost v = start_views(starts@);
    let mut i: usize = 0;
    while i < starts.len()
        invariant
            i <= starts@.len(),
            v == start_views(starts@),
            forall|j: int| 0 <= j < i ==> !((#[trigger] v[j]).harness == primary@ && v[j].session_id is None),
        decreases starts.len() - i,
    {
        let s = &starts[i];
        assert(v[i as int] == s@);
        if str_eq(s.harness.as_str(), primary) && s.session_id.is_none() {
            return true;
        }
        i += 1;
    }
    false
}

/// The attempt a `NodeStarted` opens, from the start it records.
fn attempt_from(e: &LoggedEvent, s: &StartRecord) -> (a: PendingAttempt)
    ensures
        a@ == attempt_of(*e, s@),
{
    PendingAttempt {
        started_at: e.ts.clone(),
        harness: s.harness.clone(),
        session_id: copy_opt(&s.session_id),
        isolated: s.isolated,
        requested_model: payload_nonempty(&e.payload, "model"),
        requested_effort: payload_nonempty(&e.payload, "effort"),
    }
}

impl RunWalk {
    /// The walk before the first event.
    pub fn new() -> (w: RunWalk)
        ensures
            w@ == initial_walk(),
    {
        let w = RunWalk { pending: Vec::new(), starts: Vec::new(), manager: None, resolver: None };
        assert(w@.pending =~= initial_walk().pending);
        assert(w@.starts =~= initial_walk().starts);
        w
    }

    /// Walk one event: the observation it completes, if any.
    pub fn step(&mut self, e: &LoggedEvent, defs: &Vec<(String, PerfNodeDef)>, primary: &str) -> (o: Option<
        Observation,
    >)
        ensures
            final(self)@ == walk_step(old(self)@, *e, perf_defs_view(defs@), primary@).0,
            observed(o) == walk_step(old(self)@, *e, perf_defs_view(defs@), primary@).1,
    {
        let ghost st = self@;
        let ghost defs_v = perf_defs_view(defs@);
        let ghost log0 = self.pending@;
        let ghost starts0 = self.starts@;
        let iter: i64 = match e.iter {
            Some(i) => i,
            None => 1,
        };
        match e.kind {
            EventKind::RunStarted => {
                self.manager = Some(e.ts.clone());
                assert(self@ =~= walk_step(st, *e, defs_v, primary@).0);
                None
            },
            EventKind::NodeStarted => match &e.node_id {
                None => None,
                Some(id) => {
                    let s = start_record(e, id, defs, primary);
                    let ghost sv = s@;
                    let k = (id.clone(), iter);
                    if !str_eq(s.node_type.as_str(), "script") {
                        let a = attempt_from(e, &s);
                        let ghost av = a@;
                        self.pending.push((k, Some(a)));
                        proof {
                            assert(self.pending@.drop_last() =~= log0);
                            assert(log_map(self.pending@) == log_map(log0).insert((id@, iter), av));
                        }
                    }
                    self.starts.push(s);
                    proof {
                        assert(start_views(self.starts@) =~= start_views(starts0).push(sv));
                    }
                    assert(self@ =~= walk_step(st, *e, defs_v, primary@).0);
                    None
                },
            },
            EventKind::NodeCompleted | EventKind::NodeAutoCompleted => match &e.node_id {
                None => None,
                Some(id) => {
                    let found = match find_pending(&self.pending, id.as_str(), iter) {
                        Some(a) => Some(copy_attempt(a)),
                        None => None,
                    };
                    match found {
                        None => None,
                        Some(attempt) => {
                            self.pending.push(((id.clone(), iter), None));
                            proof {
                                assert(self.pending@.drop_last() =~= log0);
                                assert(log_map(self.pending@) == log_map(log0).remove((id@, iter)));
                            }
                            let node_name = match perf_def_exec(defs, id.as_str()) {
                                Some(d) => d.name.clone(),
                                None => id.clone(),
                            };
                            assert(self@ =~= walk_step(st, *e, defs_v, primary@).0);
                            Some(
                                Observation::Node {
                                    node_id: id.clone(),
                                    iter,
                                    node_name,
                                    completed_at: e.ts.clone(),
                                    attempt,
                                },
                            )
                        },
                    }
                },
            },
            EventKind::NodeFailed | EventKind::NodeStopped | EventKind::NodeInterrupted | EventKind::NodeStale => {
                match &e.node_id {
                    None => None,
                    Some(id) => {
                        self.pending.push(((id.clone(), iter), None));
                        proof {
                            assert(self.pending@.drop_last() =~= log0);
                            assert(log_map(self.pending@) == log_map(log0).remove((id@, iter)));
                        }
                        assert(self@ =~= walk_step(st, *e, defs_v, primary@).0);
                        None
                    },
                }
            },
            EventKind::MergeResolverStarted => {
                let conflicting_node_id = match payload_string(&e.payload, "conflicting_node_id") {
                    Some(c) => Some(c.clone()),
                    None => None,
                };
                let conflict_iter = match &e.payload {
                    Some(p) => get_integer(p, "iter"),
                    None => None,
                };
                self.resolver = Some(
                    ResolverStart { started_at: e.ts.clone(), conflicting_node_id, iter: conflict_iter },
                );
                assert(self@ =~= walk_step(st, *e, defs_v, primary@).0);
                None
            },
            EventKind::MergeResolverCompleted => {
                let o = match &self.resolver {
                    None => None,
                    Some(r) => match (&r.conflicting_node_id, r.iter) {
                        (Some(c), Some(i)) => {
                            let records = starts_of_key(&self.starts, c.as_str(), i);
                            Some(
                                Observation::Resolver {
                                    started_at: r.started_at.clone(),
                                    completed_at: e.ts.clone(),
                                    conflict: Some((c.clone(), i)),
                                    excluded: claimed_ids(&records),
                                    ambiguous: resolver_ambiguous_exec(&records, primary),
                                },
                            )
                        },
                        _ => {
                            let excluded: Vec<String> = Vec::new();
                            assert(texts(excluded@) =~= Seq::<Seq<char>>::empty());
                            Some(
                                Observation::Resolver {
                                    started_at: r.started_at.clone(),
                                    completed_at: e.ts.clone(),
                                    conflict: None,
                                    excluded,
                                    ambiguous: false,
                                },
                            )
                        },
                    },
                };
                if o.is_some() {
                    self.resolver = None;
                }
                assert(self@ =~= walk_step(st, *e, defs_v, primary@).0);
                o
            },
            EventKind::MergeResolverFailed => {
                self.resolver = None;
                assert(self@ =~= walk_step(st, *e, defs_v, primary@).0);
                None
            },
            EventKind::RunCompleted => {
                let o = match &self.manager {
                    None => None,
                    Some(t) => Some(
                        Observation::Manager {
                            started_at: t.clone(),
                            completed_at: e.ts.clone(),
                            excluded: claimed_ids(&self.starts),
                            ambiguous: manager_ambiguous_exec(&self.starts, primary),
                        },
                    ),
                };
                if o.is_some() {
                    self.manager = None;
                }
                assert(self@ =~= walk_step(st, *e, defs_v, primary@).0);
                o
            },
            EventKind::RunFailed | EventKind::RunSkipped => {
                self.manager = None;
                assert(self@ =~= walk_step(st, *e, defs_v, primary@).0);
                None
            },
            _ => {
                assert(self@ =~= walk_step(st, *e, defs_v, primary@).0);
                None
            },
        }
    }
}

/// The observations of one Run's event log, in log order: each node
/// attempt that completed, the Pipeline Manager of a Run that completed,
/// each Merge resolver run that completed.
pub fn run_observations(events: &Vec<LoggedEvent>, defs: &Vec<(String, PerfNodeDef)>, primary: &str) -> (r: Vec<
    Observation,
>)
    ensures
        observations(r@) == walk(events@, perf_defs_view(defs@), primary@).1,
{
    let ghost defs_v = perf_defs_view(defs@);
    let mut w = RunWalk::new();
    let mut out: Vec<Observation> = Vec::new();
    let mut i: usize = 0;
    while i < events.len()
        invariant
            i <= events@.len(),
            defs_v == perf_defs_view(defs@),
            w@ == walk(events@.take(i as int), defs_v, primary@).0,
            observations(out@) == walk(events@.take(i as int), defs_v, primary@).1,
        decreases events.len() - i,
    {
        assert(events@.take(i + 1).drop_last() =~= events@.take(i as int));
        assert(events@.take(i + 1).last() == events@[i as int]);
        let ghost before = out@;
        match w.step(&events[i], defs, primary) {
            Some(o) => {
                out.push(o);
                assert(observations(out@) =~= observations(before).push(out@.last()@));
            },
            None => {},
        }
        i += 1;
    }
    assert(events@.take(i as int) =~= events@);
    out
}

// ───────────────────────────── laws ─────────────────────────────

/// A node lifecycle event (start, completion or drop) of attempt `k`.
pub open spec fn touches(e: LoggedEvent, k: (Seq<char>, i64)) -> bool {
    match e.node_id {
        Some(n) => n@ == k.0 && iter_of(e) == k.1 && (e.kind == EventKind::NodeStarted || e.kind
            == EventKind::NodeCompleted || e.kind == EventKind::NodeAutoCompleted || e.kind == EventKind::NodeFailed
            || e.kind == EventKind::NodeStopped || e.kind == EventKind::NodeInterrupted || e.kind
            == EventKind::NodeStale),
        None => false,
    }
}

/// A `NodeStarted` of attempt `k`.
pub open spec fn starts_attempt(e: LoggedEvent, k: (Seq<char>, i64)) -> bool {
    e.kind == EventKind::NodeStarted && match e.node_id {
        Some(n) => n@ == k.0 && iter_of(e) == k.1,
        None => false,
    }
}

/// Walking one more event is one more step.
proof fn lemma_walk_push(
    x: Seq<LoggedEvent>,
    m: LoggedEvent,
    defs: Seq<(Seq<char>, Seq<char>, Seq<char>, bool)>,
    primary: Seq<char>,
)
    ensures
        walk(x.push(m), defs, primary).0 == walk_step(walk(x, defs, primary).0, m, defs, primary).0,
        walk(x.push(m), defs, primary).1 == match walk_step(walk(x, defs, primary).0, m, defs, primary).1 {
            Some(o) => walk(x, defs, primary).1.push(o),
            None => walk(x, defs, primary).1,
        },
{
    assert(x.push(m).drop_last() =~= x);
}

/// Events that do not touch attempt `k` leave it as it was.
proof fn lemma_untouched(
    x: Seq<LoggedEvent>,
    mid: Seq<LoggedEvent>,
    k: (Seq<char>, i64),
    defs: Seq<(Seq<char>, Seq<char>, Seq<char>, bool)>,
    primary: Seq<char>,
)
    requires
        forall|i: int| 0 <= i < mid.len() ==> !touches(#[trigger] mid[i], k),
    ensures
        walk(x + mid, defs, primary).0.pending.contains_key(k) == walk(x, defs, primary).0.pending.contains_key(k),
        walk(x, defs, primary).0.pending.contains_key(k) ==> walk(x + mid, defs, primary).0.pending[k] == walk(
            x,
            defs,
            primary,
        ).0.pending[k],
    decreases mid.len(),
{
    if mid.len() == 0 {
        assert(x + mid =~= x);
    } else {
        let p = mid.drop_last();
        let m = mid.last();
        assert forall|i: int| 0 <= i < p.len() implies !touches(#[trigger] p[i], k) by {
            assert(p[i] == mid[i]);
        }
        lemma_untouched(x, p, k, defs, primary);
        assert(x + mid =~= (x + p).push(m));
        lemma_walk_push(x + p, m, defs, primary);
        assert(!touches(m, k)) by {
            assert(mid[mid.len() - 1] == m);
        }
    }
}

/// Without a start of attempt `k`, a closed attempt stays closed.
proof fn lemma_stays_closed(
    x: Seq<LoggedEvent>,
    mid: Seq<LoggedEvent>,
    k: (Seq<char>, i64),
    defs: Seq<(Seq<char>, Seq<char>, Seq<char>, bool)>,
    primary: Seq<char>,
)
    requires
        forall|i: int| 0 <= i < mid.len() ==> !starts_attempt(#[trigger] mid[i], k),
        !walk(x, defs, primary).0.pending.contains_key(k),
    ensures
        !walk(x + mid, defs, primary).0.pending.contains_key(k),
    decreases mid.len(),
{
    if mid.len() == 0 {
        assert(x + mid =~= x);
    } else {
        let p = mid.drop_last();
        let m = mid.last();
        assert forall|i: int| 0 <= i < p.len() implies !starts_attempt(#[trigger] p[i], k) by {
            assert(p[i] == mid[i]);
        }
        lemma_stays_closed(x, p, k, defs, primary);
        assert(x + mid =~= (x + p).push(m));
        lemma_walk_push(x + p, m, defs, primary);
        assert(!starts_attempt(m, k)) by {
            assert(mid[mid.len() - 1] == m);
        }
    }
}

/// An attempt whose start no later event of its key touches is observed
/// at its completion, once, with what its start froze.
pub proof fn law_an_untouched_attempt_is_observed_at_its_completion(
    pre: Seq<LoggedEvent>,
    s: LoggedEvent,
    mid: Seq<LoggedEvent>,
    c: LoggedEvent,
    defs: Seq<(Seq<char>, Seq<char>, Seq<char>, bool)>,
    primary: Seq<char>,
)
    requires
        s.kind == EventKind::NodeStarted,
        s.node_id is Some,
        start_of(s, s.node_id->0@, defs, primary).node_type != "script"@,
        forall|i: int| 0 <= i < mid.len() ==> !touches(#[trigger] mid[i], (s.node_id->0@, iter_of(s))),
        c.kind == EventKind::NodeCompleted || c.kind == EventKind::NodeAutoCompleted,
        c.node_id is Some,
        c.node_id->0@ == s.node_id->0@,
        iter_of(c) == iter_of(s),
    ensures
        walk(pre.push(s) + mid.push(c), defs, primary).1 == walk(pre.push(s) + mid, defs, primary).1.push(
            ObservationView::Node {
                node_id: s.node_id->0@,
                iter: iter_of(s),
                node_name: match perf_def(defs, s.node_id->0@) {
                    Some(d) => d.1,
                    None => s.node_id->0@,
                },
                completed_at: c.ts@,
                attempt: attempt_of(s, start_of(s, s.node_id->0@, defs, primary)),
            },
        ),
        !walk(pre.push(s) + mid.push(c), defs, primary).0.pending.contains_key((s.node_id->0@, iter_of(s))),
{
    let k = (s.node_id->0@, iter_of(s));
    lemma_walk_push(pre, s, defs, primary);
    lemma_untouched(pre.push(s), mid, k, defs, primary);
    assert(pre.push(s) + mid.push(c) =~= (pre.push(s) + mid).push(c));
    lemma_walk_push(pre.push(s) + mid, c, defs, primary);
}

/// A dropped attempt is never observed: after a `NodeFailed`,
/// `NodeStopped`, `NodeInterrupted` or `NodeStale` of its key, a completion
/// of that key observes nothing unless the key was started again.
pub proof fn law_a_dropped_attempt_is_never_observed(
    pre: Seq<LoggedEvent>,
    t: LoggedEvent,
    mid: Seq<LoggedEvent>,
    c: LoggedEvent,
    defs: Seq<(Seq<char>, Seq<char>, Seq<char>, bool)>,
    primary: Seq<char>,
)
    requires
        t.kind == EventKind::NodeFailed || t.kind == EventKind::NodeStopped || t.kind == EventKind::NodeInterrupted
            || t.kind == EventKind::NodeStale,
        t.node_id is Some,
        forall|i: int| 0 <= i < mid.len() ==> !starts_attempt(#[trigger] mid[i], (t.node_id->0@, iter_of(t))),
        c.kind == EventKind::NodeCompleted || c.kind == EventKind::NodeAutoCompleted,
        c.node_id is Some,
        c.node_id->0@ == t.node_id->0@,
        iter_of(c) == iter_of(t),
    ensures
        walk(pre.push(t) + mid.push(c), defs, primary).1 == walk(pre.push(t) + mid, defs, primary).1,
{
    let k = (t.node_id->0@, iter_of(t));
    lemma_walk_push(pre, t, defs, primary);
    lemma_stays_closed(pre.push(t), mid, k, defs, primary);
    assert(pre.push(t) + mid.push(c) =~= (pre.push(t) + mid).push(c));
    lemma_walk_push(pre.push(t) + mid, c, defs, primary);
}

/// A script node opens no attempt: its start changes no open attempt and
/// observes nothing.
pub proof fn law_a_script_start_opens_no_attempt(
    st: WalkState,
    e: LoggedEvent,
    defs: Seq<(Seq<char>, Seq<char>, Seq<char>, bool)>,
    primary: Seq<char>,
)
    requires
        e.kind == EventKind::NodeStarted,
        e.node_id is Some,
        start_of(e, e.node_id->0@, defs, primary).node_type == "script"@,
    ensures
        walk_step(st, e, defs, primary).0.pending == st.pending,
        walk_step(st, e, defs, primary).1 is None,
{
}

/// Without a `RunStarted`, a closed Pipeline Manager run stays closed.
proof fn lemma_manager_stays_closed(
    x: Seq<LoggedEvent>,
    mid: Seq<LoggedEvent>,
    defs: Seq<(Seq<char>, Seq<char>, Seq<char>, bool)>,
    primary: Seq<char>,
)
    requires
        forall|i: int| 0 <= i < mid.len() ==> (#[trigger] mid[i]).kind != EventKind::RunStarted,
        walk(x, defs, primary).0.manager is None,
    ensures
        walk(x + mid, defs, primary).0.manager is None,
    decreases mid.len(),
{
    if mid.len() == 0 {
        assert(x + mid =~= x);
    } else {
        let p = mid.drop_last();
        let m = mid.last();
        assert forall|i: int| 0 <= i < p.len() implies (#[trigger] p[i]).kind != EventKind::RunStarted by {
            assert(p[i] == mid[i]);
        }
        lemma_manager_stays_closed(x, p, defs, primary);
        assert(x + mid =~= (x + p).push(m));
        lemma_walk_push(x + p, m, defs, primary);
        assert(mid[mid.len() - 1] == m);
    }
}

/// Events that neither start nor end a Run leave its Pipeline Manager run
/// as it was.
proof fn lemma_manager_untouched(
    x: Seq<LoggedEvent>,
    mid: Seq<LoggedEvent>,
    defs: Seq<(Seq<char>, Seq<char>, Seq<char>, bool)>,
    primary: Seq<char>,
)
    requires
        forall|i: int|
            0 <= i < mid.len() ==> (#[trigger] mid[i]).kind != EventKind::RunStarted && mid[i].kind
                != EventKind::RunCompleted && mid[i].kind != EventKind::RunFailed && mid[i].kind != EventKind::RunSkipped,
    ensures
        walk(x + mid, defs, primary).0.manager == walk(x, defs, primary).0.manager,
    decreases mid.len(),
{
    if mid.len() == 0 {
        assert(x + mid =~= x);
    } else {
        let p = mid.drop_last();
        let m = mid.last();
        assert forall|i: int|
            0 <= i < p.len() implies (#[trigger] p[i]).kind != EventKind::RunStarted && p[i].kind
                != EventKind::RunCompleted && p[i].kind != EventKind::RunFailed && p[i].kind
                != EventKind::RunSkipped by {
            assert(p[i] == mid[i]);
        }
        lemma_manager_untouched(x, p, defs, primary);
        assert(x + mid =~= (x + p).push(m));
        lemma_walk_push(x + p, m, defs, primary);
        assert(mid[mid.len() - 1] == m);
    }
}

/// The Pipeline Manager's session is ambiguous exactly when some start
/// shares the Run's directory under the primary harness without a session
/// id: no start makes it so at first; a script node's start, an isolated
/// start, one under another harness or one that recorded its session id
/// leaves it as it was; a shared agent start with no session id makes it so;
/// and once so, it stays so.
pub proof fn law_only_an_unidentified_shared_agent_start_blurs_the_manager(
    starts: Seq<StartView>,
    s: StartView,
    primary: Seq<char>,
)
    ensures
        !manager_ambiguous(Seq::empty(), primary),
        (s.node_type == "script"@ || s.isolated || s.harness != primary || s.session_id is Some) ==> manager_ambiguous(
            starts.push(s),
            primary,
        ) == manager_ambiguous(starts, primary),
        (s.node_type != "script"@ && !s.isolated && s.harness == primary && s.session_id is None) ==> manager_ambiguous(
            starts.push(s),
            primary,
        ),
        manager_ambiguous(starts, primary) ==> manager_ambiguous(starts.push(s), primary),
{
    let t = starts.push(s);
    assert(t[starts.len() as int] == s);
    if manager_ambiguous(starts, primary) {
        let i = choose|i: int|
            0 <= i < starts.len() && (#[trigger] starts[i]).node_type != "script"@ && !starts[i].isolated
                && starts[i].harness == primary && starts[i].session_id is None;
        assert(t[i] == starts[i]);
    }
    if manager_ambiguous(t, primary) && (s.node_type == "script"@ || s.isolated || s.harness != primary
        || s.session_id is Some) {
        let i = choose|i: int|
            0 <= i < t.len() && (#[trigger] t[i]).node_type != "script"@ && !t[i].isolated && t[i].harness == primary
                && t[i].session_id is None;
        assert(i < starts.len());
        assert(t[i] == starts[i]);
    }
}

/// A Merge resolver's session is ambiguous exactly when some start of the
/// conflicting node ran under the primary harness without a session id: a
/// start under another harness, or one that recorded its session id, leaves
/// it as it was; an unidentified one under the primary harness makes it so.
pub proof fn law_only_an_unidentified_primary_start_blurs_the_resolver(
    starts: Seq<StartView>,
    s: StartView,
    primary: Seq<char>,
)
    ensures
        !resolver_ambiguous(Seq::empty(), primary),
        (s.harness != primary || s.session_id is Some) ==> resolver_ambiguous(starts.push(s), primary)
            == resolver_ambiguous(starts, primary),
        (s.harness == primary && s.session_id is None) ==> resolver_ambiguous(starts.push(s), primary),
{
    let t = starts.push(s);
    assert(t[starts.len() as int] == s);
    if resolver_ambiguous(starts, primary) {
        let i = choose|i: int| 0 <= i < starts.len() && (#[trigger] starts[i]).harness == primary && starts[i].session_id is None;
        assert(t[i] == starts[i]);
    }
    if resolver_ambiguous(t, primary) && (s.harness != primary || s.session_id is Some) {
        let i = choose|i: int| 0 <= i < t.len() && (#[trigger] t[i]).harness == primary && t[i].session_id is None;
        assert(i < starts.len());
        assert(t[i] == starts[i]);
    }
}

/// The Pipeline Manager is observed from `RunStarted` to `RunCompleted`:
/// a completion observes the run that started, with the start's time.
pub proof fn law_a_completed_run_observes_its_manager(
    pre: Seq<LoggedEvent>,
    s: LoggedEvent,
    mid: Seq<LoggedEvent>,
    c: LoggedEvent,
    defs: Seq<(Seq<char>, Seq<char>, Seq<char>, bool)>,
    primary: Seq<char>,
)
    requires
        s.kind == EventKind::RunStarted,
        forall|i: int|
            0 <= i < mid.len() ==> (#[trigger] mid[i]).kind != EventKind::RunStarted && mid[i].kind
                != EventKind::RunCompleted && mid[i].kind != EventKind::RunFailed && mid[i].kind != EventKind::RunSkipped,
        c.kind == EventKind::RunCompleted,
    ensures
        ({
            let (st, obs) = walk(pre.push(s) + mid, defs, primary);
            walk(pre.push(s) + mid.push(c), defs, primary).1 == obs.push(
                ObservationView::Manager {
                    started_at: s.ts@,
                    completed_at: c.ts@,
                    excluded: claimed(st.starts),
                    ambiguous: manager_ambiguous(st.starts, primary),
                },
            )
        }),
{
    lemma_walk_push(pre, s, defs, primary);
    lemma_manager_untouched(pre.push(s), mid, defs, primary);
    assert(pre.push(s) + mid.push(c) =~= (pre.push(s) + mid).push(c));
    lemma_walk_push(pre.push(s) + mid, c, defs, primary);
}

/// A failed or skipped Run has no Pipeline Manager observation: after a
/// `RunFailed` or `RunSkipped`, a `RunCompleted` observes nothing unless the
/// Run started again.
pub proof fn law_a_failed_run_observes_no_manager(
    pre: Seq<LoggedEvent>,
    f: LoggedEvent,
    mid: Seq<LoggedEvent>,
    c: LoggedEvent,
    defs: Seq<(Seq<char>, Seq<char>, Seq<char>, bool)>,
    primary: Seq<char>,
)
    requires
        f.kind == EventKind::RunFailed || f.kind == EventKind::RunSkipped,
        forall|i: int| 0 <= i < mid.len() ==> (#[trigger] mid[i]).kind != EventKind::RunStarted,
        c.kind == EventKind::RunCompleted,
    ensures
        walk(pre.push(f) + mid.push(c), defs, primary).1 == walk(pre.push(f) + mid, defs, primary).1,
{
    lemma_walk_push(pre, f, defs, primary);
    lemma_manager_stays_closed(pre.push(f), mid, defs, primary);
    assert(pre.push(f) + mid.push(c) =~= (pre.push(f) + mid).push(c));
    lemma_walk_push(pre.push(f) + mid, c, defs, primary);
}

/// Without a `MergeResolverStarted`, a closed Merge resolver run stays
/// closed.
proof fn lemma_resolver_stays_closed(
    x: Seq<LoggedEvent>,
    mid: Seq<LoggedEvent>,
    defs: Seq<(Seq<char>, Seq<char>, Seq<char>, bool)>,
    primary: Seq<char>,
)
    requires
        forall|i: int| 0 <= i < mid.len() ==> (#[trigger] mid[i]).kind != EventKind::MergeResolverStarted,
        walk(x, defs, primary).0.resolver is None,
    ensures
        walk(x + mid, defs, primary).0.resolver is None,
    decreases mid.len(),
{
    if mid.len() == 0 {
        assert(x + mid =~= x);
    } else {
        let p = mid.drop_last();
        let m = mid.last();
        assert forall|i: int| 0 <= i < p.len() implies (#[trigger] p[i]).kind != EventKind::MergeResolverStarted by {
            assert(p[i] == mid[i]);
        }
        lemma_resolver_stays_closed(x, p, defs, primary);
        assert(x + mid =~= (x + p).push(m));
        lemma_walk_push(x + p, m, defs, primary);
        assert(mid[mid.len() - 1] == m);
    }
}

/// A failed Merge resolver run is never observed, and a completion pairs
/// with one start only: after a `MergeResolverFailed` or a
/// `MergeResolverCompleted`, a further completion observes nothing unless
/// a resolver started again.
pub proof fn law_a_resolver_completion_pairs_with_one_open_start(
    pre: Seq<LoggedEvent>,
    f: LoggedEvent,
    mid: Seq<LoggedEvent>,
    c: LoggedEvent,
    defs: Seq<(Seq<char>, Seq<char>, Seq<char>, bool)>,
    primary: Seq<char>,
)
    requires
        f.kind == EventKind::MergeResolverFailed || f.kind == EventKind::MergeResolverCompleted,
        forall|i: int| 0 <= i < mid.len() ==> (#[trigger] mid[i]).kind != EventKind::MergeResolverStarted,
        c.kind == EventKind::MergeResolverCompleted,
    ensures
        walk(pre.push(f) + mid.push(c), defs, primary).1 == walk(pre.push(f) + mid, defs, primary).1,
{
    lemma_walk_push(pre, f, defs, primary);
    lemma_resolver_stays_closed(pre.push(f), mid, defs, primary);
    assert(pre.push(f) + mid.push(c) =~= (pre.push(f) + mid).push(c));
    lemma_walk_push(pre.push(f) + mid, c, defs, primary);
}

} // verus!
