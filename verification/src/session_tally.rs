//! The session fold of the stats overview: every agent-session execution of
//! the Runs in the window, counted once, tallied by period bucket, by harness
//! and by Pipeline → Node.
//!
//! A tally is what an ordered map from key to count holds: its rows in key
//! order, one per key that occurs, with the number of its occurrences.
use vstd::prelude::*;
use crate::stats::{
    all_finished_from, bump, count_in, finish_pipeline, finished_from, harness_view, increment_harness,
    keys_ascending, period_rows, periods_match, rank_entities, ranked, row_sum, HarnessCount,
    SessionNodeBuilder, SessionPipelineBuilder, StatsSessionEntity, StatsSessionPeriod,
};
use crate::text::{lemma_text_lt_total, lemma_text_lt_transitive, str_eq, text_lt};
use crate::json::{get_str, get_string, JsonValue};
use crate::absorption::{
    def_name, def_name_exec, defs_view, is_empty_text, node_defs, node_defs_of, pipeline_identity,
    pipeline_identity_of, NodeDef,
};

verus! {

broadcast use vstd::string::group_string_axioms;

/// The texts of strings.
pub open spec fn texts(v: Seq<String>) -> Seq<Seq<char>> {
    v.map_values(|x: String| x@)
}

/// The tally of a sequence of keys: one more occurrence at a time.
pub open spec fn tally(s: Seq<Seq<char>>) -> Seq<(Seq<char>, nat)>
    decreases s.len(),
{
    if s.len() == 0 {
        Seq::empty()
    } else {
        bump(tally(s.drop_last()), s.last())
    }
}

/// The keys of a tally, in its order.
pub open spec fn keys_of(t: Seq<(Seq<char>, nat)>) -> Seq<Seq<char>> {
    t.map_values(|p: (Seq<char>, nat)| p.0)
}

/// Some row of `r` has key `k`.
pub open spec fn has_key(r: Seq<(Seq<char>, nat)>, k: Seq<char>) -> bool {
    exists|j: int| 0 <= j < r.len() && (#[trigger] r[j]).0 == k
}

/// `bump` keeps keys ascending, and its keys are the old ones and `h`.
proof fn lemma_bump_keys(r: Seq<(Seq<char>, nat)>, h: Seq<char>)
    requires
        keys_ascending(r),
    ensures
        keys_ascending(bump(r, h)),
        forall|j: int| 0 <= j < bump(r, h).len() ==> (#[trigger] bump(r, h)[j]).0 == h || has_key(r, bump(r, h)[j].0),
        has_key(bump(r, h), h),
        forall|j: int| 0 <= j < r.len() ==> has_key(bump(r, h), (#[trigger] r[j]).0),
        row_sum(bump(r, h)) == row_sum(r) + 1,
    decreases r.len(),
{
    let b = bump(r, h);
    if r.len() == 0 {
        assert(b =~= seq![(h, 1nat)]);
        reveal_with_fuel(row_sum, 2);
        assert(seq![(h, 1nat)].drop_last() =~= Seq::<(Seq<char>, nat)>::empty());
        assert(b[0].0 == h);
    } else {
        let rest = r.drop_first();
        assert(r =~= seq![r[0]] + rest);
        crate::stats::lemma_row_sum_concat(seq![r[0]], rest);
        crate::stats::lemma_row_sum_one(r[0]);
        assert(keys_ascending(rest)) by {
            assert forall|i: int, j: int| 0 <= i < j < rest.len() implies text_lt(rest[i].0, rest[j].0) by {
                assert(rest[i] == r[i + 1] && rest[j] == r[j + 1]);
            }
        }
        if r[0].0 == h {
            let x = (h, r[0].1 + 1);
            assert(b =~= seq![x] + rest);
            crate::stats::lemma_row_sum_concat(seq![x], rest);
            crate::stats::lemma_row_sum_one(x);
            assert forall|i: int, j: int| 0 <= i < j < b.len() implies text_lt(b[i].0, b[j].0) by {
                assert(b[i].0 == r[i].0 && b[j].0 == r[j].0);
            }
            assert forall|j: int| 0 <= j < b.len() implies (#[trigger] b[j]).0 == h || has_key(r, b[j].0) by {
                assert(b[j].0 == r[j].0);
            }
            assert(b[0].0 == h);
            assert forall|j: int| 0 <= j < r.len() implies has_key(b, (#[trigger] r[j]).0) by {
                assert(b[j].0 == r[j].0);
            }
        } else if text_lt(r[0].0, h) {
            let bb = bump(rest, h);
            lemma_bump_keys(rest, h);
            assert(b =~= seq![r[0]] + bb);
            crate::stats::lemma_row_sum_concat(seq![r[0]], bb);
            assert forall|j: int| 0 <= j < bb.len() implies text_lt(r[0].0, #[trigger] bb[j].0) by {
                if bb[j].0 != h {
                    let i = choose|i: int| 0 <= i < rest.len() && (#[trigger] rest[i]).0 == bb[j].0;
                    assert(rest[i] == r[i + 1]);
                }
            }
            assert forall|i: int, j: int| 0 <= i < j < b.len() implies text_lt(b[i].0, b[j].0) by {
                assert(b[j] == bb[j - 1]);
                if i > 0 {
                    assert(b[i] == bb[i - 1]);
                }
            }
            assert forall|j: int| 0 <= j < b.len() implies (#[trigger] b[j]).0 == h || has_key(r, b[j].0) by {
                if j == 0 {
                    assert(b[0] == r[0]);
                } else {
                    assert(b[j] == bb[j - 1]);
                    if bb[j - 1].0 != h {
                        let i = choose|i: int| 0 <= i < rest.len() && (#[trigger] rest[i]).0 == bb[j - 1].0;
                        assert(r[i + 1] == rest[i]);
                    }
                }
            }
            let jh = choose|j: int| 0 <= j < bb.len() && (#[trigger] bb[j]).0 == h;
            assert(b[jh + 1] == bb[jh]);
            assert forall|j: int| 0 <= j < r.len() implies has_key(b, (#[trigger] r[j]).0) by {
                if j == 0 {
                    assert(b[0] == r[0]);
                } else {
                    assert(rest[j - 1] == r[j]);
                    let i = choose|i: int| 0 <= i < bb.len() && (#[trigger] bb[i]).0 == rest[j - 1].0;
                    assert(b[i + 1] == bb[i]);
                }
            }
        } else {
            let x = (h, 1nat);
            assert(b =~= seq![x] + r);
            crate::stats::lemma_row_sum_concat(seq![x], r);
            crate::stats::lemma_row_sum_one(x);
            lemma_text_lt_total(r[0].0, h);
            assert forall|i: int, j: int| 0 <= i < j < b.len() implies text_lt(b[i].0, b[j].0) by {
                assert(b[j] == r[j - 1]);
                if i > 0 {
                    assert(b[i] == r[i - 1]);
                } else if j - 1 > 0 {
                    lemma_text_lt_transitive(h, r[0].0, r[j - 1].0);
                }
            }
            assert forall|j: int| 0 <= j < b.len() implies (#[trigger] b[j]).0 == h || has_key(r, b[j].0) by {
                if j > 0 {
                    assert(b[j] == r[j - 1]);
                }
            }
            assert(b[0] == x);
            assert forall|j: int| 0 <= j < r.len() implies has_key(b, (#[trigger] r[j]).0) by {
                assert(b[j + 1] == r[j]);
            }
        }
    }
}

/// The number of occurrences of `k` in `s`.
pub open spec fn occurrences(s: Seq<Seq<char>>, k: Seq<char>) -> nat
    decreases s.len(),
{
    if s.len() == 0 {
        0
    } else {
        occurrences(s.drop_last(), k) + (if s.last() == k { 1nat } else { 0nat })
    }
}

/// A tally's keys are ascending, its keys are the keys that occur, and its
/// counts add up to the number of occurrences.
proof fn lemma_tally_shape(s: Seq<Seq<char>>)
    ensures
        keys_ascending(tally(s)),
        forall|k: Seq<char>| has_key(tally(s), k) <==> s.contains(k),
        row_sum(tally(s)) == s.len(),
    decreases s.len(),
{
    if s.len() > 0 {
        let p = s.drop_last();
        let t = tally(p);
        let b = tally(s);
        lemma_tally_shape(p);
        lemma_bump_keys(t, s.last());
        assert forall|k: Seq<char>| has_key(b, k) <==> s.contains(k) by {
            if has_key(b, k) {
                let j = choose|j: int| 0 <= j < b.len() && (#[trigger] b[j]).0 == k;
                if k == s.last() {
                    assert(s[s.len() - 1] == k);
                } else {
                    assert(has_key(t, k));
                    assert(p.contains(k));
                    let i = choose|i: int| 0 <= i < p.len() && p[i] == k;
                    assert(s[i] == p[i]);
                }
            }
            if s.contains(k) {
                let i = choose|i: int| 0 <= i < s.len() && s[i] == k;
                if i < s.len() - 1 {
                    assert(p[i] == s[i]);
                    assert(p.contains(k));
                    let j = choose|j: int| 0 <= j < t.len() && (#[trigger] t[j]).0 == k;
                    assert(has_key(b, t[j].0));
                }
            }
        }
    }
}

/// What a tally counts: its rows are in ascending key order, a key has a
/// row exactly when it occurs, the row of `k` holds the number of
/// occurrences of `k`, and the counts add up to the number of keys counted.
pub proof fn law_tally_counts_each_key(s: Seq<Seq<char>>, k: Seq<char>)
    ensures
        keys_ascending(tally(s)),
        has_key(tally(s), k) <==> s.contains(k),
        count_in(tally(s), k) == occurrences(s, k),
        row_sum(tally(s)) == s.len(),
    decreases s.len(),
{
    lemma_tally_shape(s);
    if s.len() > 0 {
        let p = s.drop_last();
        law_tally_counts_each_key(p, k);
        crate::stats::law_bump_counts_one_more(tally(p), s.last(), k);
    }
}

/// The tally of `items`.
pub fn tally_of(items: &Vec<String>) -> (c: HarnessCount)
    ensures
        c.wf(),
        c.total == items@.len(),
        c.rows() == tally(texts(items@)),
{
    let mut c = HarnessCount::new();
    let ghost t = texts(items@);
    let n = items.len();
    assert(n as int == items@.len());
    let mut i: usize = 0;
    while i < items.len()
        invariant
            i <= items@.len(),
            items@.len() <= usize::MAX,
            t == texts(items@),
            c.wf(),
            c.total == i,
            c.rows() == tally(t.take(i as int)),
        decreases items.len() - i,
    {
        proof {
            assert(t.take(i + 1).drop_last() =~= t.take(i as int));
            assert(t.take(i + 1).last() == items@[i as int]@);
        }
        increment_harness(&mut c, items[i].as_str());
        i += 1;
    }
    assert(t.take(i as int) =~= t);
    c
}

/// The distinct keys of `items`, ascending.
pub fn distinct_sorted(items: &Vec<String>) -> (r: Vec<String>)
    ensures
        texts(r@) == keys_of(tally(texts(items@))),
{
    let c = tally_of(items);
    let mut r: Vec<String> = Vec::new();
    let mut i: usize = 0;
    while i < c.by_harness.len()
        invariant
            i <= c.by_harness@.len(),
            texts(r@) == keys_of(c.rows().take(i as int)),
        decreases c.by_harness.len() - i,
    {
        let ghost before = r@;
        r.push(c.by_harness[i].0.clone());
        assert(texts(r@) =~= texts(before).push(c.by_harness@[i as int].0@));
        assert(keys_of(c.rows().take(i + 1)) =~= keys_of(c.rows().take(i as int)).push(c.rows()[i as int].0));
        i += 1;
    }
    assert(c.rows().take(i as int) =~= c.rows());
    r
}

// ───────────────────────────── executions ─────────────────────────────

/// One `node_started` event of a Run in the window, joined with that Run's
/// `run_started`, as the cohort query returns it.
#[derive(Debug)]
pub struct SessionRow {
    /// The period bucket of the Run's start.
    pub bucket: String,
    pub run_id: String,
    /// The `run_started` payload; `Null` when absent or unreadable.
    pub run_payload: JsonValue,
    /// The node the event started; a row without one is not an execution.
    pub node_id: Option<String>,
    /// The `node_started` payload; `Null` when absent or unreadable.
    pub event_payload: JsonValue,
    /// The execution's frozen identity within its Run (from its harness,
    /// session id, node, iteration, event id and row order); two rows of one
    /// Run with the same identity are one execution.
    pub identity: String,
}

/// One agent-session execution, as the fold counts it.
#[derive(Debug, PartialEq, Eq)]
pub struct SessionExecution {
    pub bucket: String,
    pub run_id: String,
    pub identity: String,
    pub pipeline_id: String,
    pub pipeline_name: String,
    pub node_id: String,
    pub node_name: String,
    pub harness: String,
}

/// What an execution holds, as texts.
pub struct ExecutionView {
    pub bucket: Seq<char>,
    pub run_id: Seq<char>,
    pub identity: Seq<char>,
    pub pipeline_id: Seq<char>,
    pub pipeline_name: Seq<char>,
    pub node_id: Seq<char>,
    pub node_name: Seq<char>,
    pub harness: Seq<char>,
}

impl View for SessionExecution {
    type V = ExecutionView;

    open spec fn view(&self) -> ExecutionView {
        ExecutionView {
            bucket: self.bucket@,
            run_id: self.run_id@,
            identity: self.identity@,
            pipeline_id: self.pipeline_id@,
            pipeline_name: self.pipeline_name@,
            node_id: self.node_id@,
            node_name: self.node_name@,
            harness: self.harness@,
        }
    }
}

/// The views of executions.
pub open spec fn views(v: Seq<SessionExecution>) -> Seq<ExecutionView> {
    v.map_values(|e: SessionExecution| e@)
}

/// The type node `id` has in the Run's snapshot: that of its last
/// definition, none when undefined.
pub open spec fn def_type(defs: Seq<(Seq<char>, Seq<char>, Seq<char>)>, id: Seq<char>) -> Option<Seq<char>>
    decreases defs.len(),
{
    if defs.len() == 0 {
        None
    } else if defs.last().0 == id {
        Some(defs.last().2)
    } else {
        def_type(defs.drop_last(), id)
    }
}

/// The harness of an execution: the event's non-empty `harness`, else the
/// default harness.
pub open spec fn harness_of(event: JsonValue, default_harness: Seq<char>) -> Seq<char> {
    match get_str(event, "harness"@) {
        Some(h) => if h.len() > 0 {
            h
        } else {
            default_harness
        },
        None => default_harness,
    }
}

/// The node type of an execution: the event's `node_type`, else the type of
/// the node's definition, else empty.
pub open spec fn node_type_of(event: JsonValue, defs: Seq<(Seq<char>, Seq<char>, Seq<char>)>, id: Seq<char>) -> Seq<char> {
    match get_str(event, "node_type"@) {
        Some(t) => t,
        None => match def_type(defs, id) {
            Some(t) => t,
            None => Seq::empty(),
        },
    }
}

/// The execution a row stands for: none without a node, and none for a
/// script node, which runs no agent session.
pub open spec fn execution_of(row: SessionRow, default_harness: Seq<char>) -> Option<ExecutionView> {
    match row.node_id {
        None => None,
        Some(id) => {
            let defs = node_defs_of(row.run_payload);
            if node_type_of(row.event_payload, defs, id@) == "script"@ {
                None
            } else {
                let (pipeline_id, pipeline_name) = pipeline_identity_of(row.run_payload);
                Some(
                    ExecutionView {
                        bucket: row.bucket@,
                        run_id: row.run_id@,
                        identity: row.identity@,
                        pipeline_id,
                        pipeline_name,
                        node_id: id@,
                        node_name: def_name(defs, id@),
                        harness: harness_of(row.event_payload, default_harness),
                    },
                )
            }
        },
    }
}

/// The executions the rows stand for, in row order.
pub open spec fn executions_of(rows: Seq<SessionRow>, default_harness: Seq<char>) -> Seq<ExecutionView>
    decreases rows.len(),
{
    if rows.len() == 0 {
        Seq::empty()
    } else {
        let before = executions_of(rows.drop_last(), default_harness);
        match execution_of(rows.last(), default_harness) {
            Some(e) => before.push(e),
            None => before,
        }
    }
}

/// No execution before the `i`-th has its Run and identity.
pub open spec fn fresh(s: Seq<ExecutionView>, i: int) -> bool {
    forall|j: int| 0 <= j < i ==> (#[trigger] s[j]).run_id != s[i].run_id || s[j].identity != s[i].identity
}

/// The first `n` executions, each repeat of an earlier one left out.
pub open spec fn kept_upto(s: Seq<ExecutionView>, n: int) -> Seq<ExecutionView>
    decreases n,
{
    if n <= 0 {
        Seq::empty()
    } else if fresh(s, n - 1) {
        kept_upto(s, n - 1).push(s[n - 1])
    } else {
        kept_upto(s, n - 1)
    }
}

/// The executions the fold counts: those of the rows, each once.
pub open spec fn counted(rows: Seq<SessionRow>, default_harness: Seq<char>) -> Seq<ExecutionView> {
    let s = executions_of(rows, default_harness);
    kept_upto(s, s.len() as int)
}

/// The harness an execution started under.
pub fn execution_harness(event_payload: &JsonValue, default_harness: &str) -> (r: String)
    ensures
        r@ == harness_of(*event_payload, default_harness@),
{
    match get_string(event_payload, "harness") {
        Some(h) => if is_empty_text(h.as_str()) {
            default_harness.to_owned()
        } else {
            h.clone()
        },
        None => default_harness.to_owned(),
    }
}

/// The type node `id` has in the definitions.
fn def_type_exec(defs: &Vec<(String, NodeDef)>, id: &str) -> (r: Option<String>)
    ensures
        match r {
            Some(t) => def_type(defs_view(defs@), id@) == Some(t@),
            None => def_type(defs_view(defs@), id@) is None,
        },
{
    let mut n: usize = defs.len();
    assert(defs@.subrange(0, n as int) =~= defs@);
    while n > 0
        invariant
            n <= defs@.len(),
            def_type(defs_view(defs@), id@) == def_type(defs_view(defs@.subrange(0, n as int)), id@),
        decreases n,
    {
        let ghost t = defs_view(defs@.subrange(0, n as int));
        assert(t.last() == (defs@[n - 1].0@, defs@[n - 1].1.name@, defs@[n - 1].1.node_type@));
        if str_eq(defs[n - 1].0.as_str(), id) {
            return Some(defs[n - 1].1.node_type.clone());
        }
        assert(t.drop_last() =~= defs_view(defs@.subrange(0, n - 1)));
        n -= 1;
    }
    None
}

/// The execution a row stands for.
pub fn session_execution(row: &SessionRow, default_harness: &str) -> (r: Option<SessionExecution>)
    ensures
        match r {
            Some(e) => execution_of(*row, default_harness@) == Some(e@),
            None => execution_of(*row, default_harness@) is None,
        },
{
    let node_id = match &row.node_id {
        Some(id) => id,
        None => {
            return None;
        },
    };
    let defs = node_defs(&row.run_payload);
    let node_type: String = match get_string(&row.event_payload, "node_type") {
        Some(t) => t.clone(),
        None => match def_type_exec(&defs, node_id.as_str()) {
            Some(t) => t,
            None => String::new(),
        },
    };
    if str_eq(node_type.as_str(), "script") {
        return None;
    }
    let (pipeline_id, pipeline_name) = pipeline_identity(&row.run_payload);
    let e = SessionExecution {
        bucket: row.bucket.clone(),
        run_id: row.run_id.clone(),
        identity: row.identity.clone(),
        pipeline_id,
        pipeline_name,
        node_id: node_id.clone(),
        node_name: def_name_exec(&defs, node_id.as_str()),
        harness: execution_harness(&row.event_payload, default_harness),
    };
    proof {
        let v = e@;
        assert(execution_of(*row, default_harness@) == Some(v));
    }
    Some(e)
}

/// A copy of an execution.
pub fn copy_execution(e: &SessionExecution) -> (c: SessionExecution)
    ensures
        c@ == e@,
{
    SessionExecution {
        bucket: e.bucket.clone(),
        run_id: e.run_id.clone(),
        identity: e.identity.clone(),
        pipeline_id: e.pipeline_id.clone(),
        pipeline_name: e.pipeline_name.clone(),
        node_id: e.node_id.clone(),
        node_name: e.node_name.clone(),
        harness: e.harness.clone(),
    }
}

/// The executions the rows stand for, each counted once: a later row of the
/// same Run with the same identity repeats an execution already counted.
pub fn counted_executions(rows: &Vec<SessionRow>, default_harness: &str) -> (r: Vec<SessionExecution>)
    ensures
        views(r@) == counted(rows@, default_harness@),
        r@.len() <= rows@.len(),
{
    let mut all: Vec<SessionExecution> = Vec::new();
    let mut i: usize = 0;
    while i < rows.len()
        invariant
            i <= rows@.len(),
            views(all@) == executions_of(rows@.take(i as int), default_harness@),
            all@.len() <= i,
        decreases rows.len() - i,
    {
        let ghost before = all@;
        assert(rows@.take(i + 1).drop_last() =~= rows@.take(i as int));
        assert(rows@.take(i + 1).last() == rows@[i as int]);
        match session_execution(&rows[i], default_harness) {
            Some(e) => {
                all.push(e);
                assert(views(all@) =~= views(before).push(all@.last()@));
            },
            None => {},
        }
        i += 1;
    }
    assert(rows@.take(i as int) =~= rows@);
    let ghost s = views(all@);
    let mut out: Vec<SessionExecution> = Vec::new();
    let mut k: usize = 0;
    while k < all.len()
        invariant
            k <= all@.len(),
            s == views(all@),
            views(out@) == kept_upto(s, k as int),
            out@.len() <= k,
            all@.len() <= rows@.len(),
        decreases all.len() - k,
    {
        let mut j: usize = 0;
        let mut seen = false;
        while j < k
            invariant
                j <= k < all@.len(),
                s == views(all@),
                !seen <==> forall|m: int| 0 <= m < j ==> (#[trigger] s[m]).run_id != s[k as int].run_id
                    || s[m].identity != s[k as int].identity,
            decreases k - j,
        {
            if str_eq(all[j].run_id.as_str(), all[k].run_id.as_str()) && str_eq(
                all[j].identity.as_str(),
                all[k].identity.as_str(),
            ) {
                seen = true;
            }
            proof {
                assert(s[j as int] == all@[j as int]@ && s[k as int] == all@[k as int]@);
            }
            j += 1;
        }
        if !seen {
            let ghost before = out@;
            out.push(copy_execution(&all[k]));
            assert(views(out@) =~= views(before).push(s[k as int]));
        }
        k += 1;
    }
    out
}

// ───────────────────────────── grouping ─────────────────────────────

/// A text field of an execution that the fold groups or counts by.
#[derive(Debug, Clone, Copy, PartialEq, Eq)]
pub enum Field {
    Bucket,
    Pipeline,
    Node,
    Harness,
}

/// The field `f` of an execution.
pub open spec fn field_of(e: ExecutionView, f: Field) -> Seq<char> {
    match f {
        Field::Bucket => e.bucket,
        Field::Pipeline => e.pipeline_id,
        Field::Node => e.node_id,
        Field::Harness => e.harness,
    }
}

/// The field `f` of each execution, in order.
pub open spec fn column(s: Seq<ExecutionView>, f: Field) -> Seq<Seq<char>> {
    s.map_values(|e: ExecutionView| field_of(e, f))
}

/// The executions whose field `f` is `k`, in order.
pub open spec fn with_field(s: Seq<ExecutionView>, f: Field, k: Seq<char>) -> Seq<ExecutionView>
    decreases s.len(),
{
    if s.len() == 0 {
        Seq::empty()
    } else {
        let w = with_field(s.drop_last(), f, k);
        if field_of(s.last(), f) == k {
            w.push(s.last())
        } else {
            w
        }
    }
}

/// Per period bucket, in bucket order, the harness tally of the executions
/// that started in it.
pub open spec fn by_period(s: Seq<ExecutionView>) -> Seq<(Seq<char>, Seq<(Seq<char>, nat)>)> {
    keys_of(tally(column(s, Field::Bucket))).map_values(
        |b: Seq<char>| (b, tally(column(with_field(s, Field::Bucket, b), Field::Harness))),
    )
}

/// Period tallies as `(bucket, rows)`.
pub open spec fn tally_view(t: Seq<(String, HarnessCount)>) -> Seq<(Seq<char>, Seq<(Seq<char>, nat)>)> {
    t.map_values(|x: (String, HarnessCount)| (x.0@, x.1.rows()))
}

/// Period rows as `(bucket, harness rows)`.
pub open spec fn period_view(p: Seq<StatsSessionPeriod>) -> Seq<(Seq<char>, Seq<(Seq<char>, nat)>)> {
    p.map_values(|x: StatsSessionPeriod| (x.bucket@, harness_view(x.harnesses@)))
}

/// Filtering keeps only executions with the key, and none is added.
proof fn lemma_with_field(s: Seq<ExecutionView>, f: Field, k: Seq<char>)
    ensures
        with_field(s, f, k).len() <= s.len(),
        forall|i: int| 0 <= i < with_field(s, f, k).len() ==> field_of(#[trigger] with_field(s, f, k)[i], f) == k,
        column(s, f).contains(k) ==> with_field(s, f, k).len() > 0,
    decreases s.len(),
{
    if s.len() > 0 {
        let p = s.drop_last();
        lemma_with_field(p, f, k);
        if column(s, f).contains(k) && field_of(s.last(), f) != k {
            let i = choose|i: int| 0 <= i < column(s, f).len() && column(s, f)[i] == k;
            assert(i < s.len() - 1);
            assert(column(p, f)[i] == column(s, f)[i]);
        }
    }
}

/// The field `f` of an execution.
fn field_text(e: &SessionExecution, f: Field) -> (r: &String)
    ensures
        r@ == field_of(e@, f),
{
    match f {
        Field::Bucket => &e.bucket,
        Field::Pipeline => &e.pipeline_id,
        Field::Node => &e.node_id,
        Field::Harness => &e.harness,
    }
}

/// The field `f` of each execution.
pub fn column_of(s: &Vec<SessionExecution>, f: Field) -> (r: Vec<String>)
    ensures
        texts(r@) == column(views(s@), f),
        r@.len() == s@.len(),
{
    let mut r: Vec<String> = Vec::new();
    let mut i: usize = 0;
    while i < s.len()
        invariant
            i <= s@.len(),
            texts(r@) == column(views(s@.take(i as int)), f),
            r@.len() == i,
        decreases s.len() - i,
    {
        let ghost before = r@;
        r.push(field_text(&s[i], f).clone());
        assert(texts(r@) =~= texts(before).push(field_of(s@[i as int]@, f)));
        assert(column(views(s@.take(i + 1)), f) =~= column(views(s@.take(i as int)), f).push(field_of(s@[i as int]@, f)));
        i += 1;
    }
    assert(s@.take(i as int) =~= s@);
    r
}

/// The executions whose field `f` is `k`.
pub fn with_field_of(s: &Vec<SessionExecution>, f: Field, k: &str) -> (r: Vec<SessionExecution>)
    ensures
        views(r@) == with_field(views(s@), f, k@),
{
    let mut r: Vec<SessionExecution> = Vec::new();
    let mut i: usize = 0;
    while i < s.len()
        invariant
            i <= s@.len(),
            views(r@) == with_field(views(s@.take(i as int)), f, k@),
        decreases s.len() - i,
    {
        let ghost before = r@;
        proof {
            assert(views(s@.take(i + 1)).drop_last() =~= views(s@.take(i as int)));
            assert(views(s@.take(i + 1)).last() == s@[i as int]@);
        }
        if str_eq(field_text(&s[i], f).as_str(), k) {
            r.push(copy_execution(&s[i]));
            assert(views(r@) =~= views(before).push(s@[i as int]@));
        }
        i += 1;
    }
    assert(s@.take(i as int) =~= s@);
    r
}

/// Per period bucket, in bucket order, the harness tally of `s`.
pub fn period_tallies(s: &Vec<SessionExecution>) -> (r: Vec<(String, HarnessCount)>)
    ensures
        tally_view(r@) == by_period(views(s@)),
        forall|i: int| 0 <= i < r@.len() ==> (#[trigger] r@[i]).1.wf(),
{
    let ghost v = views(s@);
    let buckets = distinct_sorted(&column_of(s, Field::Bucket));
    let ghost keys = keys_of(tally(column(v, Field::Bucket)));
    let mut r: Vec<(String, HarnessCount)> = Vec::new();
    let mut i: usize = 0;
    while i < buckets.len()
        invariant
            i <= buckets@.len(),
            v == views(s@),
            texts(buckets@) == keys,
            keys == keys_of(tally(column(v, Field::Bucket))),
            tally_view(r@) == keys.take(i as int).map_values(
                |b: Seq<char>| (b, tally(column(with_field(v, Field::Bucket, b), Field::Harness))),
            ),
            forall|j: int| 0 <= j < r@.len() ==> (#[trigger] r@[j]).1.wf(),
        decreases buckets.len() - i,
    {
        let b = &buckets[i];
        let sub = with_field_of(s, Field::Bucket, b.as_str());
        proof {
            lemma_with_field(v, Field::Bucket, b@);
        }
        let hs = column_of(&sub, Field::Harness);
        let c = tally_of(&hs);
        let ghost before = r@;
        r.push((b.clone(), c));
        proof {
            assert(keys[i as int] == b@);
            assert(tally_view(r@) =~= tally_view(before).push((b@, c.rows())));
            assert(keys.take(i + 1) =~= keys.take(i as int).push(b@));
            assert(keys.take(i + 1).map_values(
                |b: Seq<char>| (b, tally(column(with_field(v, Field::Bucket, b), Field::Harness))),
            ) =~= keys.take(i as int).map_values(
                |b: Seq<char>| (b, tally(column(with_field(v, Field::Bucket, b), Field::Harness))),
            ).push((b@, tally(column(with_field(v, Field::Bucket, b@), Field::Harness)))));
        }
        i += 1;
    }
    assert(keys.take(i as int) =~= keys);
    r
}

// ───────────────────────────── Pipelines and Nodes ─────────────────────────────

/// The node ids of executions, ascending.
pub open spec fn node_ids(s: Seq<ExecutionView>) -> Seq<Seq<char>> {
    keys_of(tally(column(s, Field::Node)))
}

/// The pipeline ids of executions, ascending.
pub open spec fn pipeline_ids(s: Seq<ExecutionView>) -> Seq<Seq<char>> {
    keys_of(tally(column(s, Field::Pipeline)))
}

/// A node's tallies hold what its executions `s` give: the name of the
/// last one, the harness tally, and the harness tally per period.
pub open spec fn node_tallies(b: SessionNodeBuilder, s: Seq<ExecutionView>) -> bool {
    &&& b.name@ == s.last().node_name
    &&& b.count.wf()
    &&& b.count.total == s.len()
    &&& b.count.rows() == tally(column(s, Field::Harness))
    &&& tally_view(b.periods@) == by_period(s)
}

/// A pipeline's tallies hold what its executions `s` give, and those of
/// each of its nodes, in node id order.
pub open spec fn pipeline_tallies(b: SessionPipelineBuilder, s: Seq<ExecutionView>) -> bool {
    &&& b.name@ == s.last().pipeline_name
    &&& b.count.wf()
    &&& b.count.total == s.len()
    &&& b.count.rows() == tally(column(s, Field::Harness))
    &&& tally_view(b.periods@) == by_period(s)
    &&& b.nodes@.len() == node_ids(s).len()
    &&& forall|i: int|
        0 <= i < b.nodes@.len() ==> (#[trigger] b.nodes@[i]).0@ == node_ids(s)[i] && node_tallies(
            b.nodes@[i].1,
            with_field(s, Field::Node, node_ids(s)[i]),
        )
}

/// A key of a tally occurs among its keys.
proof fn lemma_key_occurs(x: Seq<Seq<char>>, i: int)
    requires
        0 <= i < keys_of(tally(x)).len(),
    ensures
        x.contains(keys_of(tally(x))[i]),
{
    let t = tally(x);
    law_tally_counts_each_key(x, t[i].0);
    assert(has_key(t, t[i].0));
}

/// The tallies of one node's executions.
fn node_builder(s: &Vec<SessionExecution>) -> (b: SessionNodeBuilder)
    requires
        0 < s@.len(),
    ensures
        node_tallies(b, views(s@)),
{
    let n = s.len();
    SessionNodeBuilder {
        name: s[n - 1].node_name.clone(),
        count: tally_of(&column_of(s, Field::Harness)),
        periods: period_tallies(s),
    }
}

/// The tallies of one pipeline's executions.
fn pipeline_builder(s: &Vec<SessionExecution>) -> (b: SessionPipelineBuilder)
    requires
        0 < s@.len(),
    ensures
        pipeline_tallies(b, views(s@)),
{
    let ghost v = views(s@);
    let ids = distinct_sorted(&column_of(s, Field::Node));
    let mut nodes: Vec<(String, SessionNodeBuilder)> = Vec::new();
    let mut i: usize = 0;
    while i < ids.len()
        invariant
            i <= ids@.len(),
            v == views(s@),
            texts(ids@) == node_ids(v),
            nodes@.len() == i,
            forall|j: int|
                0 <= j < i ==> (#[trigger] nodes@[j]).0@ == node_ids(v)[j] && node_tallies(
                    nodes@[j].1,
                    with_field(v, Field::Node, node_ids(v)[j]),
                ),
        decreases ids.len() - i,
    {
        let sub = with_field_of(s, Field::Node, ids[i].as_str());
        proof {
            assert(node_ids(v)[i as int] == ids@[i as int]@);
            lemma_key_occurs(column(v, Field::Node), i as int);
            lemma_with_field(v, Field::Node, ids@[i as int]@);
        }
        let nb = node_builder(&sub);
        nodes.push((ids[i].clone(), nb));
        i += 1;
    }
    let n = s.len();
    SessionPipelineBuilder {
        name: s[n - 1].pipeline_name.clone(),
        count: tally_of(&column_of(s, Field::Harness)),
        periods: period_tallies(s),
        nodes,
    }
}

/// `e` is the entity of node `id` with executions `s`.
pub open spec fn node_entity(e: StatsSessionEntity, s: Seq<ExecutionView>, id: Seq<char>) -> bool {
    &&& e.id@ == id
    &&& e.name@ == s.last().node_name
    &&& e.executions == s.len()
    &&& harness_view(e.harnesses@) == tally(column(s, Field::Harness))
    &&& period_view(e.by_period@) == by_period(s)
    &&& e.nodes@.len() == 0
}

/// `g` holds the entity of each node of the executions `s`, in node id
/// order.
pub open spec fn node_entities(g: Seq<StatsSessionEntity>, s: Seq<ExecutionView>) -> bool {
    g.len() == node_ids(s).len() && forall|i: int|
        0 <= i < g.len() ==> node_entity(#[trigger] g[i], with_field(s, Field::Node, node_ids(s)[i]), node_ids(s)[i])
}

/// `e` is the entity of pipeline `id` with executions `s`: its nodes in
/// rank order.
pub open spec fn pipeline_entity(e: StatsSessionEntity, s: Seq<ExecutionView>, id: Seq<char>) -> bool {
    &&& e.id@ == id
    &&& e.name@ == s.last().pipeline_name
    &&& e.executions == s.len()
    &&& harness_view(e.harnesses@) == tally(column(s, Field::Harness))
    &&& period_view(e.by_period@) == by_period(s)
    &&& ranked(e.nodes@)
    &&& exists|g: Seq<StatsSessionEntity>| #[trigger] node_entities(g, s) && e.nodes@.to_multiset() == g.to_multiset()
}

/// `f` holds the entity of each pipeline of the executions `s`, in
/// pipeline id order.
pub open spec fn pipeline_entities(f: Seq<StatsSessionEntity>, s: Seq<ExecutionView>) -> bool {
    f.len() == pipeline_ids(s).len() && forall|i: int|
        0 <= i < f.len() ==> pipeline_entity(
            #[trigger] f[i],
            with_field(s, Field::Pipeline, pipeline_ids(s)[i]),
            pipeline_ids(s)[i],
        )
}

/// Period rows that match period tallies show them.
proof fn lemma_periods_view(p: Seq<StatsSessionPeriod>, t: Seq<(String, HarnessCount)>)
    requires
        periods_match(p, t),
    ensures
        period_view(p) == tally_view(t),
{
    assert forall|i: int| 0 <= i < p.len() implies #[trigger] period_view(p)[i] == tally_view(t)[i] by {
        assert(p[i].bucket@ == t[i].0@);
    }
    assert(period_view(p) =~= tally_view(t));
}

/// The entity of the pipeline with executions `s` and id `id`.
fn pipeline_entity_of(id: String, s: &Vec<SessionExecution>) -> (e: StatsSessionEntity)
    requires
        0 < s@.len(),
    ensures
        pipeline_entity(e, views(s@), id@),
{
    let ghost v = views(s@);
    let b = pipeline_builder(s);
    let ghost nodes = b.nodes@;
    let ghost periods = b.periods@;
    let e = finish_pipeline(id, b);
    proof {
        lemma_periods_view(e.by_period@, periods);
        let g = choose|f: Seq<StatsSessionEntity>|
            #[trigger] all_finished_from(f, nodes) && e.nodes@.to_multiset() == f.to_multiset();
        assert forall|i: int| 0 <= i < g.len() implies node_entity(
            #[trigger] g[i],
            with_field(v, Field::Node, node_ids(v)[i]),
            node_ids(v)[i],
        ) by {
            assert(finished_from(g[i], nodes[i].0@, nodes[i].1));
            assert(nodes[i].0@ == node_ids(v)[i]);
            lemma_periods_view(g[i].by_period@, nodes[i].1.periods@);
        }
        assert(node_entities(g, v));
    }
    e
}

// ───────────────────────────── the fold ─────────────────────────────

/// The number of events of one kind that fell in one period bucket.
#[derive(Debug, PartialEq, Eq)]
pub struct BucketCount {
    pub bucket: String,
    pub count: i64,
}

/// Bucket counts as `(bucket, count)`.
pub open spec fn bucket_view(b: Seq<BucketCount>) -> Seq<(Seq<char>, int)> {
    b.map_values(|x: BucketCount| (x.bucket@, x.count as int))
}

/// Tally rows with integer counts.
pub open spec fn int_rows(t: Seq<(Seq<char>, nat)>) -> Seq<(Seq<char>, int)> {
    t.map_values(|p: (Seq<char>, nat)| (p.0, p.1 as int))
}

/// The session part of the stats overview.
#[derive(Debug, PartialEq, Eq)]
pub struct SessionStats {
    /// Executions per period bucket, in bucket order.
    pub sessions: Vec<BucketCount>,
    /// Executions per period bucket and harness.
    pub periods: Vec<StatsSessionPeriod>,
    /// The harnesses that ran, ascending.
    pub harnesses: Vec<String>,
    /// The pipelines that ran, in rank order.
    pub pipelines: Vec<StatsSessionEntity>,
}

/// Fold the session cohort: every execution the rows stand for, counted
/// once, tallied per period bucket, per harness and per Pipeline → Node.
pub fn session_stats(rows: &Vec<SessionRow>, default_harness: &str) -> (r: SessionStats)
    requires
        rows@.len() < i64::MAX,
    ensures
        bucket_view(r.sessions@) == int_rows(tally(column(counted(rows@, default_harness@), Field::Bucket))),
        period_view(r.periods@) == by_period(counted(rows@, default_harness@)),
        texts(r.harnesses@) == keys_of(tally(column(counted(rows@, default_harness@), Field::Harness))),
        ranked(r.pipelines@),
        exists|f: Seq<StatsSessionEntity>|
            #[trigger] pipeline_entities(f, counted(rows@, default_harness@)) && r.pipelines@.to_multiset()
                == f.to_multiset(),
{
    let c = counted_executions(rows, default_harness);
    let ghost v = views(c@);

    let per_bucket = tally_of(&column_of(&c, Field::Bucket));
    let mut sessions: Vec<BucketCount> = Vec::new();
    let mut i: usize = 0;
    while i < per_bucket.by_harness.len()
        invariant
            i <= per_bucket.by_harness@.len(),
            per_bucket.wf(),
            per_bucket.total == c@.len(),
            c@.len() < i64::MAX,
            bucket_view(sessions@) == int_rows(per_bucket.rows().take(i as int)),
        decreases per_bucket.by_harness.len() - i,
    {
        let ghost before = sessions@;
        let n = per_bucket.by_harness[i].1;
        proof {
            crate::stats::lemma_count_le_sum(per_bucket.rows(), i as int);
            assert(per_bucket.rows()[i as int].1 == n);
        }
        sessions.push(BucketCount { bucket: per_bucket.by_harness[i].0.clone(), count: n as i64 });
        assert(bucket_view(sessions@) =~= bucket_view(before).push(
            (per_bucket.by_harness@[i as int].0@, n as int),
        ));
        assert(int_rows(per_bucket.rows().take(i + 1)) =~= int_rows(per_bucket.rows().take(i as int)).push(
            (per_bucket.rows()[i as int].0, per_bucket.rows()[i as int].1 as int),
        ));
        i += 1;
    }
    assert(per_bucket.rows().take(i as int) =~= per_bucket.rows());

    let tallies = period_tallies(&c);
    let ghost period_tally = tallies@;
    let periods = period_rows(tallies);
    proof {
        lemma_periods_view(periods@, period_tally);
    }
    let harnesses = distinct_sorted(&column_of(&c, Field::Harness));

    let ids = distinct_sorted(&column_of(&c, Field::Pipeline));
    let mut entities: Vec<StatsSessionEntity> = Vec::new();
    let mut k: usize = 0;
    while k < ids.len()
        invariant
            k <= ids@.len(),
            c@.len() < i64::MAX,
            v == views(c@),
            texts(ids@) == pipeline_ids(v),
            entities@.len() == k,
            forall|j: int|
                0 <= j < k ==> pipeline_entity(
                    #[trigger] entities@[j],
                    with_field(v, Field::Pipeline, pipeline_ids(v)[j]),
                    pipeline_ids(v)[j],
                ),
        decreases ids.len() - k,
    {
        let sub = with_field_of(&c, Field::Pipeline, ids[k].as_str());
        proof {
            assert(pipeline_ids(v)[k as int] == ids@[k as int]@);
            lemma_key_occurs(column(v, Field::Pipeline), k as int);
            lemma_with_field(v, Field::Pipeline, ids@[k as int]@);
        }
        entities.push(pipeline_entity_of(ids[k].clone(), &sub));
        k += 1;
    }
    let ghost f = entities@;
    assert(pipeline_entities(f, v));
    let pipelines = rank_entities(entities);
    SessionStats { sessions, periods, harnesses, pipelines }
}

/// The period labels of the overview's series, ascending and each once.
pub fn overview_buckets(runs: &Vec<BucketCount>, errors: &Vec<BucketCount>, sessions: &Vec<BucketCount>) -> (r: Vec<String>)
    ensures
        texts(r@) == keys_of(tally(bucket_texts(runs@) + bucket_texts(errors@) + bucket_texts(sessions@))),
{
    let mut labels: Vec<String> = Vec::new();
    push_buckets(&mut labels, runs);
    push_buckets(&mut labels, errors);
    push_buckets(&mut labels, sessions);
    distinct_sorted(&labels)
}

/// The buckets of bucket counts, in order.
pub open spec fn bucket_texts(b: Seq<BucketCount>) -> Seq<Seq<char>> {
    b.map_values(|x: BucketCount| x.bucket@)
}

/// Append the buckets of `series` to `labels`.
fn push_buckets(labels: &mut Vec<String>, series: &Vec<BucketCount>)
    ensures
        texts(final(labels)@) == texts(old(labels)@) + bucket_texts(series@),
        final(labels)@.len() == old(labels)@.len() + series@.len(),
{
    let ghost start = texts(labels@);
    let ghost n0 = labels@.len();
    let mut i: usize = 0;
    while i < series.len()
        invariant
            i <= series@.len(),
            texts(labels@) == start + bucket_texts(series@.take(i as int)),
            labels@.len() == n0 + i,
        decreases series.len() - i,
    {
        let ghost before = labels@;
        labels.push(series[i].bucket.clone());
        assert(texts(labels@) =~= texts(before).push(series@[i as int].bucket@));
        assert(bucket_texts(series@.take(i + 1)) =~= bucket_texts(series@.take(i as int)).push(
            series@[i as int].bucket@,
        ));
        i += 1;
    }
    assert(series@.take(i as int) =~= series@);
}

// ───────────────────────────── laws ─────────────────────────────

/// A group is as large as its key's count: the executions whose field `f`
/// is `k` are as many as the tally of that field counts for `k`.
pub proof fn law_group_size_is_its_count(s: Seq<ExecutionView>, f: Field, k: Seq<char>)
    ensures
        with_field(s, f, k).len() == count_in(tally(column(s, f)), k),
    decreases s.len(),
{
    lemma_group_size(s, f, k);
    law_tally_counts_each_key(column(s, f), k);
}

/// The size of a group is the number of occurrences of its key.
proof fn lemma_group_size(s: Seq<ExecutionView>, f: Field, k: Seq<char>)
    ensures
        with_field(s, f, k).len() == occurrences(column(s, f), k),
    decreases s.len(),
{
    if s.len() > 0 {
        lemma_group_size(s.drop_last(), f, k);
        assert(column(s, f).drop_last() =~= column(s.drop_last(), f));
    }
}

/// `kept_upto` reads only the first `n` executions.
proof fn lemma_kept_prefix(a: Seq<ExecutionView>, b: Seq<ExecutionView>, n: int)
    requires
        0 <= n <= a.len(),
        n <= b.len(),
        forall|i: int| 0 <= i < n ==> a[i] == b[i],
    ensures
        kept_upto(a, n) == kept_upto(b, n),
    decreases n,
{
    if n > 0 {
        lemma_kept_prefix(a, b, n - 1);
        assert(fresh(a, n - 1) == fresh(b, n - 1)) by {
            if fresh(a, n - 1) {
                assert forall|j: int| 0 <= j < n - 1 implies (#[trigger] b[j]).run_id != b[n - 1].run_id
                    || b[j].identity != b[n - 1].identity by {
                    assert(a[j] == b[j]);
                }
            }
            if fresh(b, n - 1) {
                assert forall|j: int| 0 <= j < n - 1 implies (#[trigger] a[j]).run_id != a[n - 1].run_id
                    || a[j].identity != a[n - 1].identity by {
                    assert(a[j] == b[j]);
                }
            }
        }
    }
}

/// A row adds nothing to the count when it stands for no agent execution
/// (no node, or a script node), or when an execution of the same Run with
/// the same identity was already counted.
pub proof fn law_repeats_and_scripts_add_nothing(rows: Seq<SessionRow>, row: SessionRow, default_harness: Seq<char>)
    requires
        match execution_of(row, default_harness) {
            None => true,
            Some(e) => exists|j: int|
                0 <= j < executions_of(rows, default_harness).len() && (#[trigger] executions_of(
                    rows,
                    default_harness,
                )[j]).run_id == e.run_id && executions_of(rows, default_harness)[j].identity == e.identity,
        },
    ensures
        counted(rows.push(row), default_harness) == counted(rows, default_harness),
{
    let s = executions_of(rows, default_harness);
    assert(rows.push(row).drop_last() =~= rows);
    match execution_of(row, default_harness) {
        None => {},
        Some(e) => {
            let t = s.push(e);
            let n = s.len() as int;
            lemma_kept_prefix(t, s, n);
            let j = choose|j: int| 0 <= j < s.len() && (#[trigger] s[j]).run_id == e.run_id && s[j].identity == e.identity;
            assert(t[j] == s[j]);
            assert(!fresh(t, n));
        },
    }
}

} // verus!
