//! Session statistics: agent-session executions tallied by harness, per
//! period bucket, per pipeline and per node, and the rows the stats API
//! answers with.
//!
//! A tally keeps its keys in ascending text order, as the ordered maps it
//! stands for do, so the rows come out sorted by key.
use vstd::prelude::*;
use crate::text::{
    lemma_text_lt_asymmetric, lemma_text_lt_total, lemma_text_lt_transitive, str_before, str_eq,
    text_lt,
};

verus! {

broadcast use vstd::string::group_string_axioms;

/// The SQLite `strftime` format of a bucket granularity: `day`, `week` or
/// `month`; `None` for any other (the handler answers `400`).
pub open spec fn strftime_spec(bucket: Seq<char>) -> Option<Seq<char>> {
    if bucket == "day"@ {
        Some("%Y-%m-%d"@)
    } else if bucket == "week"@ {
        Some("%Y-W%W"@)
    } else if bucket == "month"@ {
        Some("%Y-%m"@)
    } else {
        None
    }
}

/// Map a bucket granularity to its SQLite `strftime` format.
pub fn strftime_fmt(bucket: &str) -> (r: Option<&'static str>)
    ensures
        match r {
            Some(f) => strftime_spec(bucket@) == Some(f@),
            None => strftime_spec(bucket@) is None,
        },
{
    if str_eq(bucket, "day") {
        Some("%Y-%m-%d")
    } else if str_eq(bucket, "week") {
        Some("%Y-W%W")
    } else if str_eq(bucket, "month") {
        Some("%Y-%m")
    } else {
        None
    }
}

// ───────────────────────────── tallies ─────────────────────────────

/// Executions in total and by harness; `by_harness` is ordered by harness.
#[derive(Debug, PartialEq, Eq)]
pub struct HarnessCount {
    pub total: u64,
    pub by_harness: Vec<(String, u64)>,
}

/// A tally's rows: `(key, count)` in key order.
pub open spec fn rows_of(s: Seq<(String, u64)>) -> Seq<(Seq<char>, nat)> {
    s.map_values(|p: (String, u64)| (p.0@, p.1 as nat))
}

/// Keys strictly ascending.
pub open spec fn keys_ascending(r: Seq<(Seq<char>, nat)>) -> bool {
    forall|i: int, j: int| 0 <= i < j < r.len() ==> text_lt(r[i].0, r[j].0)
}

/// The sum of the counts.
pub open spec fn row_sum(r: Seq<(Seq<char>, nat)>) -> nat
    decreases r.len(),
{
    if r.len() == 0 {
        0
    } else {
        row_sum(r.drop_last()) + r.last().1
    }
}

/// The count of key `k`; 0 when absent.
pub open spec fn count_in(r: Seq<(Seq<char>, nat)>, k: Seq<char>) -> nat
    decreases r.len(),
{
    if r.len() == 0 {
        0
    } else if r[0].0 == k {
        r[0].1
    } else {
        count_in(r.drop_first(), k)
    }
}

/// One more execution of `h`: its row's count goes up by one, or a row
/// `(h, 1)` is inserted where the key order puts it.
pub open spec fn bump(r: Seq<(Seq<char>, nat)>, h: Seq<char>) -> Seq<(Seq<char>, nat)>
    decreases r.len(),
{
    if r.len() == 0 {
        seq![(h, 1nat)]
    } else if r[0].0 == h {
        seq![(h, r[0].1 + 1)] + r.drop_first()
    } else if text_lt(r[0].0, h) {
        seq![r[0]] + bump(r.drop_first(), h)
    } else {
        seq![(h, 1nat)] + r
    }
}

impl HarnessCount {
    /// The rows by harness.
    pub open spec fn rows(&self) -> Seq<(Seq<char>, nat)> {
        rows_of(self.by_harness@)
    }

    /// Keys ascending, and the counts add up to the total.
    pub open spec fn wf(&self) -> bool {
        keys_ascending(self.rows()) && row_sum(self.rows()) == self.total
    }

    /// An empty tally.
    pub fn new() -> (c: HarnessCount)
        ensures
            c.wf(),
            c.total == 0,
            c.rows() == Seq::<(Seq<char>, nat)>::empty(),
    {
        let c = HarnessCount { total: 0, by_harness: Vec::new() };
        assert(c.rows() =~= Seq::<(Seq<char>, nat)>::empty());
        c
    }
}

/// `row_sum` over a concatenation.
pub(crate) proof fn lemma_row_sum_concat(a: Seq<(Seq<char>, nat)>, b: Seq<(Seq<char>, nat)>)
    ensures
        row_sum(a + b) == row_sum(a) + row_sum(b),
    decreases b.len(),
{
    if b.len() == 0 {
        assert(a + b =~= a);
    } else {
        lemma_row_sum_concat(a, b.drop_last());
        assert((a + b).drop_last() =~= a + b.drop_last());
    }
}

/// The sum of one row is its count.
pub(crate) proof fn lemma_row_sum_one(x: (Seq<char>, nat))
    ensures
        row_sum(seq![x]) == x.1,
{
    assert(seq![x].drop_last() =~= Seq::<(Seq<char>, nat)>::empty());
    reveal_with_fuel(row_sum, 2);
}

/// Every count is at most the sum.
pub(crate) proof fn lemma_count_le_sum(r: Seq<(Seq<char>, nat)>, i: int)
    requires
        0 <= i < r.len(),
    ensures
        r[i].1 <= row_sum(r),
    decreases r.len(),
{
    if i < r.len() - 1 {
        lemma_count_le_sum(r.drop_last(), i);
    }
}

/// Where `bump` puts `h`: after the `i` keys before it.
proof fn lemma_bump_at(r: Seq<(Seq<char>, nat)>, h: Seq<char>, i: int)
    requires
        0 <= i <= r.len(),
        forall|j: int| 0 <= j < i ==> text_lt(#[trigger] r[j].0, h),
        i < r.len() ==> !text_lt(r[i].0, h),
    ensures
        bump(r, h) == (if i < r.len() && r[i].0 == h {
            r.subrange(0, i) + seq![(h, r[i].1 + 1)] + r.subrange(i + 1, r.len() as int)
        } else {
            r.subrange(0, i) + seq![(h, 1nat)] + r.subrange(i, r.len() as int)
        }),
    decreases i,
{
    if i == 0 {
        if r.len() > 0 && r[0].0 == h {
            assert(r.subrange(1, r.len() as int) =~= r.drop_first());
            assert(r.subrange(0, 0) + seq![(h, r[0].1 + 1)] + r.subrange(1, r.len() as int) =~= seq![(h, r[0].1 + 1)]
                + r.drop_first());
        } else {
            assert(r.subrange(0, 0) + seq![(h, 1nat)] + r.subrange(0, r.len() as int) =~= seq![(h, 1nat)] + r);
        }
    } else {
        lemma_text_lt_asymmetric(r[0].0, h);
        assert(r[0].0 != h);
        let rest = r.drop_first();
        assert forall|j: int| 0 <= j < i - 1 implies text_lt(#[trigger] rest[j].0, h) by {
            assert(rest[j] == r[j + 1]);
        }
        lemma_bump_at(rest, h, i - 1);
        if i < r.len() && r[i].0 == h {
            assert(seq![r[0]] + (rest.subrange(0, i - 1) + seq![(h, rest[i - 1].1 + 1)] + rest.subrange(
                i,
                rest.len() as int,
            )) =~= r.subrange(0, i) + seq![(h, r[i].1 + 1)] + r.subrange(i + 1, r.len() as int));
        } else {
            assert(seq![r[0]] + (rest.subrange(0, i - 1) + seq![(h, 1nat)] + rest.subrange(
                i - 1,
                rest.len() as int,
            )) =~= r.subrange(0, i) + seq![(h, 1nat)] + r.subrange(i, r.len() as int));
        }
    }
}

/// A key that no row has counts 0.
proof fn lemma_count_absent(r: Seq<(Seq<char>, nat)>, k: Seq<char>)
    requires
        forall|j: int| 0 <= j < r.len() ==> (#[trigger] r[j]).0 != k,
    ensures
        count_in(r, k) == 0,
    decreases r.len(),
{
    if r.len() > 0 {
        assert forall|j: int| 0 <= j < r.len() - 1 implies (#[trigger] r.drop_first()[j]).0 != k by {
            assert(r.drop_first()[j] == r[j + 1]);
        }
        lemma_count_absent(r.drop_first(), k);
    }
}

/// Counting one execution of `h` adds one to the count of `h` and leaves
/// every other count as it was.
pub proof fn law_bump_counts_one_more(r: Seq<(Seq<char>, nat)>, h: Seq<char>, k: Seq<char>)
    requires
        keys_ascending(r),
    ensures
        count_in(bump(r, h), k) == count_in(r, k) + (if k == h { 1nat } else { 0nat }),
    decreases r.len(),
{
    reveal_with_fuel(count_in, 2);
    if r.len() == 0 {
    } else if r[0].0 == h {
        assert((seq![(h, r[0].1 + 1)] + r.drop_first()).drop_first() =~= r.drop_first());
    } else if text_lt(r[0].0, h) {
        let rest = r.drop_first();
        assert(keys_ascending(rest)) by {
            assert forall|i: int, j: int| 0 <= i < j < rest.len() implies text_lt(rest[i].0, rest[j].0) by {
                assert(rest[i] == r[i + 1] && rest[j] == r[j + 1]);
            }
        }
        law_bump_counts_one_more(rest, h, k);
        assert((seq![r[0]] + bump(rest, h)).drop_first() =~= bump(rest, h));
        lemma_text_lt_asymmetric(r[0].0, h);
    } else {
        assert((seq![(h, 1nat)] + r).drop_first() =~= r);
        if k == h {
            lemma_text_lt_total(r[0].0, h);
            assert forall|j: int| 0 <= j < r.len() implies (#[trigger] r[j]).0 != h by {
                if j > 0 {
                    lemma_text_lt_transitive(h, r[0].0, r[j].0);
                }
                lemma_text_lt_asymmetric(h, r[j].0);
            }
            lemma_count_absent(r, h);
        }
    }
}

/// Count one execution of `harness`.
pub fn increment_harness(count: &mut HarnessCount, harness: &str)
    requires
        old(count).wf(),
        old(count).total < u64::MAX,
    ensures
        final(count).wf(),
        final(count).total == old(count).total + 1,
        final(count).rows() == bump(old(count).rows(), harness@),
{
    let ghost r = count.rows();
    let n = count.by_harness.len();
    let mut i: usize = 0;
    while i < n && str_before(count.by_harness[i].0.as_str(), harness)
        invariant
            n == count.by_harness@.len(),
            r == count.rows(),
            i <= n,
            forall|j: int| 0 <= j < i ==> text_lt(#[trigger] r[j].0, harness@),
        decreases n - i,
    {
        assert(r[i as int].0 == count.by_harness@[i as int].0@);
        i += 1;
    }
    proof {
        if i < n {
            assert(r[i as int].0 == count.by_harness@[i as int].0@);
        }
        lemma_bump_at(r, harness@, i as int);
    }
    if i < n && str_eq(count.by_harness[i].0.as_str(), harness) {
        let c = count.by_harness[i].1;
        proof {
            lemma_count_le_sum(r, i as int);
        }
        let key = count.by_harness[i].0.clone();
        count.by_harness.set(i, (key, c + 1));
        count.total = count.total + 1;
        proof {
            let s = count.rows();
            assert(s =~= r.subrange(0, i as int) + seq![(harness@, r[i as int].1 + 1)] + r.subrange(
                i + 1,
                r.len() as int,
            ));
            assert(r =~= r.subrange(0, i as int) + seq![r[i as int]] + r.subrange(i + 1, r.len() as int));
            lemma_row_sum_concat(r.subrange(0, i as int) + seq![r[i as int]], r.subrange(i + 1, r.len() as int));
            lemma_row_sum_concat(r.subrange(0, i as int), seq![r[i as int]]);
            lemma_row_sum_concat(
                r.subrange(0, i as int) + seq![(harness@, r[i as int].1 + 1)],
                r.subrange(i + 1, r.len() as int),
            );
            lemma_row_sum_concat(r.subrange(0, i as int), seq![(harness@, r[i as int].1 + 1)]);
            lemma_row_sum_one(r[i as int]);
            lemma_row_sum_one((harness@, r[i as int].1 + 1));
            assert forall|a: int, b: int| 0 <= a < b < s.len() implies text_lt(s[a].0, s[b].0) by {
                assert(s[a].0 == r[a].0 && s[b].0 == r[b].0);
            }
        }
    } else {
        count.by_harness.insert(i, (harness.to_owned(), 1));
        count.total = count.total + 1;
        proof {
            let s = count.rows();
            let x = (harness@, 1nat);
            assert(s =~= r.subrange(0, i as int) + seq![x] + r.subrange(i as int, r.len() as int));
            assert(r =~= r.subrange(0, i as int) + r.subrange(i as int, r.len() as int));
            lemma_row_sum_concat(r.subrange(0, i as int), r.subrange(i as int, r.len() as int));
            lemma_row_sum_concat(r.subrange(0, i as int) + seq![x], r.subrange(i as int, r.len() as int));
            lemma_row_sum_concat(r.subrange(0, i as int), seq![x]);
            lemma_row_sum_one(x);
            if i < n {
                lemma_text_lt_total(r[i as int].0, harness@);
            }
            assert forall|a: int, b: int| 0 <= a < b < s.len() implies text_lt(s[a].0, s[b].0) by {
                if b < i {
                    assert(s[a] == r[a] && s[b] == r[b]);
                } else if b == i {
                    assert(s[a] == r[a] && s[b] == x);
                } else if a == i {
                    assert(s[b] == r[b - 1]);
                    if b - 1 > i {
                        lemma_text_lt_transitive(harness@, r[i as int].0, r[b - 1].0);
                    }
                } else if a < i {
                    assert(s[a] == r[a] && s[b] == r[b - 1]);
                    lemma_text_lt_transitive(r[a].0, harness@, r[i as int].0);
                    if b - 1 > i {
                        lemma_text_lt_transitive(r[a].0, r[i as int].0, r[b - 1].0);
                    }
                } else {
                    assert(s[a] == r[a - 1] && s[b] == r[b - 1]);
                }
            }
        }
    }
}


// ───────────────────────────── rows ─────────────────────────────

/// One harness row of the stats answer.
#[derive(Debug, PartialEq, Eq)]
pub struct StatsSessionHarness {
    pub harness: String,
    pub executions: u64,
}

/// The harness rows of one period bucket.
#[derive(Debug, PartialEq, Eq)]
pub struct StatsSessionPeriod {
    pub bucket: String,
    pub harnesses: Vec<StatsSessionHarness>,
}

/// A pipeline (or, inside one, a node) with its executions.
#[derive(Debug, PartialEq, Eq)]
pub struct StatsSessionEntity {
    pub id: String,
    pub name: String,
    pub executions: u64,
    pub harnesses: Vec<StatsSessionHarness>,
    pub by_period: Vec<StatsSessionPeriod>,
    pub nodes: Vec<StatsSessionEntity>,
}

/// The tallies of one node; `periods` is ordered by bucket.
#[derive(Debug, PartialEq, Eq)]
pub struct SessionNodeBuilder {
    pub name: String,
    pub count: HarnessCount,
    pub periods: Vec<(String, HarnessCount)>,
}

/// The tallies of one pipeline; `periods` ordered by bucket, `nodes` by
/// node id.
#[derive(Debug, PartialEq, Eq)]
pub struct SessionPipelineBuilder {
    pub name: String,
    pub count: HarnessCount,
    pub periods: Vec<(String, HarnessCount)>,
    pub nodes: Vec<(String, SessionNodeBuilder)>,
}

/// Harness rows as `(harness, executions)`.
pub open spec fn harness_view(h: Seq<StatsSessionHarness>) -> Seq<(Seq<char>, nat)> {
    h.map_values(|x: StatsSessionHarness| (x.harness@, x.executions as nat))
}

/// Period rows match period tallies, bucket by bucket, in order.
pub open spec fn periods_match(p: Seq<StatsSessionPeriod>, t: Seq<(String, HarnessCount)>) -> bool {
    p.len() == t.len() && forall|i: int|
        0 <= i < p.len() ==> (#[trigger] p[i]).bucket@ == t[i].0@ && harness_view(p[i].harnesses@) == t[i].1.rows()
}

/// `e` is what a node's tallies `b` under id `id` finish into.
pub open spec fn finished_from(e: StatsSessionEntity, id: Seq<char>, b: SessionNodeBuilder) -> bool {
    &&& e.id@ == id
    &&& e.name@ == b.name@
    &&& e.executions == b.count.total
    &&& harness_view(e.harnesses@) == b.count.rows()
    &&& periods_match(e.by_period@, b.periods@)
    &&& e.nodes@.len() == 0
}

/// `f[j]` is what the `j`-th node tallies finish into, for every `j`.
pub open spec fn all_finished_from(f: Seq<StatsSessionEntity>, nodes: Seq<(String, SessionNodeBuilder)>) -> bool {
    f.len() == nodes.len() && forall|j: int| 0 <= j < f.len() ==> finished_from(#[trigger] f[j], nodes[j].0@, nodes[j].1)
}

/// `a` ranks no lower than `b`: more executions first, then id order.
pub open spec fn ranks_first(a: StatsSessionEntity, b: StatsSessionEntity) -> bool {
    a.executions > b.executions || (a.executions == b.executions && !text_lt(b.id@, a.id@))
}

/// Entities in rank order.
pub open spec fn ranked(s: Seq<StatsSessionEntity>) -> bool {
    forall|i: int, j: int| 0 <= i < j < s.len() ==> ranks_first(s[i], s[j])
}

/// The harness rows of a tally.
pub fn harness_rows(count: Vec<(String, u64)>) -> (r: Vec<StatsSessionHarness>)
    ensures
        harness_view(r@) == rows_of(count@),
{
    let mut r: Vec<StatsSessionHarness> = Vec::new();
    let mut i: usize = 0;
    while i < count.len()
        invariant
            i <= count@.len(),
            harness_view(r@) == rows_of(count@.take(i as int)),
        decreases count.len() - i,
    {
        let ghost before = r@;
        r.push(StatsSessionHarness { harness: count[i].0.clone(), executions: count[i].1 });
        assert(harness_view(r@) =~= harness_view(before).push((count@[i as int].0@, count@[i as int].1 as nat)));
        assert(rows_of(count@.take(i + 1)) =~= rows_of(count@.take(i as int)).push(
            (count@[i as int].0@, count@[i as int].1 as nat),
        ));
        i += 1;
    }
    assert(count@.take(i as int) =~= count@);
    r
}

/// The period rows of the period tallies.
pub fn period_rows(periods: Vec<(String, HarnessCount)>) -> (r: Vec<StatsSessionPeriod>)
    ensures
        periods_match(r@, periods@),
{
    let mut r: Vec<StatsSessionPeriod> = Vec::new();
    let mut i: usize = 0;
    while i < periods.len()
        invariant
            i <= periods@.len(),
            r@.len() == i,
            forall|k: int|
                0 <= k < i ==> (#[trigger] r@[k]).bucket@ == periods@[k].0@ && harness_view(r@[k].harnesses@)
                    == periods@[k].1.rows(),
        decreases periods.len() - i,
    {
        let rows = harness_rows(copy_rows(&periods[i].1.by_harness));
        r.push(StatsSessionPeriod { bucket: periods[i].0.clone(), harnesses: rows });
        i += 1;
    }
    r
}

/// A copy of a tally's rows.
fn copy_rows(rows: &Vec<(String, u64)>) -> (r: Vec<(String, u64)>)
    ensures
        rows_of(r@) == rows_of(rows@),
{
    let mut r: Vec<(String, u64)> = Vec::new();
    let mut i: usize = 0;
    while i < rows.len()
        invariant
            i <= rows@.len(),
            rows_of(r@) == rows_of(rows@.take(i as int)),
        decreases rows.len() - i,
    {
        let ghost before = r@;
        r.push((rows[i].0.clone(), rows[i].1));
        assert(rows_of(r@) =~= rows_of(before).push((rows@[i as int].0@, rows@[i as int].1 as nat)));
        assert(rows_of(rows@.take(i + 1)) =~= rows_of(rows@.take(i as int)).push(
            (rows@[i as int].0@, rows@[i as int].1 as nat),
        ));
        i += 1;
    }
    assert(rows@.take(i as int) =~= rows@);
    r
}

/// A node's entity: its tallies as rows, and no nodes of its own.
pub fn finish_node(id: String, builder: SessionNodeBuilder) -> (e: StatsSessionEntity)
    ensures
        finished_from(e, id@, builder),
{
    let harnesses = harness_rows(builder.count.by_harness);
    let by_period = period_rows(builder.periods);
    StatsSessionEntity {
        id,
        name: builder.name,
        executions: builder.count.total,
        harnesses,
        by_period,
        nodes: Vec::new(),
    }
}

/// Whether `a` ranks no lower than `b`.
fn ranks_first_exec(a: &StatsSessionEntity, b: &StatsSessionEntity) -> (r: bool)
    ensures
        r == ranks_first(*a, *b),
{
    a.executions > b.executions || (a.executions == b.executions && !str_before(b.id.as_str(), a.id.as_str()))
}

/// Ranking is transitive.
proof fn lemma_ranks_transitive(a: StatsSessionEntity, b: StatsSessionEntity, c: StatsSessionEntity)
    requires
        ranks_first(a, b),
        ranks_first(b, c),
    ensures
        ranks_first(a, c),
{
    if a.executions == b.executions && b.executions == c.executions {
        lemma_text_lt_total(a.id@, b.id@);
        lemma_text_lt_total(b.id@, c.id@);
        if text_lt(c.id@, a.id@) {
            if text_lt(a.id@, b.id@) {
                lemma_text_lt_transitive(c.id@, a.id@, b.id@);
            }
        }
    }
}

/// Ranking is total.
proof fn lemma_ranks_total(a: StatsSessionEntity, b: StatsSessionEntity)
    ensures
        ranks_first(a, b) || ranks_first(b, a),
{
    lemma_text_lt_asymmetric(a.id@, b.id@);
}

/// The entities in rank order: more executions first, then by id.
pub fn rank_entities(v: Vec<StatsSessionEntity>) -> (r: Vec<StatsSessionEntity>)
    ensures
        r@.to_multiset() == v@.to_multiset(),
        ranked(r@),
{
    broadcast use vstd::seq_lib::group_to_multiset_ensures;
    broadcast use vstd::multiset::group_multiset_axioms;

    let mut input = v;
    let mut out: Vec<StatsSessionEntity> = Vec::new();
    while input.len() > 0
        invariant
            out@.to_multiset().add(input@.to_multiset()) == v@.to_multiset(),
            ranked(out@),
        decreases input.len(),
    {
        let ghost before = input@;
        let x = input.pop().unwrap();
        proof {
            assert(before =~= input@.push(x));
            vstd::seq_lib::to_multiset_build(input@, x);
        }
        let mut j: usize = 0;
        while j < out.len() && ranks_first_exec(&out[j], &x)
            invariant
                j <= out@.len(),
                forall|k: int| 0 <= k < j ==> ranks_first(#[trigger] out@[k], x),
            decreases out.len() - j,
        {
            j += 1;
        }
        let ghost o = out@;
        out.insert(j, x);
        proof {
            vstd::seq_lib::to_multiset_insert(o, j as int, x);
            if j < o.len() {
                lemma_ranks_total(o[j as int], x);
            }
            assert forall|a: int, b: int| 0 <= a < b < out@.len() implies ranks_first(out@[a], out@[b]) by {
                if b < j {
                    assert(out@[a] == o[a] && out@[b] == o[b]);
                } else if b == j {
                    assert(out@[a] == o[a]);
                } else if a == j {
                    assert(out@[b] == o[b - 1]);
                    if b - 1 > j {
                        lemma_ranks_transitive(x, o[j as int], o[b - 1]);
                    }
                } else if a < j {
                    assert(out@[a] == o[a] && out@[b] == o[b - 1]);
                    lemma_ranks_transitive(o[a], x, o[j as int]);
                    if b - 1 > j {
                        lemma_ranks_transitive(o[a], o[j as int], o[b - 1]);
                    }
                } else {
                    assert(out@[a] == o[a - 1] && out@[b] == o[b - 1]);
                }
            }
        }
    }
    proof {
        assert(input@ =~= Seq::<StatsSessionEntity>::empty());
    }
    out
}

/// A pipeline's entity: its tallies as rows, and its nodes' entities in
/// rank order.
pub fn finish_pipeline(id: String, builder: SessionPipelineBuilder) -> (e: StatsSessionEntity)
    ensures
        e.id@ == id@,
        e.name@ == builder.name@,
        e.executions == builder.count.total,
        harness_view(e.harnesses@) == builder.count.rows(),
        periods_match(e.by_period@, builder.periods@),
        ranked(e.nodes@),
        exists|f: Seq<StatsSessionEntity>|
            #[trigger] all_finished_from(f, builder.nodes@) && e.nodes@.to_multiset() == f.to_multiset(),
{
    let mut pending = builder.nodes;
    let ghost orig = pending@;
    let mut finished: Vec<StatsSessionEntity> = Vec::new();
    while pending.len() > 0
        invariant
            pending@ == orig.take(pending@.len() as int),
            finished@.len() + pending@.len() == orig.len(),
            forall|j: int|
                0 <= j < finished@.len() ==> finished_from(
                    #[trigger] finished@[j],
                    orig[orig.len() - 1 - j].0@,
                    orig[orig.len() - 1 - j].1,
                ),
        decreases pending.len(),
    {
        let ghost before = pending@;
        let (nid, nb) = pending.pop().unwrap();
        proof {
            assert(pending@ =~= orig.take(pending@.len() as int));
            assert(before[before.len() - 1] == orig[orig.len() - 1 - finished@.len()]);
        }
        finished.push(finish_node(nid, nb));
    }
    let ghost f = finished@.reverse();
    proof {
        finished@.lemma_reverse_to_multiset();
        assert forall|j: int| 0 <= j < f.len() implies finished_from(#[trigger] f[j], orig[j].0@, orig[j].1) by {
            assert(f[j] == finished@[finished@.len() - 1 - j]);
        }
        assert(all_finished_from(f, orig));
    }
    let nodes = rank_entities(finished);
    let harnesses = harness_rows(builder.count.by_harness);
    let by_period = period_rows(builder.periods);
    StatsSessionEntity { id, name: builder.name, executions: builder.count.total, harnesses, by_period, nodes }
}

} // verus!
