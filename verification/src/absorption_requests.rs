//! The Combine request of the stats absorptions: which requests are
//! refused and why, and the write an accepted one makes.
//!
//! A Node absorption lives under one Pipeline row that is not itself counted
//! under another; an effort absorption under one model row, likewise; a
//! couple absorption under one Node row, whose rows must all be
//! model × effort couples. Pipeline and model absorptions have no scope. An
//! effort or couple absorption is posed with its frozen scope: one write per
//! raw scope the row covers at the time of the request.
use vstd::prelude::*;
use crate::absorption::{
    couple_scope, couple_scope_pair, def_name, def_name_exec, is_dimension, json_pair_text, node_defs,
    node_defs_of, parse_couple_scope, pipeline_identity, pipeline_identity_of, row_in_request_scope,
    rows_share_the_scope, split_couple, split_couple_key, supported_dimension, AbsorptionRow, CombineRequest,
    CombineRow, Named, COUPLE, EFFORT, MODEL, NODE, ORIGIN_MANUAL, PIPELINE,
};
use crate::absorption_store::{
    absorbed_by, combine_outcome, combine_rows, combine_scoped, combined, find_key, in_dim_scope, key_index,
    keys_unique, law_combine_points_every_member_at_the_absorbent, members_step, named_pairs, renamed, repointed,
    row_of, scope_named, table, upserted, without_member, CombineSpec, RowView,
};
use crate::json::JsonValue;
use crate::session_tally::{distinct_sorted, keys_of, tally, texts};
use crate::text::{all_space, chars_of, is_blank, push_str, str_eq, string_of};

verus! {

broadcast use vstd::string::group_string_axioms;

// ───────────────────────────── refusals ─────────────────────────────

/// Member `m` of scope `s` of dimension `d` is absorbed by some row.
pub open spec fn taken(t: Seq<RowView>, d: Seq<char>, s: Seq<char>, m: Seq<char>) -> bool {
    key_index(t, d, s, m) is Some
}

/// The name of the first row, absorbent first, whose key is not a
/// model × effort couple.
pub open spec fn first_non_couple(rows: Seq<CombineRow>) -> Option<Seq<char>>
    decreases rows.len(),
{
    if rows.len() == 0 {
        None
    } else if split_couple(rows[0].key@) is None {
        Some(rows[0].name@)
    } else {
        first_non_couple(rows.drop_first())
    }
}

/// The rows of a request: its absorbent, then its members.
pub open spec fn request_rows(body: CombineRequest) -> Seq<CombineRow> {
    seq![body.absorbent] + body.members@
}

/// The members of a request other than its absorbent, as `(key, name)`.
pub open spec fn others_of(ms: Seq<CombineRow>, a: Seq<char>) -> Seq<(Seq<char>, Seq<char>)>
    decreases ms.len(),
{
    if ms.len() == 0 {
        Seq::empty()
    } else {
        let rest = others_of(ms.drop_last(), a);
        if ms.last().key@ != a {
            rest.push((ms.last().key@, ms.last().name@))
        } else {
            rest
        }
    }
}

/// Why the scope does not fit the dimension, if it does not.
pub open spec fn scope_refusal(t: Seq<RowView>, body: CombineRequest) -> Option<Seq<char>> {
    let d = body.dimension@;
    let s = body.scope@;
    let shares = row_in_request_scope(body.absorbent, s) && forall|i: int|
        0 <= i < body.members@.len() ==> row_in_request_scope(#[trigger] body.members@[i], s);
    if d == EFFORT@ {
        if all_space(s) {
            Some("an effort absorption needs the model its efforts ran on"@)
        } else if !shares {
            Some("efforts of different models cannot be combined"@)
        } else if taken(t, MODEL@, Seq::empty(), s) {
            Some("this model is combined into another: combine its efforts there"@)
        } else {
            None
        }
    } else if d == COUPLE@ {
        match couple_scope_pair(s) {
            None => Some("a couple absorption needs the pipeline and the node its couples ran under"@),
            Some((p, n)) => if !shares {
                Some("couples of different nodes cannot be combined"@)
            } else {
                match first_non_couple(request_rows(body)) {
                    Some(name) => Some("not a model \u{d7} effort couple: "@ + name),
                    None => if taken(t, PIPELINE@, Seq::empty(), p) {
                        Some("this pipeline is combined into another: combine its couples there"@)
                    } else if taken(t, NODE@, p, n) {
                        Some("this node is combined into another: combine its couples there"@)
                    } else {
                        None
                    },
                }
            },
        }
    } else if d != NODE@ {
        if s.len() > 0 {
            Some("a "@ + d + " absorption has no scope"@)
        } else {
            None
        }
    } else if all_space(s) {
        Some("a node absorption needs the pipeline its nodes run under"@)
    } else if !shares {
        Some("nodes of different pipelines cannot be combined"@)
    } else if taken(t, PIPELINE@, Seq::empty(), s) {
        Some("this pipeline is combined into another: combine its nodes there"@)
    } else {
        None
    }
}

/// Why the absorbent or the members cannot be combined, if they cannot:
/// a blank key (but for an effort row, whose « not set » key is empty), or
/// no member besides the absorbent.
pub open spec fn member_refusal(body: CombineRequest) -> Option<Seq<char>> {
    let empty_ok = body.dimension@ == EFFORT@;
    let others = others_of(body.members@, body.absorbent.key@);
    if !empty_ok && all_space(body.absorbent.key@) {
        Some("absorbent key is empty"@)
    } else if others.len() == 0 {
        Some("an absorption needs at least one other member"@)
    } else if !empty_ok && exists|i: int| 0 <= i < others.len() && all_space(#[trigger] others[i].0) {
        Some("member key is empty"@)
    } else {
        None
    }
}

/// Why a Combine request is refused, if it is: checked in order, the
/// dimension, the scope, then the absorbent and members.
pub open spec fn refusal_of(t: Seq<RowView>, body: CombineRequest) -> Option<Seq<char>> {
    if !is_dimension(body.dimension@) {
        Some("unsupported absorption dimension: "@ + body.dimension@)
    } else {
        match scope_refusal(t, body) {
            Some(m) => Some(m),
            None => member_refusal(body),
        }
    }
}

/// Whether some row of `(d, s)` has member `m`.
fn taken_exec(rows: &Vec<AbsorptionRow>, d: &str, s: &str, m: &str) -> (r: bool)
    ensures
        r == taken(table(rows@), d@, s@, m@),
{
    find_key(rows, d, s, m).is_some()
}

/// A text made of a literal and a tail.
fn joined(head: &str, tail: &str) -> (r: String)
    ensures
        r@ == head@ + tail@,
{
    let mut v = chars_of(head);
    push_str(&mut v, tail);
    string_of(&v)
}

/// The name of the first row that is not a couple.
fn first_non_couple_exec(body: &CombineRequest) -> (r: Option<String>)
    ensures
        match r {
            Some(n) => first_non_couple(request_rows(*body)) == Some(n@),
            None => first_non_couple(request_rows(*body)) is None,
        },
{
    let ghost rows = request_rows(*body);
    assert(rows.drop_first() =~= body.members@);
    assert(rows[0] == body.absorbent);
    assert(body.members@.skip(0) =~= body.members@);
    if split_couple_key(body.absorbent.key.as_str()).is_none() {
        return Some(body.absorbent.name.clone());
    }
    let mut i: usize = 0;
    while i < body.members.len()
        invariant
            i <= body.members@.len(),
            rows == request_rows(*body),
            first_non_couple(rows) == first_non_couple(body.members@.skip(i as int)),
        decreases body.members.len() - i,
    {
        let ghost rest = body.members@.skip(i as int);
        assert(rest[0] == body.members@[i as int]);
        assert(rest.drop_first() =~= body.members@.skip(i + 1));
        if split_couple_key(body.members[i].key.as_str()).is_none() {
            return Some(body.members[i].name.clone());
        }
        i += 1;
    }
    assert(body.members@.skip(i as int) =~= Seq::<CombineRow>::empty());
    None
}

/// Why the scope does not fit the dimension, if it does not.
fn scope_refusal_exec(rows: &Vec<AbsorptionRow>, body: &CombineRequest) -> (r: Option<String>)
    ensures
        match r {
            Some(m) => scope_refusal(table(rows@), *body) == Some(m@),
            None => scope_refusal(table(rows@), *body) is None,
        },
{
    let d = body.dimension.as_str();
    let s = body.scope.as_str();
    proof {
        reveal_strlit("");
        assert(""@ =~= Seq::<char>::empty());
    }
    if str_eq(d, EFFORT) {
        if is_blank(&chars_of(s)) {
            Some("an effort absorption needs the model its efforts ran on".to_owned())
        } else if !rows_share_the_scope(body) {
            Some("efforts of different models cannot be combined".to_owned())
        } else if taken_exec(rows, MODEL, "", s) {
            Some("this model is combined into another: combine its efforts there".to_owned())
        } else {
            None
        }
    } else if str_eq(d, COUPLE) {
        match parse_couple_scope(s) {
            None => Some("a couple absorption needs the pipeline and the node its couples ran under".to_owned()),
            Some((p, n)) => if !rows_share_the_scope(body) {
                Some("couples of different nodes cannot be combined".to_owned())
            } else {
                match first_non_couple_exec(body) {
                    Some(name) => Some(joined("not a model \u{d7} effort couple: ", name.as_str())),
                    None => if taken_exec(rows, PIPELINE, "", p.as_str()) {
                        Some("this pipeline is combined into another: combine its couples there".to_owned())
                    } else if taken_exec(rows, NODE, p.as_str(), n.as_str()) {
                        Some("this node is combined into another: combine its couples there".to_owned())
                    } else {
                        None
                    },
                }
            },
        }
    } else if !str_eq(d, NODE) {
        if chars_of(s).len() > 0 {
            let mut v = chars_of("a ");
            push_str(&mut v, d);
            push_str(&mut v, " absorption has no scope");
            Some(string_of(&v))
        } else {
            None
        }
    } else if is_blank(&chars_of(s)) {
        Some("a node absorption needs the pipeline its nodes run under".to_owned())
    } else if !rows_share_the_scope(body) {
        Some("nodes of different pipelines cannot be combined".to_owned())
    } else if taken_exec(rows, PIPELINE, "", s) {
        Some("this pipeline is combined into another: combine its nodes there".to_owned())
    } else {
        None
    }
}

/// The members of a request other than its absorbent.
pub fn other_members(body: &CombineRequest) -> (r: Vec<Named>)
    ensures
        crate::absorption_store::named_pairs(r@) == others_of(body.members@, body.absorbent.key@),
{
    let mut r: Vec<Named> = Vec::new();
    let mut i: usize = 0;
    while i < body.members.len()
        invariant
            i <= body.members@.len(),
            crate::absorption_store::named_pairs(r@) == others_of(body.members@.take(i as int), body.absorbent.key@),
        decreases body.members.len() - i,
    {
        let ghost before = r@;
        assert(body.members@.take(i + 1).drop_last() =~= body.members@.take(i as int));
        assert(body.members@.take(i + 1).last() == body.members@[i as int]);
        if !str_eq(body.members[i].key.as_str(), body.absorbent.key.as_str()) {
            let n = body.members[i].named();
            r.push(n);
            assert(crate::absorption_store::named_pairs(r@) =~= crate::absorption_store::named_pairs(before).push(
                (body.members@[i as int].key@, body.members@[i as int].name@),
            ));
        }
        i += 1;
    }
    assert(body.members@.take(i as int) =~= body.members@);
    r
}

/// Why the absorbent or the members cannot be combined, if they cannot.
fn member_refusal_exec(body: &CombineRequest, others: &Vec<Named>) -> (r: Option<String>)
    requires
        crate::absorption_store::named_pairs(others@) == others_of(body.members@, body.absorbent.key@),
    ensures
        match r {
            Some(m) => member_refusal(*body) == Some(m@),
            None => member_refusal(*body) is None,
        },
{
    let ghost o = others_of(body.members@, body.absorbent.key@);
    let empty_ok = str_eq(body.dimension.as_str(), EFFORT);
    if !empty_ok && is_blank(&chars_of(body.absorbent.key.as_str())) {
        return Some("absorbent key is empty".to_owned());
    }
    if others.len() == 0 {
        return Some("an absorption needs at least one other member".to_owned());
    }
    if !empty_ok {
        let mut i: usize = 0;
        while i < others.len()
            invariant
                i <= others@.len(),
                o == crate::absorption_store::named_pairs(others@),
                o == others_of(body.members@, body.absorbent.key@),
                o.len() == others@.len(),
                o.len() > 0,
                !empty_ok,
                empty_ok == (body.dimension@ == EFFORT@),
                !all_space(body.absorbent.key@),
                forall|j: int| 0 <= j < i ==> !all_space(#[trigger] o[j].0),
            decreases others.len() - i,
        {
            assert(o[i as int].0 == others@[i as int].key@);
            if is_blank(&chars_of(others[i].key.as_str())) {
                assert(all_space(o[i as int].0));
                assert(exists|k: int| 0 <= k < o.len() && all_space(#[trigger] o[k].0));
                return Some("member key is empty".to_owned());
            }
            i += 1;
        }
    }
    None
}

/// Why a Combine request is refused, if it is.
pub fn combine_refusal(rows: &Vec<AbsorptionRow>, body: &CombineRequest) -> (r: Option<String>)
    ensures
        match r {
            Some(m) => refusal_of(table(rows@), *body) == Some(m@),
            None => refusal_of(table(rows@), *body) is None,
        },
{
    if !supported_dimension(body.dimension.as_str()) {
        return Some(joined("unsupported absorption dimension: ", body.dimension.as_str()));
    }
    match scope_refusal_exec(rows, body) {
        Some(m) => Some(m),
        None => {
            let others = other_members(body);
            member_refusal_exec(body, &others)
        },
    }
}

// ───────────────────────────── the raw scopes a frozen absorption covers ─────────────────────────────

/// What the event log says of past Runs, as a Combine reads it.
#[derive(Debug)]
pub struct RunHistory {
    /// `(pipeline key, node id)`: the node ran under that raw Pipeline key.
    pub ran: Vec<(String, String)>,
    /// `(pipeline key, payload)`: the `run_started` payload of the most
    /// recent Run of that raw Pipeline key.
    pub latest: Vec<(String, JsonValue)>,
}

/// Node `n` ran under raw Pipeline key `p`.
pub open spec fn ran_under(h: RunHistory, p: Seq<char>, n: Seq<char>) -> bool {
    exists|i: int| 0 <= i < h.ran@.len() && (#[trigger] h.ran@[i]).0@ == p && h.ran@[i].1@ == n
}

/// The latest `run_started` payload of `p` among `latest`: the first entry
/// for it, `Null` when none.
pub open spec fn latest_in(latest: Seq<(String, JsonValue)>, p: Seq<char>) -> JsonValue
    decreases latest.len(),
{
    if latest.len() == 0 {
        JsonValue::Null
    } else if latest[0].0@ == p {
        latest[0].1
    } else {
        latest_in(latest.drop_first(), p)
    }
}

/// « Node (Pipeline) », by the names the most recent Run of `p` froze: the
/// node's defined name, else its id; the Pipeline's name, else its key.
pub open spec fn node_label_spec(p: Seq<char>, n: Seq<char>, payload: JsonValue) -> Seq<char> {
    let pipeline_name = if payload == JsonValue::Null {
        p
    } else {
        pipeline_identity_of(payload).1
    };
    def_name(node_defs_of(payload), n) + " ("@ + pipeline_name + ")"@
}

/// The members the absorbent `a` holds in scope `s` of dimension `d`, in
/// table order.
pub open spec fn absorbed_members(t: Seq<RowView>, d: Seq<char>, s: Seq<char>, a: Seq<char>) -> Seq<Seq<char>>
    decreases t.len(),
{
    if t.len() == 0 {
        Seq::empty()
    } else {
        let rest = absorbed_members(t.drop_last(), d, s, a);
        if in_dim_scope(t.last(), d, s) && t.last().absorbent == a {
            rest.push(t.last().member)
        } else {
            rest
        }
    }
}

/// Those members, ascending.
pub open spec fn members_sorted(t: Seq<RowView>, d: Seq<char>, s: Seq<char>, a: Seq<char>) -> Seq<Seq<char>> {
    keys_of(tally(absorbed_members(t, d, s, a)))
}

/// The raw couple scope of raw Pipeline `rp` and raw Node `rn`, when the
/// Node is the row's own or ran under that Pipeline; named by the request
/// for the row's own pair, else by the label the history gives.
pub open spec fn couple_row(
    rp: Seq<char>,
    rn: Seq<char>,
    p: Seq<char>,
    n: Seq<char>,
    scope_name: Seq<char>,
    h: RunHistory,
) -> Seq<(Seq<char>, Seq<char>)> {
    let own = rp == p && rn == n;
    if own || ran_under(h, rp, rn) {
        seq![
            (
                json_pair_text(rp, rn),
                if own && scope_name.len() > 0 {
                    scope_name
                } else {
                    node_label_spec(rp, rn, latest_in(h.latest@, rp))
                },
            ),
        ]
    } else {
        Seq::empty()
    }
}

/// The couple scopes of raw Pipeline `rp` crossed with the raw Nodes `ns`.
pub open spec fn couple_rows_for(
    rp: Seq<char>,
    ns: Seq<Seq<char>>,
    p: Seq<char>,
    n: Seq<char>,
    scope_name: Seq<char>,
    h: RunHistory,
) -> Seq<(Seq<char>, Seq<char>)>
    decreases ns.len(),
{
    if ns.len() == 0 {
        Seq::empty()
    } else {
        couple_rows_for(rp, ns.drop_last(), p, n, scope_name, h) + couple_row(rp, ns.last(), p, n, scope_name, h)
    }
}

/// The couple scopes of the raw Pipelines `ps` crossed with the raw Nodes
/// `ns`, Pipeline by Pipeline.
pub open spec fn couple_rows(
    ps: Seq<Seq<char>>,
    ns: Seq<Seq<char>>,
    p: Seq<char>,
    n: Seq<char>,
    scope_name: Seq<char>,
    h: RunHistory,
) -> Seq<(Seq<char>, Seq<char>)>
    decreases ps.len(),
{
    if ps.len() == 0 {
        Seq::empty()
    } else {
        couple_rows(ps.drop_last(), ns, p, n, scope_name, h) + couple_rows_for(ps.last(), ns, p, n, scope_name, h)
    }
}

/// The raw scopes, `(key, name)`, that an effort or couple absorption posed
/// on `scope` covers now. An effort row covers its model and the models
/// that model absorbs; a couple row covers every raw `(Pipeline, Node)`
/// pair counted there: its Pipeline and the Pipelines it absorbs, crossed
/// with its Node and the Nodes it absorbs, kept where the Node really ran.
pub open spec fn covered_of(t: Seq<RowView>, d: Seq<char>, scope: Seq<char>, scope_name: Seq<char>, h: RunHistory) -> Seq<
    (Seq<char>, Seq<char>),
> {
    if d == EFFORT@ {
        seq![(scope, scope)] + members_sorted(t, MODEL@, Seq::empty(), scope).map_values(
            |m: Seq<char>| (m, m),
        )
    } else {
        match couple_scope_pair(scope) {
            None => Seq::empty(),
            Some((p, n)) => couple_rows(
                seq![p] + members_sorted(t, PIPELINE@, Seq::empty(), p),
                seq![n] + members_sorted(t, NODE@, p, n),
                p,
                n,
                scope_name,
                h,
            ),
        }
    }
}

/// « Node (Pipeline) », by the names a Run's start payload froze (`Null`
/// when the Pipeline never ran).
pub fn node_label(pipeline: &str, node: &str, payload: &JsonValue) -> (r: String)
    ensures
        r@ == node_label_spec(pipeline@, node@, *payload),
{
    let pipeline_name: String = match payload {
        JsonValue::Null => pipeline.to_owned(),
        _ => pipeline_identity(payload).1,
    };
    let defs = node_defs(payload);
    let node_name = def_name_exec(&defs, node);
    let mut v = chars_of(node_name.as_str());
    push_str(&mut v, " (");
    push_str(&mut v, pipeline_name.as_str());
    push_str(&mut v, ")");
    string_of(&v)
}

/// Whether node `n` ran under raw Pipeline key `p`.
fn ran_under_exec(h: &RunHistory, p: &str, n: &str) -> (r: bool)
    ensures
        r == ran_under(*h, p@, n@),
{
    let mut i: usize = 0;
    while i < h.ran.len()
        invariant
            i <= h.ran@.len(),
            forall|j: int| 0 <= j < i ==> !((#[trigger] h.ran@[j]).0@ == p@ && h.ran@[j].1@ == n@),
        decreases h.ran.len() - i,
    {
        if str_eq(h.ran[i].0.as_str(), p) && str_eq(h.ran[i].1.as_str(), n) {
            return true;
        }
        i += 1;
    }
    false
}

/// The label of node `n` under raw Pipeline `p`, by the latest Run of `p`.
fn label_in(h: &RunHistory, p: &str, n: &str) -> (r: String)
    ensures
        r@ == node_label_spec(p@, n@, latest_in(h.latest@, p@)),
{
    let mut i: usize = 0;
    assert(h.latest@.skip(0) =~= h.latest@);
    while i < h.latest.len()
        invariant
            i <= h.latest@.len(),
            latest_in(h.latest@, p@) == latest_in(h.latest@.skip(i as int), p@),
        decreases h.latest.len() - i,
    {
        let ghost rest = h.latest@.skip(i as int);
        assert(rest[0] == h.latest@[i as int]);
        assert(rest.drop_first() =~= h.latest@.skip(i + 1));
        if str_eq(h.latest[i].0.as_str(), p) {
            return node_label(p, n, &h.latest[i].1);
        }
        i += 1;
    }
    assert(h.latest@.skip(i as int) =~= Seq::<(String, JsonValue)>::empty());
    let null = JsonValue::Null;
    node_label(p, n, &null)
}

/// The members absorbent `a` holds in scope `s` of dimension `d`,
/// ascending.
fn members_sorted_exec(rows: &Vec<AbsorptionRow>, d: &str, s: &str, a: &str) -> (r: Vec<String>)
    ensures
        texts(r@) == members_sorted(table(rows@), d@, s@, a@),
{
    let ghost t = table(rows@);
    let mut found: Vec<String> = Vec::new();
    let mut i: usize = 0;
    while i < rows.len()
        invariant
            i <= rows@.len(),
            t == table(rows@),
            texts(found@) == absorbed_members(t.take(i as int), d@, s@, a@),
            found@.len() <= i,
        decreases rows.len() - i,
    {
        let ghost before = found@;
        assert(t.take(i + 1).drop_last() =~= t.take(i as int));
        assert(t.take(i + 1).last() == crate::absorption_store::rv(rows@[i as int]));
        let r = &rows[i];
        if str_eq(r.dimension.as_str(), d) && str_eq(r.scope.as_str(), s) && str_eq(r.absorbent.as_str(), a) {
            found.push(r.member.clone());
            assert(texts(found@) =~= texts(before).push(r.member@));
        }
        i += 1;
    }
    assert(t.take(i as int) =~= t);
    distinct_sorted(&found)
}

/// The couple scopes of raw Pipeline `rp` crossed with the raw Nodes.
fn push_couple_rows(
    out: &mut Vec<Named>,
    rp: &String,
    nodes: &Vec<String>,
    p: &String,
    n: &String,
    scope_name: &str,
    h: &RunHistory,
)
    ensures
        named_pairs(final(out)@) == named_pairs(old(out)@) + couple_rows_for(rp@, texts(nodes@), p@, n@, scope_name@, *h),
{
    let ghost start = named_pairs(out@);
    let mut j: usize = 0;
    while j < nodes.len()
        invariant
            j <= nodes@.len(),
            named_pairs(out@) == start + couple_rows_for(rp@, texts(nodes@.take(j as int)), p@, n@, scope_name@, *h),
        decreases nodes.len() - j,
    {
        let rn = &nodes[j];
        let ghost before = named_pairs(out@);
        assert(texts(nodes@.take(j + 1)).drop_last() =~= texts(nodes@.take(j as int)));
        assert(texts(nodes@.take(j + 1)).last() == rn@);
        let own = str_eq(rp.as_str(), p.as_str()) && str_eq(rn.as_str(), n.as_str());
        if own || ran_under_exec(h, rp.as_str(), rn.as_str()) {
            let name = if own && chars_of(scope_name).len() > 0 {
                scope_name.to_owned()
            } else {
                label_in(h, rp.as_str(), rn.as_str())
            };
            out.push(Named { key: couple_scope(rp.as_str(), rn.as_str()), name });
            assert(named_pairs(out@) =~= before + couple_row(rp@, rn@, p@, n@, scope_name@, *h));
        } else {
            assert(couple_row(rp@, rn@, p@, n@, scope_name@, *h) =~= Seq::<(Seq<char>, Seq<char>)>::empty());
            assert(before + couple_row(rp@, rn@, p@, n@, scope_name@, *h) =~= before);
        }
        j += 1;
    }
    assert(nodes@.take(j as int) =~= nodes@);
}

/// A key and name list from its first key, then more keys.
fn with_first(first: &String, rest: &Vec<String>) -> (r: Vec<String>)
    ensures
        texts(r@) == seq![first@] + texts(rest@),
{
    let mut r: Vec<String> = Vec::new();
    r.push(first.clone());
    let mut i: usize = 0;
    while i < rest.len()
        invariant
            i <= rest@.len(),
            texts(r@) == seq![first@] + texts(rest@.take(i as int)),
        decreases rest.len() - i,
    {
        let ghost before = r@;
        r.push(rest[i].clone());
        assert(texts(r@) =~= texts(before).push(rest@[i as int]@));
        assert(texts(rest@.take(i + 1)) =~= texts(rest@.take(i as int)).push(rest@[i as int]@));
        i += 1;
    }
    assert(rest@.take(i as int) =~= rest@);
    r
}

/// The raw scopes an effort or couple absorption posed on `scope` covers
/// now.
pub fn covered_scopes(
    rows: &Vec<AbsorptionRow>,
    dimension: &str,
    scope: &str,
    scope_name: &str,
    history: &RunHistory,
) -> (r: Vec<Named>)
    ensures
        named_pairs(r@) == covered_of(table(rows@), dimension@, scope@, scope_name@, *history),
{
    proof {
        reveal_strlit("");
        assert(""@ =~= Seq::<char>::empty());
    }
    let mut out: Vec<Named> = Vec::new();
    if str_eq(dimension, EFFORT) {
        let models = members_sorted_exec(rows, MODEL, "", scope);
        let ghost ms = texts(models@);
        out.push(Named { key: scope.to_owned(), name: scope.to_owned() });
        let mut i: usize = 0;
        while i < models.len()
            invariant
                i <= models@.len(),
                ms == texts(models@),
                named_pairs(out@) == seq![(scope@, scope@)] + ms.take(i as int).map_values(|m: Seq<char>| (m, m)),
            decreases models.len() - i,
        {
            let ghost before = named_pairs(out@);
            out.push(Named { key: models[i].clone(), name: models[i].clone() });
            assert(named_pairs(out@) =~= before.push((ms[i as int], ms[i as int])));
            assert(ms.take(i + 1).map_values(|m: Seq<char>| (m, m)) =~= ms.take(i as int).map_values(
                |m: Seq<char>| (m, m),
            ).push((ms[i as int], ms[i as int])));
            i += 1;
        }
        assert(ms.take(i as int) =~= ms);
        return out;
    }
    match parse_couple_scope(scope) {
        None => {
            assert(named_pairs(out@) =~= Seq::<(Seq<char>, Seq<char>)>::empty());
            out
        },
        Some((p, n)) => {
            let pipelines = with_first(&p, &members_sorted_exec(rows, PIPELINE, "", p.as_str()));
            let nodes = with_first(&n, &members_sorted_exec(rows, NODE, p.as_str(), n.as_str()));
            let ghost ps = texts(pipelines@);
            let ghost ns = texts(nodes@);
            let mut i: usize = 0;
            assert(named_pairs(out@) =~= Seq::<(Seq<char>, Seq<char>)>::empty());
            while i < pipelines.len()
                invariant
                    i <= pipelines@.len(),
                    ps == texts(pipelines@),
                    ns == texts(nodes@),
                    named_pairs(out@) == couple_rows(ps.take(i as int), ns, p@, n@, scope_name@, *history),
                decreases pipelines.len() - i,
            {
                assert(ps.take(i + 1).drop_last() =~= ps.take(i as int));
                assert(ps.take(i + 1).last() == pipelines@[i as int]@);
                push_couple_rows(&mut out, &pipelines[i], &nodes, &p, &n, scope_name, history);
                i += 1;
            }
            assert(ps.take(i as int) =~= ps);
            out
        },
    }
}

// ───────────────────────────── the write ─────────────────────────────

/// The table after the same Combine in each of the raw scopes, in order.
pub open spec fn combined_over(
    t: Seq<RowView>,
    d: Seq<char>,
    covered: Seq<(Seq<char>, Seq<char>)>,
    a: Seq<char>,
    a_name: Seq<char>,
    origin: Seq<char>,
    now: Seq<char>,
    ms: Seq<(Seq<char>, Seq<char>)>,
) -> Seq<RowView>
    decreases covered.len(),
{
    if covered.len() == 0 {
        t
    } else {
        combined(
            combined_over(t, d, covered.drop_last(), a, a_name, origin, now, ms),
            CombineSpec {
                d,
                s: covered.last().0,
                scope_name: covered.last().1,
                a,
                a_name,
                origin,
                now,
            },
            ms,
        )
    }
}

/// Pose an effort or couple absorption with its frozen scope: one Combine
/// per raw scope the row covers now. Nothing is carried later.
pub fn combine_frozen_rows(
    rows: &mut Vec<AbsorptionRow>,
    dimension: &str,
    scope: &str,
    scope_name: &str,
    absorbent: &Named,
    members: &[Named],
    origin: &str,
    now: &str,
    history: &RunHistory,
)
    ensures
        table(final(rows)@) == combined_over(
            table(old(rows)@),
            dimension@,
            covered_of(table(old(rows)@), dimension@, scope@, scope_name@, *history),
            absorbent.key@,
            absorbent.name@,
            origin@,
            now@,
            named_pairs(members@),
        ),
{
    let ghost t0 = table(rows@);
    let covered = covered_scopes(rows, dimension, scope, scope_name, history);
    let ghost cv = named_pairs(covered@);
    let mut i: usize = 0;
    assert(cv.take(0) =~= Seq::<(Seq<char>, Seq<char>)>::empty());
    while i < covered.len()
        invariant
            i <= covered@.len(),
            cv == named_pairs(covered@),
            table(rows@) == combined_over(
                t0,
                dimension@,
                cv.take(i as int),
                absorbent.key@,
                absorbent.name@,
                origin@,
                now@,
                named_pairs(members@),
            ),
        decreases covered.len() - i,
    {
        assert(cv.take(i + 1).drop_last() =~= cv.take(i as int));
        assert(cv.take(i + 1).last() == (covered@[i as int].key@, covered@[i as int].name@));
        combine_rows(
            rows,
            dimension,
            covered[i].key.as_str(),
            covered[i].name.as_str(),
            absorbent,
            members,
            origin,
            now,
        );
        i += 1;
    }
    assert(cv.take(i as int) =~= cv);
}

/// What an accepted Combine request writes: an effort or couple absorption
/// in each raw scope it covers now; any other, one Combine in its scope
/// (carrying a Pipeline's Node absorptions over).
pub open spec fn created(before: Seq<RowView>, after: Seq<RowView>, body: CombineRequest, now: Seq<char>, h: RunHistory) -> bool {
    let d = body.dimension@;
    let ms = others_of(body.members@, body.absorbent.key@);
    if d == EFFORT@ || d == COUPLE@ {
        after == combined_over(
            before,
            d,
            covered_of(before, d, body.scope@, body.scope_name@, h),
            body.absorbent.key@,
            body.absorbent.name@,
            ORIGIN_MANUAL@,
            now,
            ms,
        )
    } else {
        combine_outcome(
            before,
            after,
            CombineSpec {
                d,
                s: body.scope@,
                scope_name: body.scope_name@,
                a: body.absorbent.key@,
                a_name: body.absorbent.name@,
                origin: ORIGIN_MANUAL@,
                now,
            },
            ms,
        )
    }
}

/// Create or extend an absorption from a Combine request: refused with its
/// reason, leaving the rows as they were, or written.
pub fn create_absorption_rows(rows: &mut Vec<AbsorptionRow>, body: &CombineRequest, now: &str, history: &RunHistory) -> (r:
    Result<(), String>)
    ensures
        match r {
            Err(m) => refusal_of(table(old(rows)@), *body) == Some(m@) && final(rows)@ == old(rows)@,
            Ok(()) => refusal_of(table(old(rows)@), *body) is None && created(
                table(old(rows)@),
                table(final(rows)@),
                *body,
                now@,
                *history,
            ),
        },
{
    if let Some(m) = combine_refusal(rows, body) {
        return Err(m);
    }
    let absorbent = body.absorbent.named();
    let members = other_members(body);
    let d = body.dimension.as_str();
    if str_eq(d, EFFORT) || str_eq(d, COUPLE) {
        combine_frozen_rows(
            rows,
            d,
            body.scope.as_str(),
            body.scope_name.as_str(),
            &absorbent,
            members.as_slice(),
            ORIGIN_MANUAL,
            now,
            history,
        );
    } else {
        combine_scoped(
            rows,
            d,
            body.scope.as_str(),
            body.scope_name.as_str(),
            &absorbent,
            members.as_slice(),
            ORIGIN_MANUAL,
            now,
        );
    }
    Ok(())
}

// ───────────────────────────── laws ─────────────────────────────

/// The row `key_index` finds is in the scope.
proof fn lemma_key_index_in_scope(t: Seq<RowView>, d: Seq<char>, s: Seq<char>, m: Seq<char>)
    ensures
        match key_index(t, d, s, m) {
            Some(i) => 0 <= i < t.len() && in_dim_scope(t[i], d, s),
            None => true,
        },
    decreases t.len(),
{
    if t.len() > 0 {
        lemma_key_index_in_scope(t.drop_last(), d, s, m);
    }
}

/// Taking a member out of one scope keeps every row of another scope.
proof fn lemma_without_member_keeps(t: Seq<RowView>, d: Seq<char>, s: Seq<char>, m: Seq<char>, x: RowView)
    requires
        row_of(t, x),
        !in_dim_scope(x, d, s),
    ensures
        row_of(without_member(t, d, s, m), x),
    decreases t.len(),
{
    let p = t.drop_last();
    let r = without_member(t, d, s, m);
    let j = choose|j: int| 0 <= j < t.len() && #[trigger] t[j] == x;
    if j < t.len() - 1 {
        assert(p[j] == x);
        lemma_without_member_keeps(p, d, s, m, x);
        let rest = without_member(p, d, s, m);
        let q = choose|q: int| 0 <= q < rest.len() && #[trigger] rest[q] == x;
        assert(r[q] == rest[q]);
    } else {
        assert(r[r.len() - 1] == x);
    }
}

/// The member steps of one scope keep every row of another scope.
proof fn lemma_members_step_keeps(t: Seq<RowView>, c: CombineSpec, ms: Seq<(Seq<char>, Seq<char>)>, n: int, x: RowView)
    requires
        row_of(t, x),
        !in_dim_scope(x, c.d, c.s),
        n <= ms.len(),
    ensures
        row_of(members_step(t, c, ms, n), x),
    decreases n,
{
    if n > 0 {
        lemma_members_step_keeps(t, c, ms, n - 1, x);
        let t1 = members_step(t, c, ms, n - 1);
        let m = ms[n - 1];
        if m.0 != c.a {
            let t2 = repointed(t1, c.d, c.s, m.0, c.a, c.a_name);
            let j = choose|j: int| 0 <= j < t1.len() && #[trigger] t1[j] == x;
            assert(t2[j] == x);
            let row = RowView {
                dimension: c.d,
                scope: c.s,
                scope_name: c.scope_name,
                member: m.0,
                member_name: m.1,
                absorbent: c.a,
                absorbent_name: c.a_name,
                origin: c.origin,
                created_at: c.now,
            };
            lemma_key_index_in_scope(t2, c.d, c.s, m.0);
            let t3 = upserted(t2, row);
            match key_index(t2, c.d, c.s, m.0) {
                Some(i) => {
                    assert(i != j);
                    assert(t3[j] == x);
                },
                None => {
                    assert(t3[j] == x);
                },
            }
        }
    }
}

/// A Combine in one scope keeps every row of another scope.
proof fn lemma_combined_keeps(t: Seq<RowView>, c: CombineSpec, ms: Seq<(Seq<char>, Seq<char>)>, x: RowView)
    requires
        row_of(t, x),
        !in_dim_scope(x, c.d, c.s),
    ensures
        row_of(combined(t, c, ms), x),
{
    let t0 = without_member(t, c.d, c.s, c.a);
    lemma_without_member_keeps(t, c.d, c.s, c.a, x);
    let t1 = members_step(t0, c, ms, ms.len() as int);
    lemma_members_step_keeps(t0, c, ms, ms.len() as int, x);
    let t2 = renamed(t1, c.d, c.s, c.a, c.a_name);
    let j = choose|j: int| 0 <= j < t1.len() && #[trigger] t1[j] == x;
    assert(t2[j] == x);
    let t3 = scope_named(t2, c.d, c.s, c.scope_name);
    assert(t3[j] == x);
}

/// A frozen absorption holds in every raw scope it was posed on: after the
/// Combine in each covered scope, in each of them, every member other than
/// the absorbent is absorbed by the absorbent, and each member still has
/// exactly one absorbent.
pub proof fn law_a_frozen_absorption_holds_in_every_covered_scope(
    t: Seq<RowView>,
    d: Seq<char>,
    covered: Seq<(Seq<char>, Seq<char>)>,
    a: Seq<char>,
    a_name: Seq<char>,
    origin: Seq<char>,
    now: Seq<char>,
    ms: Seq<(Seq<char>, Seq<char>)>,
)
    requires
        keys_unique(t),
    ensures
        keys_unique(combined_over(t, d, covered, a, a_name, origin, now, ms)),
        forall|k: int, j: int|
            0 <= k < covered.len() && 0 <= j < ms.len() && ms[j].0 != a ==> absorbed_by(
                combined_over(t, d, covered, a, a_name, origin, now, ms),
                d,
                (#[trigger] covered[k]).0,
                (#[trigger] ms[j]).0,
                a,
            ),
    decreases covered.len(),
{
    if covered.len() > 0 {
        let prev_cov = covered.drop_last();
        let prev = combined_over(t, d, prev_cov, a, a_name, origin, now, ms);
        law_a_frozen_absorption_holds_in_every_covered_scope(t, d, prev_cov, a, a_name, origin, now, ms);
        let c = CombineSpec { d, s: covered.last().0, scope_name: covered.last().1, a, a_name, origin, now };
        let next = combined(prev, c, ms);
        law_combine_points_every_member_at_the_absorbent(prev, c, ms);
        assert forall|k: int, j: int|
            0 <= k < covered.len() && 0 <= j < ms.len() && ms[j].0 != a implies absorbed_by(
                next,
                d,
                (#[trigger] covered[k]).0,
                (#[trigger] ms[j]).0,
                a,
            ) by {
            if covered[k].0 == c.s {
                assert(absorbed_by(next, c.d, c.s, ms[j].0, c.a));
            } else {
                assert(prev_cov[k] == covered[k]);
                assert(absorbed_by(prev, d, prev_cov[k].0, ms[j].0, a));
                let i = choose|i: int|
                    0 <= i < prev.len() && in_dim_scope(prev[i], d, covered[k].0) && #[trigger] prev[i].member == ms[j].0
                        && prev[i].absorbent == a;
                let x = prev[i];
                lemma_combined_keeps(prev, c, ms, x);
                let q = choose|q: int| 0 <= q < next.len() && #[trigger] next[q] == x;
                assert(next[q].member == ms[j].0);
            }
        }
    }
}

} // verus!
