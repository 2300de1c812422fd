//! Absorption in Stats: one row, the absorbent, counts the data of other rows
//! of the same level, its absorbed members ("Combine" in the UI).
//!
//! The store keeps one row per member, flat: a member has exactly one
//! absorbent, and the read never resolves anything transitively. The
//! resolver, built from the stored rows once per Stats read, substitutes an
//! absorbed key with its absorbent's wherever a fold reads a Run's identity.
//!
//! Dimensions: Pipelines; Nodes, scoped to the key of the Pipeline row they
//! show under; models, by verbatim id; efforts of one raw model; and model ×
//! effort couples of one raw `(Pipeline, Node)` pair. A couple of a Node
//! resolves in this order: the effort (on the raw model), the model, then the
//! couple (on the raw Node).
use vstd::prelude::*;
use crate::json::{get_str, get_string, json_get, JsonValue};
use crate::text::{
    chars_of, lemma_text_lt_asymmetric, lemma_text_lt_total, lemma_text_lt_transitive, push_str, str_before,
    str_eq, string_of, string_of_range, text_lt,
};

verus! {

broadcast use vstd::string::group_string_axioms;

/// The dimensions an absorption can have.
pub const PIPELINE: &'static str = "pipeline";
pub const NODE: &'static str = "node";
pub const MODEL: &'static str = "model";
pub const EFFORT: &'static str = "effort";
pub const COUPLE: &'static str = "couple";

/// Where an absorption came from: the operator's Combine, or a Pipeline
/// rename that changed its id.
pub const ORIGIN_MANUAL: &'static str = "manual";
pub const ORIGIN_RENAME: &'static str = "rename";

/// The Pipeline key of a Run whose start names neither an id nor a name.
pub const UNKNOWN_PIPELINE: &'static str = "(unknown)";

// ───────────────────────────── keys and names ─────────────────────────────

/// The view of an optional string slice.
pub open spec fn opt_str(s: Option<&str>) -> Option<Seq<char>> {
    match s {
        Some(v) => Some(v@),
        None => None,
    }
}

/// The view of an optional string.
pub open spec fn opt_string(s: Option<String>) -> Option<Seq<char>> {
    match s {
        Some(v) => Some(v@),
        None => None,
    }
}

/// The key of an effort: the effort itself, empty for « not set ».
pub open spec fn effort_key_of(effort: Option<Seq<char>>) -> Seq<char> {
    match effort {
        Some(e) => e,
        None => Seq::empty(),
    }
}

/// The effort of a key: none for the empty key.
pub open spec fn effort_of(key: Seq<char>) -> Option<Seq<char>> {
    if key.len() == 0 {
        None
    } else {
        Some(key)
    }
}

/// The key of a model × effort couple: `model|effort` (`model|` for « not
/// set »). A model id never carries a `|`.
pub open spec fn couple_key_of(model: Seq<char>, effort: Option<Seq<char>>) -> Seq<char> {
    model + seq!['|'] + effort_key_of(effort)
}

/// The last `|` of a text, if any.
pub open spec fn last_bar(s: Seq<char>) -> Option<int>
    decreases s.len(),
{
    if s.len() == 0 {
        None
    } else if s.last() == '|' {
        Some(s.len() - 1)
    } else {
        last_bar(s.drop_last())
    }
}

/// `model|effort` → `(model, effort)`, split at the last `|`; none on a key
/// with no `|` or with an empty model.
pub open spec fn split_couple(key: Seq<char>) -> Option<(Seq<char>, Option<Seq<char>>)> {
    match last_bar(key) {
        Some(i) => if i > 0 {
            Some((key.subrange(0, i), effort_of(key.subrange(i + 1, key.len() as int))))
        } else {
            None
        },
        None => None,
    }
}

/// The key of an effort.
pub fn effort_key(effort: Option<&str>) -> (r: String)
    ensures
        r@ == effort_key_of(opt_str(effort)),
{
    match effort {
        Some(e) => e.to_owned(),
        None => String::new(),
    }
}

/// The effort a key stands for.
pub fn effort_of_key(key: &str) -> (r: Option<String>)
    ensures
        opt_string(r) == effort_of(key@),
{
    if chars_of(key).len() == 0 {
        None
    } else {
        Some(key.to_owned())
    }
}

/// The name of an effort as its row shows it: `not set` when unset.
pub fn effort_name(effort: Option<&str>) -> (r: String)
    ensures
        r@ == (match effort {
            Some(e) => e@,
            None => "not set"@,
        }),
{
    match effort {
        Some(e) => e.to_owned(),
        None => "not set".to_owned(),
    }
}

/// The key of a couple.
pub fn couple_key(model: &str, effort: Option<&str>) -> (r: String)
    ensures
        r@ == couple_key_of(model@, opt_str(effort)),
{
    let mut out = chars_of(model);
    out.push('|');
    if let Some(e) = effort {
        push_str(&mut out, e);
    }
    assert(out@ =~= couple_key_of(model@, opt_str(effort)));
    string_of(&out)
}

/// The index of the last `|`.
fn find_last_bar(s: &[char]) -> (r: Option<usize>)
    ensures
        match r {
            Some(i) => last_bar(s@) == Some(i as int) && i < s@.len(),
            None => last_bar(s@) is None,
        },
{
    let mut n: usize = s.len();
    assert(s@.subrange(0, s@.len() as int) =~= s@);
    while n > 0
        invariant
            n <= s@.len(),
            last_bar(s@) == last_bar(s@.subrange(0, n as int)),
        decreases n,
    {
        let ghost t = s@.subrange(0, n as int);
        if s[n - 1] == '|' {
            assert(t.last() == '|');
            return Some(n - 1);
        }
        assert(t.drop_last() =~= s@.subrange(0, n - 1));
        n -= 1;
    }
    None
}

/// `model|effort` → `(model, effort)`.
pub fn split_couple_key(key: &str) -> (r: Option<(String, Option<String>)>)
    ensures
        match r {
            Some((m, e)) => split_couple(key@) == Some((m@, opt_string(e))),
            None => split_couple(key@) is None,
        },
{
    let cs = chars_of(key);
    match find_last_bar(&cs) {
        Some(i) => {
            if i == 0 {
                return None;
            }
            let n = cs.len();
            assert(i < n);
            let model = string_of_range(&cs, 0, i);
            let effort = string_of_range(&cs, i + 1, n);
            Some((model, effort_of_key(effort.as_str())))
        },
        None => None,
    }
}

/// The name of a couple as its row shows it: `model · effort`.
pub fn couple_name(model: &str, effort: Option<&str>) -> (r: String)
    ensures
        r@ == model@ + " \u{b7} "@ + (match effort {
            Some(e) => e@,
            None => "not set"@,
        }),
{
    let mut out = chars_of(model);
    push_str(&mut out, " \u{b7} ");
    let name = effort_name(effort);
    push_str(&mut out, name.as_str());
    string_of(&out)
}

/// The JSON text of the array of two strings `[a, b]`, as `serde_json`
/// renders it.
pub uninterp spec fn json_pair_text(a: Seq<char>, b: Seq<char>) -> Seq<char>;

/// The two strings of a JSON text that is an array of exactly two strings;
/// none for any other text.
pub uninterp spec fn json_pair_parse(text: Seq<char>) -> Option<(Seq<char>, Seq<char>)>;

/// `serde_json::Value::from(vec![a, b]).to_string()`: the rendering is a
/// function of the two strings, and reading it back as a pair of strings
/// gives the two strings again.
#[verifier::external_body]
fn render_json_pair(a: &str, b: &str) -> (r: String)
    ensures
        r@ == json_pair_text(a@, b@),
        json_pair_parse(r@) == Some((a@, b@)),
{
    serde_json::Value::from(vec![a, b]).to_string()
}

/// `serde_json::from_str::<(String, String)>`: the two strings of a JSON
/// array of two strings, a function of the text.
#[verifier::external_body]
fn read_json_pair(text: &str) -> (r: Option<(String, String)>)
    ensures
        match r {
            Some((a, b)) => json_pair_parse(text@) == Some((a@, b@)),
            None => json_pair_parse(text@) is None,
        },
{
    serde_json::from_str::<(String, String)>(text).ok()
}

/// The scope of a couple absorption: one `(Pipeline, Node)` pair, as a JSON
/// array, unambiguous whatever the two keys hold.
pub fn couple_scope(pipeline: &str, node: &str) -> (r: String)
    ensures
        r@ == json_pair_text(pipeline@, node@),
        json_pair_parse(r@) == Some((pipeline@, node@)),
{
    render_json_pair(pipeline, node)
}

/// The `(Pipeline, Node)` pair of a couple scope read back: none unless the
/// text is such a pair of two non-empty keys.
pub open spec fn couple_scope_pair(scope: Seq<char>) -> Option<(Seq<char>, Seq<char>)> {
    match json_pair_parse(scope) {
        Some((p, n)) => if p.len() > 0 && n.len() > 0 {
            Some((p, n))
        } else {
            None
        },
        None => None,
    }
}

/// Read a couple scope back into its pair.
pub fn parse_couple_scope(scope: &str) -> (r: Option<(String, String)>)
    ensures
        match r {
            Some((p, n)) => couple_scope_pair(scope@) == Some((p@, n@)),
            None => couple_scope_pair(scope@) is None,
        },
{
    match read_json_pair(scope) {
        Some((p, n)) => if chars_of(p.as_str()).len() > 0 && chars_of(n.as_str()).len() > 0 {
            Some((p, n))
        } else {
            None
        },
        None => None,
    }
}

/// Splitting the key of a couple gives the couple back, whatever the model
/// holds: the split is at the last `|`, and an effort carries none.
pub proof fn law_split_undoes_couple_key(model: Seq<char>, effort: Option<Seq<char>>)
    requires
        model.len() > 0,
        effort matches Some(e) ==> e.len() > 0 && !e.contains('|'),
    ensures
        split_couple(couple_key_of(model, effort)) == Some((model, effort)),
{
    let k = couple_key_of(model, effort);
    let e = effort_key_of(effort);
    let n = model.len() as int;
    assert(k.subrange(0, n + 1) =~= model + seq!['|']);
    assert(k[n] == '|');
    assert forall|m: int| n < m < k.len() implies k[m] != '|' by {
        assert(k[m] == e[m - n - 1]);
        if k[m] == '|' {
            assert(e.contains('|'));
        }
    }
    assert forall|j: int| 0 <= j <= e.len() implies last_bar(#[trigger] k.subrange(0, n + 1 + j)) == Some(n) by {
        lemma_last_bar_after(k, n, j);
    }
    assert(k.subrange(0, n + 1 + e.len()) =~= k);
    assert(k.subrange(0, n) =~= model);
    assert(k.subrange(n + 1, k.len() as int) =~= e);
}

/// The last `|` stays at `n` while no `|` follows it.
proof fn lemma_last_bar_after(k: Seq<char>, n: int, j: int)
    requires
        0 <= n < k.len(),
        k[n] == '|',
        0 <= j,
        n + 1 + j <= k.len(),
        forall|m: int| n < m < k.len() ==> k[m] != '|',
    ensures
        last_bar(k.subrange(0, n + 1 + j)) == Some(n),
    decreases j,
{
    if j == 0 {
        assert(k.subrange(0, n + 1).last() == '|');
    } else {
        lemma_last_bar_after(k, n, j - 1);
        assert(k.subrange(0, n + 1 + j).drop_last() =~= k.subrange(0, n + j));
    }
}


// ───────────────────────────── the stored rows ─────────────────────────────

/// One stored member row.
#[derive(Debug, PartialEq, Eq)]
pub struct AbsorptionRow {
    pub dimension: String,
    pub scope: String,
    pub scope_name: String,
    pub member: String,
    pub member_name: String,
    pub absorbent: String,
    pub absorbent_name: String,
    pub origin: String,
    pub created_at: String,
}

/// A key and the name to show for it. The UI only ever shows the name.
#[derive(Debug, PartialEq, Eq)]
pub struct Named {
    pub key: String,
    pub name: String,
}

/// `a` comes strictly before `b` by `(dimension, scope, member)`.
pub open spec fn row_before(a: AbsorptionRow, b: AbsorptionRow) -> bool {
    text_lt(a.dimension@, b.dimension@) || (a.dimension@ == b.dimension@ && (text_lt(a.scope@, b.scope@) || (
    a.scope@ == b.scope@ && text_lt(a.member@, b.member@))))
}

/// Rows in `(dimension, scope, member)` order.
pub open spec fn rows_in_order(s: Seq<AbsorptionRow>) -> bool {
    forall|i: int, j: int| 0 <= i < j < s.len() ==> !row_before(s[j], s[i])
}

/// A field-by-field copy of a row.
pub fn copy_row(r: &AbsorptionRow) -> (c: AbsorptionRow)
    ensures
        c == *r,
{
    AbsorptionRow {
        dimension: r.dimension.clone(),
        scope: r.scope.clone(),
        scope_name: r.scope_name.clone(),
        member: r.member.clone(),
        member_name: r.member_name.clone(),
        absorbent: r.absorbent.clone(),
        absorbent_name: r.absorbent_name.clone(),
        origin: r.origin.clone(),
        created_at: r.created_at.clone(),
    }
}

/// Whether `a` comes strictly before `b`.
fn row_before_exec(a: &AbsorptionRow, b: &AbsorptionRow) -> (r: bool)
    ensures
        r == row_before(*a, *b),
{
    if str_before(a.dimension.as_str(), b.dimension.as_str()) {
        return true;
    }
    if !str_eq(a.dimension.as_str(), b.dimension.as_str()) {
        return false;
    }
    if str_before(a.scope.as_str(), b.scope.as_str()) {
        return true;
    }
    str_eq(a.scope.as_str(), b.scope.as_str()) && str_before(a.member.as_str(), b.member.as_str())
}

/// Of two rows, one does not come before the other.
proof fn lemma_row_order_total(a: AbsorptionRow, b: AbsorptionRow)
    ensures
        !row_before(a, b) || !row_before(b, a),
        !row_before(a, b) ==> (!row_before(b, a) ==> a.dimension@ == b.dimension@ && a.scope@ == b.scope@ && a.member@
            == b.member@),
{
    lemma_text_lt_asymmetric(a.dimension@, b.dimension@);
    lemma_text_lt_asymmetric(a.scope@, b.scope@);
    lemma_text_lt_asymmetric(a.member@, b.member@);
    lemma_text_lt_total(a.dimension@, b.dimension@);
    lemma_text_lt_total(a.scope@, b.scope@);
    lemma_text_lt_total(a.member@, b.member@);
}

/// Not coming after is transitive.
proof fn lemma_row_order_transitive(a: AbsorptionRow, b: AbsorptionRow, c: AbsorptionRow)
    requires
        !row_before(b, a),
        !row_before(c, b),
    ensures
        !row_before(c, a),
{
    lemma_row_order_total(a, b);
    lemma_row_order_total(b, c);
    lemma_row_order_total(a, c);
    if row_before(c, a) {
        if text_lt(c.dimension@, a.dimension@) {
            if text_lt(a.dimension@, b.dimension@) {
                lemma_text_lt_transitive(c.dimension@, a.dimension@, b.dimension@);
            }
            if text_lt(b.dimension@, c.dimension@) {
                lemma_text_lt_transitive(b.dimension@, c.dimension@, a.dimension@);
            }
            lemma_text_lt_asymmetric(c.dimension@, a.dimension@);
        } else if text_lt(c.scope@, a.scope@) {
            if text_lt(a.scope@, b.scope@) {
                lemma_text_lt_transitive(c.scope@, a.scope@, b.scope@);
            }
            if text_lt(b.scope@, c.scope@) {
                lemma_text_lt_transitive(b.scope@, c.scope@, a.scope@);
            }
            lemma_text_lt_asymmetric(c.scope@, a.scope@);
        } else {
            if text_lt(a.member@, b.member@) {
                lemma_text_lt_transitive(c.member@, a.member@, b.member@);
            }
            if text_lt(b.member@, c.member@) {
                lemma_text_lt_transitive(b.member@, c.member@, a.member@);
            }
            lemma_text_lt_asymmetric(c.member@, a.member@);
        }
    }
}

/// The rows in `(dimension, scope, member)` order.
fn sort_rows(rows: &[AbsorptionRow]) -> (r: Vec<AbsorptionRow>)
    ensures
        r@.to_multiset() == rows@.to_multiset(),
        rows_in_order(r@),
{
    broadcast use vstd::seq_lib::group_to_multiset_ensures;
    broadcast use vstd::multiset::group_multiset_axioms;

    let mut out: Vec<AbsorptionRow> = Vec::new();
    let mut k: usize = 0;
    while k < rows.len()
        invariant
            k <= rows@.len(),
            out@.to_multiset() == rows@.take(k as int).to_multiset(),
            rows_in_order(out@),
        decreases rows.len() - k,
    {
        let x = copy_row(&rows[k]);
        proof {
            assert(rows@.take(k + 1) =~= rows@.take(k as int).push(x));
            vstd::seq_lib::to_multiset_build(rows@.take(k as int), x);
        }
        let mut j: usize = 0;
        while j < out.len() && !row_before_exec(&x, &out[j])
            invariant
                j <= out@.len(),
                forall|m: int| 0 <= m < j ==> !row_before(x, #[trigger] out@[m]),
            decreases out.len() - j,
        {
            j += 1;
        }
        let ghost o = out@;
        out.insert(j, x);
        proof {
            vstd::seq_lib::to_multiset_insert(o, j as int, x);
            assert forall|a: int, b: int| 0 <= a < b < out@.len() implies !row_before(out@[b], out@[a]) by {
                if b < j {
                    assert(out@[a] == o[a] && out@[b] == o[b]);
                } else if b == j {
                    assert(out@[a] == o[a]);
                    lemma_row_order_total(x, o[a]);
                } else if a == j {
                    assert(out@[b] == o[b - 1]);
                    lemma_row_order_total(x, o[j as int]);
                    if b - 1 > j {
                        lemma_row_order_transitive(x, o[j as int], o[b - 1]);
                    }
                } else if a < j {
                    assert(out@[a] == o[a] && out@[b] == o[b - 1]);
                    lemma_row_order_total(x, o[a]);
                    lemma_row_order_total(x, o[j as int]);
                    lemma_row_order_transitive(o[a], x, o[j as int]);
                    if b - 1 > j {
                        lemma_row_order_transitive(o[a], o[j as int], o[b - 1]);
                    }
                } else {
                    assert(out@[a] == o[a - 1] && out@[b] == o[b - 1]);
                }
            }
        }
        k += 1;
    }
    proof {
        assert(rows@.take(k as int) =~= rows@);
    }
    out
}


// ───────────────────────────── resolution ─────────────────────────────

/// The row is of dimension `dim` and, when a scope is given, of that scope.
pub open spec fn in_scope(r: AbsorptionRow, dim: Seq<char>, scope: Option<Seq<char>>) -> bool {
    r.dimension@ == dim && match scope {
        Some(s) => r.scope@ == s,
        None => true,
    }
}

/// The key a row of `key` is counted under: the absorbent of the last row
/// in scope whose member is `key`, else `key` itself.
pub open spec fn resolve_in(rows: Seq<AbsorptionRow>, dim: Seq<char>, scope: Option<Seq<char>>, key: Seq<char>) -> Seq<char>
    decreases rows.len(),
{
    if rows.len() == 0 {
        key
    } else if in_scope(rows.last(), dim, scope) && rows.last().member@ == key {
        rows.last().absorbent@
    } else {
        resolve_in(rows.drop_last(), dim, scope, key)
    }
}

/// The name stored for absorbent `key` at its last Combine: that of the
/// last row in scope it absorbs.
pub open spec fn stored_name_in(rows: Seq<AbsorptionRow>, dim: Seq<char>, scope: Option<Seq<char>>, key: Seq<char>) -> Option<Seq<char>>
    decreases rows.len(),
{
    if rows.len() == 0 {
        None
    } else if in_scope(rows.last(), dim, scope) && rows.last().absorbent@ == key {
        Some(rows.last().absorbent_name@)
    } else {
        stored_name_in(rows.drop_last(), dim, scope, key)
    }
}

/// The members of `absorbent` in scope, as `(key, name)`, in row order.
pub open spec fn members_in(rows: Seq<AbsorptionRow>, dim: Seq<char>, scope: Option<Seq<char>>, absorbent: Seq<char>) -> Seq<(Seq<char>, Seq<char>)>
    decreases rows.len(),
{
    if rows.len() == 0 {
        Seq::empty()
    } else {
        let rest = members_in(rows.drop_last(), dim, scope, absorbent);
        let r = rows.last();
        if in_scope(r, dim, scope) && r.absorbent@ == absorbent {
            rest.push((r.member@, r.member_name@))
        } else {
            rest
        }
    }
}

/// The effort `raw_effort` of raw model `raw_model` is counted under
/// (step 1: the effort absorptions of the raw model).
pub open spec fn global_effort(rows: Seq<AbsorptionRow>, raw_model: Seq<char>, raw_effort: Option<Seq<char>>) -> Option<Seq<char>> {
    effort_of(resolve_in(rows, "effort"@, Some(raw_model), effort_key_of(raw_effort)))
}

/// A raw couple after the global steps: the effort on the raw model, then
/// the model.
pub open spec fn global_couple(rows: Seq<AbsorptionRow>, raw_model: Seq<char>, raw_effort: Option<Seq<char>>) -> (Seq<char>, Option<Seq<char>>) {
    (resolve_in(rows, "model"@, None, raw_model), global_effort(rows, raw_model, raw_effort))
}

/// A stored couple key resolved as a raw couple; none for a key that is no
/// couple.
pub open spec fn global_couple_key(rows: Seq<AbsorptionRow>, key: Seq<char>) -> Option<Seq<char>> {
    match split_couple(key) {
        Some((m, e)) => Some(couple_key_of(global_couple(rows, m, e).0, global_couple(rows, m, e).1)),
        None => None,
    }
}

/// Step 4: the absorbent couple of the first couple row of `scope` whose
/// member, globally resolved, is `global_key` and whose absorbent resolves
/// to another couple.
pub open spec fn local_couple_from(rows: Seq<AbsorptionRow>, all: Seq<AbsorptionRow>, scope: Seq<char>, global_key: Seq<char>) -> Option<Seq<char>>
    decreases rows.len(),
{
    if rows.len() == 0 {
        None
    } else {
        let r = rows[0];
        if in_scope(r, "couple"@, Some(scope)) && global_couple_key(all, r.member@) == Some(global_key)
            && global_couple_key(all, r.absorbent@) is Some && global_couple_key(all, r.absorbent@)->0 != global_key {
            global_couple_key(all, r.absorbent@)
        } else {
            local_couple_from(rows.drop_first(), all, scope, global_key)
        }
    }
}

/// One dimension's absorptions within one scope (any scope when `scope` is
/// none): member → absorbent, the absorbents' stored names, their members.
pub struct ScopeAbsorptions<'a> {
    pub rows: &'a [AbsorptionRow],
    pub dimension: &'a str,
    pub scope: Option<&'a str>,
}

impl<'a> ScopeAbsorptions<'a> {
    /// The key a row of `key` is counted under.
    pub fn resolve<'c>(&self, key: &'c str) -> (r: &'c str)
        where 'a: 'c,
        ensures
            r@ == resolve_in(self.rows@, self.dimension@, opt_str(self.scope), key@),
    {
        let rows: &'a [AbsorptionRow] = self.rows;
        let mut n: usize = rows.len();
        assert(rows@.subrange(0, n as int) =~= rows@);
        while n > 0
            invariant
                n <= rows@.len(),
                rows == self.rows,
                resolve_in(rows@, self.dimension@, opt_str(self.scope), key@) == resolve_in(
                    rows@.subrange(0, n as int),
                    self.dimension@,
                    opt_str(self.scope),
                    key@,
                ),
            decreases n,
        {
            let ghost t = rows@.subrange(0, n as int);
            let row: &'a AbsorptionRow = &rows[n - 1];
            assert(t.last() == *row);
            if self.row_in_scope(row) && str_eq(row.member.as_str(), key) {
                return row.absorbent.as_str();
            }
            assert(t.drop_last() =~= rows@.subrange(0, n - 1));
            n -= 1;
        }
        key
    }

    /// Whether a row is of this dimension and scope.
    fn row_in_scope(&self, row: &AbsorptionRow) -> (r: bool)
        ensures
            r == in_scope(*row, self.dimension@, opt_str(self.scope)),
    {
        str_eq(row.dimension.as_str(), self.dimension) && match self.scope {
            Some(s) => str_eq(row.scope.as_str(), s),
            None => true,
        }
    }

    /// The name stored for absorbent `key` at its last Combine.
    pub fn stored_name(&self, key: &str) -> (r: Option<&'a str>)
        ensures
            opt_str(r) == stored_name_in(self.rows@, self.dimension@, opt_str(self.scope), key@),
    {
        let rows: &'a [AbsorptionRow] = self.rows;
        let mut n: usize = rows.len();
        assert(rows@.subrange(0, n as int) =~= rows@);
        while n > 0
            invariant
                n <= rows@.len(),
                rows == self.rows,
                stored_name_in(rows@, self.dimension@, opt_str(self.scope), key@) == stored_name_in(
                    rows@.subrange(0, n as int),
                    self.dimension@,
                    opt_str(self.scope),
                    key@,
                ),
            decreases n,
        {
            let ghost t = rows@.subrange(0, n as int);
            let row: &'a AbsorptionRow = &rows[n - 1];
            assert(t.last() == *row);
            if self.row_in_scope(row) && str_eq(row.absorbent.as_str(), key) {
                return Some(row.absorbent_name.as_str());
            }
            assert(t.drop_last() =~= rows@.subrange(0, n - 1));
            n -= 1;
        }
        None
    }

    /// The members of `absorbent`, in row order.
    pub fn members_of(&self, absorbent: &str) -> (r: Vec<Named>)
        ensures
            r@.map_values(|m: Named| (m.key@, m.name@)) == members_in(
                self.rows@,
                self.dimension@,
                opt_str(self.scope),
                absorbent@,
            ),
    {
        let mut out: Vec<Named> = Vec::new();
        let mut i: usize = 0;
        while i < self.rows.len()
            invariant
                i <= self.rows@.len(),
                out@.map_values(|m: Named| (m.key@, m.name@)) == members_in(
                    self.rows@.take(i as int),
                    self.dimension@,
                    opt_str(self.scope),
                    absorbent@,
                ),
            decreases self.rows.len() - i,
        {
            let row = &self.rows[i];
            let ghost before = out@;
            assert(self.rows@.take(i + 1).drop_last() =~= self.rows@.take(i as int));
            assert(self.rows@.take(i + 1).last() == *row);
            if self.row_in_scope(row) && str_eq(row.absorbent.as_str(), absorbent) {
                out.push(Named { key: row.member.clone(), name: row.member_name.clone() });
                assert(out@.map_values(|m: Named| (m.key@, m.name@)) =~= before.map_values(
                    |m: Named| (m.key@, m.name@),
                ).push((row.member@, row.member_name@)));
            }
            i += 1;
        }
        assert(self.rows@.take(i as int) =~= self.rows@);
        out
    }
}

/// The global absorptions a couple goes through: the efforts of a raw
/// model, then the model.
pub struct GlobalAbsorptions<'a> {
    pub rows: &'a [AbsorptionRow],
}

impl<'a> GlobalAbsorptions<'a> {
    /// The effort `raw_effort` of raw model `raw_model` is counted under.
    pub fn effort(&self, raw_model: &str, raw_effort: Option<&str>) -> (r: Option<String>)
        ensures
            opt_string(r) == global_effort(self.rows@, raw_model@, opt_str(raw_effort)),
    {
        let key = effort_key(raw_effort);
        let efforts = ScopeAbsorptions { rows: self.rows, dimension: EFFORT, scope: Some(raw_model) };
        let resolved = efforts.resolve(key.as_str());
        effort_of_key(resolved)
    }

    /// A raw couple after the global steps.
    pub fn couple(&self, raw_model: &str, raw_effort: Option<&str>) -> (r: (String, Option<String>))
        ensures
            (r.0@, opt_string(r.1)) == global_couple(self.rows@, raw_model@, opt_str(raw_effort)),
    {
        let models = ScopeAbsorptions { rows: self.rows, dimension: MODEL, scope: None };
        let model = models.resolve(raw_model).to_owned();
        (model, self.effort(raw_model, raw_effort))
    }

    /// A stored couple key, resolved as if it were a raw couple.
    pub fn couple_key(&self, key: &str) -> (r: Option<String>)
        ensures
            opt_string(r) == global_couple_key(self.rows@, key@),
    {
        match split_couple_key(key) {
            Some((model, effort)) => {
                let e: Option<&str> = match &effort {
                    Some(x) => Some(x.as_str()),
                    None => None,
                };
                assert(opt_str(e) == opt_string(effort));
                let (m, ef) = self.couple(model.as_str(), e);
                let f: Option<&str> = match &ef {
                    Some(x) => Some(x.as_str()),
                    None => None,
                };
                assert(opt_str(f) == opt_string(ef));
                Some(couple_key(m.as_str(), f))
            },
            None => None,
        }
    }
}

/// The absorptions of one Stats read: every stored row, in
/// `(dimension, scope, member)` order. Empty under `uncombined`, which is
/// exactly « the rows as the event log wrote them ».
pub struct AbsorptionResolver {
    rows: Vec<AbsorptionRow>,
}

impl AbsorptionResolver {
    /// The stored rows, in resolution order.
    pub closed spec fn rows(&self) -> Seq<AbsorptionRow> {
        self.rows@
    }

    /// The resolver of a read with no absorption.
    pub fn empty() -> (r: AbsorptionResolver)
        ensures
            r.rows() == Seq::<AbsorptionRow>::empty(),
    {
        AbsorptionResolver { rows: Vec::new() }
    }

    /// The resolver of the stored rows: the same rows, put in order, so the
    /// read does not depend on the order the store listed them in.
    pub fn from_rows(rows: &[AbsorptionRow]) -> (r: AbsorptionResolver)
        ensures
            r.rows().to_multiset() == rows@.to_multiset(),
            rows_in_order(r.rows()),
    {
        AbsorptionResolver { rows: sort_rows(rows) }
    }

    /// The Pipeline absorptions.
    pub fn pipelines(&self) -> (s: ScopeAbsorptions<'_>)
        ensures
            s.rows@ == self.rows(),
            s.dimension@ == PIPELINE@,
            s.scope is None,
    {
        ScopeAbsorptions { rows: self.rows.as_slice(), dimension: PIPELINE, scope: None }
    }

    /// The Node absorptions of the Pipeline row `pipeline_key`.
    pub fn nodes<'a>(&'a self, pipeline_key: &'a str) -> (s: ScopeAbsorptions<'a>)
        ensures
            s.rows@ == self.rows(),
            s.dimension@ == NODE@,
            s.scope == Some(pipeline_key),
    {
        ScopeAbsorptions { rows: self.rows.as_slice(), dimension: NODE, scope: Some(pipeline_key) }
    }

    /// The model absorptions (the « By model » axis).
    pub fn models(&self) -> (s: ScopeAbsorptions<'_>)
        ensures
            s.rows@ == self.rows(),
            s.dimension@ == MODEL@,
            s.scope is None,
    {
        ScopeAbsorptions { rows: self.rows.as_slice(), dimension: MODEL, scope: None }
    }

    /// The effort absorptions of raw model `raw_model`.
    pub fn efforts<'a>(&'a self, raw_model: &'a str) -> (s: ScopeAbsorptions<'a>)
        ensures
            s.rows@ == self.rows(),
            s.dimension@ == EFFORT@,
            s.scope == Some(raw_model),
    {
        ScopeAbsorptions { rows: self.rows.as_slice(), dimension: EFFORT, scope: Some(raw_model) }
    }

    /// The global absorptions (models and efforts).
    pub fn global(&self) -> (g: GlobalAbsorptions<'_>)
        ensures
            g.rows@ == self.rows(),
    {
        GlobalAbsorptions { rows: self.rows.as_slice() }
    }

    /// The key a Run of Pipeline `key` is counted under.
    pub fn pipeline<'a>(&'a self, key: &'a str) -> (r: &'a str)
        ensures
            r@ == resolve_in(self.rows(), PIPELINE@, None, key@),
    {
        let p = ScopeAbsorptions { rows: self.rows.as_slice(), dimension: PIPELINE, scope: None };
        p.resolve(key)
    }

    /// The name stored for a Pipeline absorbent key at its last Combine.
    pub fn stored_name(&self, key: &str) -> (r: Option<&str>)
        ensures
            opt_str(r) == stored_name_in(self.rows(), PIPELINE@, None, key@),
    {
        let p = ScopeAbsorptions { rows: self.rows.as_slice(), dimension: PIPELINE, scope: None };
        p.stored_name(key)
    }

    /// Step 4 of a couple: the couple absorbing `global_key` in couple scope
    /// `scope`, if any.
    pub fn local_couple(&self, scope: &str, global_key: &str) -> (r: Option<String>)
        ensures
            opt_string(r) == local_couple_from(self.rows(), self.rows(), scope@, global_key@),
    {
        let g = GlobalAbsorptions { rows: self.rows.as_slice() };
        let couples = ScopeAbsorptions { rows: self.rows.as_slice(), dimension: COUPLE, scope: Some(scope) };
        let mut i: usize = 0;
        assert(self.rows@.skip(0) =~= self.rows@);
        while i < self.rows.len()
            invariant
                i <= self.rows@.len(),
                g.rows@ == self.rows@,
                couples.rows@ == self.rows@,
                couples.dimension@ == COUPLE@,
                couples.scope == Some(scope),
                local_couple_from(self.rows@, self.rows@, scope@, global_key@) == local_couple_from(
                    self.rows@.skip(i as int),
                    self.rows@,
                    scope@,
                    global_key@,
                ),
            decreases self.rows.len() - i,
        {
            let ghost t = self.rows@.skip(i as int);
            let row = &self.rows[i];
            assert(t[0] == *row);
            if couples.row_in_scope(row) {
                let member = g.couple_key(row.member.as_str());
                let absorbent = g.couple_key(row.absorbent.as_str());
                if let (Some(m), Some(a)) = (member, absorbent) {
                    if str_eq(m.as_str(), global_key) && !str_eq(a.as_str(), global_key) {
                        return Some(a);
                    }
                }
            }
            assert(t.drop_first() =~= self.rows@.skip(i + 1));
            i += 1;
        }
        None
    }
}


// ───────────────────────────── the Run identity read ─────────────────────────────

/// The Pipeline key and name of a Run as its start froze them: the
/// `pipeline_id`, else the `pipeline_name`, else `(unknown)`; the name is the
/// `pipeline_name`, else the key.
pub open spec fn pipeline_identity_of(payload: JsonValue) -> (Seq<char>, Seq<char>) {
    let key = match get_str(payload, "pipeline_id"@) {
        Some(k) => k,
        None => match get_str(payload, "pipeline_name"@) {
            Some(n) => n,
            None => UNKNOWN_PIPELINE@,
        },
    };
    let name = match get_str(payload, "pipeline_name"@) {
        Some(n) => n,
        None => key,
    };
    (key, name)
}

/// The Pipeline key and name of a Run.
pub fn pipeline_identity(payload: &JsonValue) -> (r: (String, String))
    ensures
        (r.0@, r.1@) == pipeline_identity_of(*payload),
{
    let key: String = match get_string(payload, "pipeline_id") {
        Some(k) => k.clone(),
        None => match get_string(payload, "pipeline_name") {
            Some(n) => n.clone(),
            None => UNKNOWN_PIPELINE.to_owned(),
        },
    };
    let name: String = match get_string(payload, "pipeline_name") {
        Some(n) => n.clone(),
        None => key.clone(),
    };
    (key, name)
}

/// One node of the Run's frozen pipeline snapshot.
#[derive(Debug, PartialEq, Eq)]
pub struct NodeDef {
    pub name: String,
    pub node_type: String,
}

/// One `node_defs` entry as `(id, name, node_type)`: none without a string
/// `id`; the name is the id when unnamed, the type empty when untyped.
pub open spec fn node_def_of(def: JsonValue) -> Option<(Seq<char>, Seq<char>, Seq<char>)> {
    match get_str(def, "id"@) {
        Some(id) => Some(
            (
                id,
                match get_str(def, "name"@) {
                    Some(n) => n,
                    None => id,
                },
                match get_str(def, "node_type"@) {
                    Some(t) => t,
                    None => Seq::empty(),
                },
            ),
        ),
        None => None,
    }
}

/// The readable entries among `defs`, in order.
pub open spec fn defs_from(defs: Seq<JsonValue>) -> Seq<(Seq<char>, Seq<char>, Seq<char>)>
    decreases defs.len(),
{
    if defs.len() == 0 {
        Seq::empty()
    } else {
        match node_def_of(defs.last()) {
            Some(d) => defs_from(defs.drop_last()).push(d),
            None => defs_from(defs.drop_last()),
        }
    }
}

/// The node definitions of a Run's start: the readable entries of its
/// `node_defs` array, in order; none when it has no such array.
pub open spec fn node_defs_of(payload: JsonValue) -> Seq<(Seq<char>, Seq<char>, Seq<char>)> {
    match json_get(payload, "node_defs"@) {
        Some(JsonValue::Array(items)) => defs_from(items@),
        _ => Seq::empty(),
    }
}

/// The view of node definitions.
pub open spec fn defs_view(defs: Seq<(String, NodeDef)>) -> Seq<(Seq<char>, Seq<char>, Seq<char>)> {
    defs.map_values(|d: (String, NodeDef)| (d.0@, d.1.name@, d.1.node_type@))
}

/// The name node `id` shows with: that of its last definition, else the id.
pub open spec fn def_name(defs: Seq<(Seq<char>, Seq<char>, Seq<char>)>, id: Seq<char>) -> Seq<char>
    decreases defs.len(),
{
    if defs.len() == 0 {
        id
    } else if defs.last().0 == id {
        defs.last().1
    } else {
        def_name(defs.drop_last(), id)
    }
}

/// The node definitions of a Run's start, in order; a later definition of
/// an id shadows an earlier one.
pub fn node_defs(payload: &JsonValue) -> (r: Vec<(String, NodeDef)>)
    ensures
        defs_view(r@) == node_defs_of(*payload),
{
    let mut out: Vec<(String, NodeDef)> = Vec::new();
    match crate::json::get(payload, "node_defs") {
        Some(JsonValue::Array(items)) => {
            let mut i: usize = 0;
            while i < items.len()
                invariant
                    i <= items@.len(),
                    defs_view(out@) == defs_from(items@.take(i as int)),
                decreases items.len() - i,
            {
                let def = &items[i];
                let ghost before = out@;
                assert(items@.take(i + 1).drop_last() =~= items@.take(i as int));
                assert(items@.take(i + 1).last() == *def);
                if let Some(id) = get_string(def, "id") {
                    let name = match get_string(def, "name") {
                        Some(n) => n.clone(),
                        None => id.clone(),
                    };
                    let node_type = match get_string(def, "node_type") {
                        Some(t) => t.clone(),
                        None => String::new(),
                    };
                    out.push((id.clone(), NodeDef { name, node_type }));
                    assert(defs_view(out@) =~= defs_view(before).push(node_def_of(*def)->0));
                }
                i += 1;
            }
            assert(items@.take(i as int) =~= items@);
        },
        _ => {
            assert(defs_view(out@) =~= Seq::<(Seq<char>, Seq<char>, Seq<char>)>::empty());
        },
    }
    out
}

/// The name node `id` shows with.
pub(crate) fn def_name_exec(defs: &Vec<(String, NodeDef)>, id: &str) -> (r: String)
    ensures
        r@ == def_name(defs_view(defs@), id@),
{
    let mut n: usize = defs.len();
    assert(defs@.subrange(0, n as int) =~= defs@);
    while n > 0
        invariant
            n <= defs@.len(),
            def_name(defs_view(defs@), id@) == def_name(defs_view(defs@.subrange(0, n as int)), id@),
        decreases n,
    {
        let ghost t = defs_view(defs@.subrange(0, n as int));
        assert(t.last() == (defs@[n - 1].0@, defs@[n - 1].1.name@, defs@[n - 1].1.node_type@));
        if str_eq(defs[n - 1].0.as_str(), id) {
            return defs[n - 1].1.name.clone();
        }
        assert(t.drop_last() =~= defs_view(defs@.subrange(0, n - 1)));
        n -= 1;
    }
    id.to_owned()
}

/// Whether a text is empty.
pub(crate) fn is_empty_text(s: &str) -> (r: bool)
    ensures
        r == (s@.len() == 0),
{
    chars_of(s).len() == 0
}

/// A Run's identity for the Stats folds, absorptions applied.
pub struct RunIdentity<'a> {
    /// The key the Run is counted under: its absorbent's when it is absorbed.
    pub pipeline_key: String,
    /// The name for that key: the Run's own, or the absorbent's stored name.
    pub pipeline_name: String,
    /// Whether the name is the Run's own.
    pub own_name: bool,
    /// The key the event log wrote, before substitution.
    pub raw_pipeline_key: String,
    pub node_defs: Vec<(String, NodeDef)>,
    /// The absorptions of the read.
    pub resolver: &'a AbsorptionResolver,
    /// The Run itself, for a fold that only sees the identity.
    pub run_id: String,
    pub started_at: String,
}

/// A Node of a Run as a Stats row counts it, Node absorptions applied.
#[derive(Debug, PartialEq, Eq)]
pub struct NodeIdentity {
    /// The Node id the row is keyed by: its absorbent's when it is absorbed.
    pub key: String,
    /// The Node id the event log wrote.
    pub raw_key: String,
    pub name: String,
    /// Whether the name is the Node's own.
    pub own_name: bool,
}

/// A model × effort couple of a Node as its row counts it.
#[derive(Debug, PartialEq, Eq)]
pub struct CoupleIdentity {
    /// The couple the row is keyed by, after step 4.
    pub model: String,
    pub effort: Option<String>,
    pub key: String,
    /// The couple after the global steps.
    pub global_key: String,
    /// The couple the event log wrote.
    pub raw_key: String,
    /// Whether a global absorption moved it.
    pub global: bool,
    /// The raw `(Pipeline, Node)` scope its couple absorptions live in;
    /// empty on a row that is no Node.
    pub scope: String,
}

/// The naming rule of a row's name slot: an own name always takes it, a
/// borrowed one only an empty slot.
pub open spec fn adopted(slot: Seq<char>, name: Seq<char>, own: bool) -> Seq<char> {
    if own || slot.len() == 0 {
        name
    } else {
        slot
    }
}

impl NodeIdentity {
    /// Apply the naming rule to a Node row's name slot.
    pub fn adopt_name(&self, slot: &mut String)
        ensures
            final(slot)@ == adopted(old(slot)@, self.name@, self.own_name),
    {
        if self.own_name || is_empty_text(slot.as_str()) {
            *slot = self.name.clone();
        }
    }
}

impl AbsorptionResolver {
    /// The Run identity of one Run start, absorptions applied.
    pub fn run_identity(&self, payload: &JsonValue) -> (r: RunIdentity<'_>)
        ensures
            r.raw_pipeline_key@ == pipeline_identity_of(*payload).0,
            r.pipeline_key@ == resolve_in(self.rows(), PIPELINE@, None, pipeline_identity_of(*payload).0),
            r.own_name == (r.pipeline_key@ == r.raw_pipeline_key@),
            r.pipeline_name@ == (if r.own_name {
                pipeline_identity_of(*payload).1
            } else {
                match stored_name_in(self.rows(), PIPELINE@, None, r.pipeline_key@) {
                    Some(n) => n,
                    None => r.pipeline_key@,
                }
            }),
            defs_view(r.node_defs@) == node_defs_of(*payload),
            r.resolver == self,
            r.run_id@.len() == 0,
            r.started_at@.len() == 0,
    {
        let (raw_key, raw_name) = pipeline_identity(payload);
        let key = self.pipeline(raw_key.as_str()).to_owned();
        let own = str_eq(key.as_str(), raw_key.as_str());
        let name = if own {
            raw_name
        } else {
            match self.stored_name(key.as_str()) {
                Some(n) => n.to_owned(),
                None => key.clone(),
            }
        };
        let run_id = String::new();
        let started_at = String::new();
        proof {
            assert(run_id@ =~= Seq::<char>::empty());
            assert(started_at@ =~= Seq::<char>::empty());
        }
        RunIdentity {
            pipeline_key: key,
            pipeline_name: name,
            own_name: own,
            raw_pipeline_key: raw_key,
            node_defs: node_defs(payload),
            resolver: self,
            run_id,
            started_at,
        }
    }
}

impl<'a> RunIdentity<'a> {
    /// The identity of the Run `run_id` started at `started_at`.
    pub fn for_run(self, run_id: &str, started_at: &str) -> (r: RunIdentity<'a>)
        ensures
            r.run_id@ == run_id@,
            r.started_at@ == started_at@,
            r.pipeline_key == self.pipeline_key,
            r.pipeline_name == self.pipeline_name,
            r.own_name == self.own_name,
            r.raw_pipeline_key == self.raw_pipeline_key,
            r.node_defs == self.node_defs,
            r.resolver == self.resolver,
    {
        let mut me = self;
        me.run_id = run_id.to_owned();
        me.started_at = started_at.to_owned();
        me
    }

    /// Apply the naming rule to a Pipeline row's name slot (folds walk Runs
    /// oldest first, so « latest own Run wins » is a plain overwrite).
    pub fn adopt_name(&self, slot: &mut String)
        ensures
            final(slot)@ == adopted(old(slot)@, self.pipeline_name@, self.own_name),
    {
        if self.own_name || is_empty_text(slot.as_str()) {
            *slot = self.pipeline_name.clone();
        }
    }

    /// The name node `node_id` shows with.
    pub fn node_name(&self, node_id: &str) -> (r: String)
        ensures
            r@ == def_name(defs_view(self.node_defs@), node_id@),
    {
        def_name_exec(&self.node_defs, node_id)
    }

    /// Node `raw` of this Run, as the Pipeline row counts it.
    pub fn node(&self, raw: &str) -> (n: NodeIdentity)
        ensures
            n.raw_key@ == raw@,
            n.key@ == resolve_in(self.resolver.rows(), NODE@, Some(self.pipeline_key@), raw@),
            n.own_name == (n.key@ == raw@),
            n.name@ == (if n.own_name {
                def_name(defs_view(self.node_defs@), raw@)
            } else {
                match stored_name_in(self.resolver.rows(), NODE@, Some(self.pipeline_key@), n.key@) {
                    Some(s) => s,
                    None => def_name(defs_view(self.node_defs@), n.key@),
                }
            }),
    {
        let scope = self.resolver.nodes(self.pipeline_key.as_str());
        let key = scope.resolve(raw).to_owned();
        let own = str_eq(key.as_str(), raw);
        let name = if own {
            self.node_name(raw)
        } else {
            match scope.stored_name(key.as_str()) {
                Some(s) => s.to_owned(),
                None => self.node_name(key.as_str()),
            }
        };
        NodeIdentity { key, raw_key: raw.to_owned(), name, own_name: own }
    }

    /// The model id raw model `raw` is counted under (step 2).
    pub fn model(&self, raw: &str) -> (r: String)
        ensures
            r@ == resolve_in(self.resolver.rows(), MODEL@, None, raw@),
    {
        self.resolver.models().resolve(raw).to_owned()
    }

    /// The effort the « By model » axis counts `raw_effort` of raw model
    /// `raw_model` under (step 1, on the raw model).
    pub fn effort(&self, raw_model: &str, raw_effort: Option<&str>) -> (r: Option<String>)
        ensures
            opt_string(r) == global_effort(self.resolver.rows(), raw_model@, opt_str(raw_effort)),
    {
        self.resolver.global().effort(raw_model, raw_effort)
    }

    /// The couple `raw_model` × `raw_effort` of Node `raw_node` of this Run
    /// is counted as (steps 1 to 4); only the global steps apply on a row
    /// that is no Node.
    pub fn couple(&self, raw_node: Option<&str>, raw_model: &str, raw_effort: Option<&str>) -> (c: CoupleIdentity)
        ensures
            c.raw_key@ == couple_key_of(raw_model@, opt_str(raw_effort)),
            c.global_key@ == couple_key_of(
                global_couple(self.resolver.rows(), raw_model@, opt_str(raw_effort)).0,
                global_couple(self.resolver.rows(), raw_model@, opt_str(raw_effort)).1,
            ),
            c.global == (c.global_key@ != c.raw_key@),
            c.scope@ == (match raw_node {
                Some(n) => json_pair_text(self.raw_pipeline_key@, n@),
                None => Seq::empty(),
            }),
            ({
                let local = local_couple_from(self.resolver.rows(), self.resolver.rows(), c.scope@, c.global_key@);
                if local is Some && split_couple(local->0) is Some {
                    c.key@ == local->0 && (c.model@, opt_string(c.effort)) == split_couple(local->0)->0
                } else {
                    c.key@ == c.global_key@ && (c.model@, opt_string(c.effort)) == global_couple(
                        self.resolver.rows(),
                        raw_model@,
                        opt_str(raw_effort),
                    )
                }
            }),
    {
        let raw_key = couple_key(raw_model, raw_effort);
        let (model, effort) = self.resolver.global().couple(raw_model, raw_effort);
        let e: Option<&str> = match &effort {
            Some(x) => Some(x.as_str()),
            None => None,
        };
        assert(opt_str(e) == opt_string(effort));
        let global_key = couple_key(model.as_str(), e);
        let scope = match raw_node {
            Some(node) => couple_scope(self.raw_pipeline_key.as_str(), node),
            None => {
                let s = String::new();
                assert(s@ =~= Seq::<char>::empty());
                s
            },
        };
        let local = match self.resolver.local_couple(scope.as_str(), global_key.as_str()) {
            Some(k) => match split_couple_key(k.as_str()) {
                Some(split) => Some((k, split)),
                None => None,
            },
            None => None,
        };
        let global = !str_eq(global_key.as_str(), raw_key.as_str());
        let (key, model, effort) = match local {
            Some((k, (m, ef))) => (k, m, ef),
            None => (global_key.clone(), model, effort),
        };
        CoupleIdentity { model, effort, key, global_key, raw_key, global, scope }
    }
}


// ───────────────────────────── listing and requests ─────────────────────────────

/// One member of an absorption as the listing shows it.
#[derive(Debug, PartialEq, Eq)]
pub struct AbsorptionMemberView {
    pub key: String,
    pub name: String,
    pub origin: String,
    pub created_at: String,
}

/// One absorption as the listing shows it: the absorbent and its members.
#[derive(Debug, PartialEq, Eq)]
pub struct AbsorptionView {
    pub dimension: String,
    pub scope: String,
    /// A Node absorption's Pipeline, by name; empty on the others.
    pub scope_name: String,
    pub absorbent: Named,
    pub members: Vec<AbsorptionMemberView>,
}

/// Every stored absorption.
#[derive(Debug, PartialEq, Eq)]
pub struct AbsorptionList {
    pub absorptions: Vec<AbsorptionView>,
}

/// The group key of a row: `(dimension, scope, absorbent)`.
pub open spec fn group_key(r: AbsorptionRow) -> (Seq<char>, Seq<char>, Seq<char>) {
    (r.dimension@, r.scope@, r.absorbent@)
}

/// The group key of a view.
pub open spec fn view_key(v: AbsorptionView) -> (Seq<char>, Seq<char>, Seq<char>) {
    (v.dimension@, v.scope@, v.absorbent.key@)
}

/// Strict order on keys: by dimension, then scope, then absorbent.
pub open spec fn key_lt(a: (Seq<char>, Seq<char>, Seq<char>), b: (Seq<char>, Seq<char>, Seq<char>)) -> bool {
    text_lt(a.0, b.0) || (a.0 == b.0 && (text_lt(a.1, b.1) || (a.1 == b.1 && text_lt(a.2, b.2))))
}

/// Keys are totally ordered.
pub proof fn lemma_key_total(a: (Seq<char>, Seq<char>, Seq<char>), b: (Seq<char>, Seq<char>, Seq<char>))
    ensures
        key_lt(a, b) || a == b || key_lt(b, a),
        !(key_lt(a, b) && key_lt(b, a)),
        !key_lt(a, a),
{
    lemma_text_lt_total(a.0, b.0);
    lemma_text_lt_total(a.1, b.1);
    lemma_text_lt_total(a.2, b.2);
    lemma_text_lt_asymmetric(a.0, b.0);
    lemma_text_lt_asymmetric(a.1, b.1);
    lemma_text_lt_asymmetric(a.2, b.2);
    if a.0 == b.0 && a.1 == b.1 && a.2 == b.2 {
        assert(a == b);
    }
}

/// The key order is transitive.
pub proof fn lemma_key_transitive(
    a: (Seq<char>, Seq<char>, Seq<char>),
    b: (Seq<char>, Seq<char>, Seq<char>),
    c: (Seq<char>, Seq<char>, Seq<char>),
)
    requires
        key_lt(a, b),
        key_lt(b, c),
    ensures
        key_lt(a, c),
{
    if text_lt(a.0, b.0) && text_lt(b.0, c.0) {
        lemma_text_lt_transitive(a.0, b.0, c.0);
    } else if a.0 == b.0 && b.0 == c.0 {
        if text_lt(a.1, b.1) && text_lt(b.1, c.1) {
            lemma_text_lt_transitive(a.1, b.1, c.1);
        } else if a.1 == b.1 && b.1 == c.1 {
            lemma_text_lt_transitive(a.2, b.2, c.2);
        }
    }
}

/// The members a group lists: the rows of its key, in row order.
pub open spec fn members_of_key(rows: Seq<AbsorptionRow>, k: (Seq<char>, Seq<char>, Seq<char>)) -> Seq<(Seq<char>, Seq<char>, Seq<char>, Seq<char>)>
    decreases rows.len(),
{
    if rows.len() == 0 {
        Seq::empty()
    } else {
        let rest = members_of_key(rows.drop_last(), k);
        let r = rows.last();
        if group_key(r) == k {
            rest.push((r.member@, r.member_name@, r.origin@, r.created_at@))
        } else {
            rest
        }
    }
}

/// The member views as `(key, name, origin, created_at)`.
pub open spec fn member_views(m: Seq<AbsorptionMemberView>) -> Seq<(Seq<char>, Seq<char>, Seq<char>, Seq<char>)> {
    m.map_values(|v: AbsorptionMemberView| (v.key@, v.name@, v.origin@, v.created_at@))
}

/// The listing of `rows`: one view per group key, in key order, each
/// listing the members of its key in row order, with the dimension, scope,
/// scope name and absorbent name of the first row of its key.
pub open spec fn grouped(rows: Seq<AbsorptionRow>, views: Seq<AbsorptionView>) -> bool {
    &&& forall|i: int, j: int| 0 <= i < j < views.len() ==> key_lt(view_key(views[i]), view_key(views[j]))
    &&& forall|r: int| 0 <= r < rows.len() ==> has_group(views, group_key(#[trigger] rows[r]))
    &&& forall|i: int|
        0 <= i < views.len() ==> exists|r: int|
            0 <= r < rows.len() && first_of_key(rows, r) && group_key(rows[r]) == view_key(#[trigger] views[i])
                && views[i].scope_name@ == rows[r].scope_name@ && views[i].absorbent.name@ == rows[r].absorbent_name@
    &&& forall|i: int|
        0 <= i < views.len() ==> member_views(#[trigger] views[i].members@) == members_of_key(rows, view_key(views[i]))
}

/// Some view is the group of key `k`.
pub open spec fn has_group(views: Seq<AbsorptionView>, k: (Seq<char>, Seq<char>, Seq<char>)) -> bool {
    exists|i: int| 0 <= i < views.len() && view_key(#[trigger] views[i]) == k
}

/// Row `r` is the first of its key.
pub open spec fn first_of_key(rows: Seq<AbsorptionRow>, r: int) -> bool {
    forall|q: int| 0 <= q < r ==> group_key(#[trigger] rows[q]) != group_key(rows[r])
}

/// Group the stored rows by absorption for the listing.
pub fn group(rows: Vec<AbsorptionRow>) -> (list: AbsorptionList)
    ensures
        grouped(rows@, list.absorptions@),
{
    let mut views: Vec<AbsorptionView> = Vec::new();
    let mut k: usize = 0;
    while k < rows.len()
        invariant
            k <= rows@.len(),
            grouped(rows@.take(k as int), views@),
        decreases rows.len() - k,
    {
        let row = &rows[k];
        let ghost pre = rows@.take(k as int);
        let ghost now = rows@.take(k + 1);
        assert(now.drop_last() =~= pre && now.last() == *row);
        assert forall|q: int| 0 <= q < k implies now[q] == pre[q] by {}
        let ghost rk = group_key(*row);
        // Where the row's key stands among the groups.
        let mut j: usize = 0;
        while j < views.len() && view_before(&views[j], row)
            invariant
                j <= views@.len(),
                forall|m: int| 0 <= m < j ==> key_lt(view_key(#[trigger] views@[m]), rk),
                rk == group_key(*row),
            decreases views.len() - j,
        {
            j += 1;
        }
        let ghost old_views = views@;
        let member = AbsorptionMemberView {
            key: row.member.clone(),
            name: row.member_name.clone(),
            origin: row.origin.clone(),
            created_at: row.created_at.clone(),
        };
        if j < views.len() && view_has_key(&views[j], row) {
            let mut v = views.remove(j);
            let ghost vm = v.members@;
            v.members.push(member);
            assert(member_views(v.members@) =~= member_views(vm).push(
                (row.member@, row.member_name@, row.origin@, row.created_at@),
            ));
            views.insert(j, v);
            proof {
                lemma_group_extend(pre, now, old_views, views@, j as int);
            }
        } else {
            let mut members: Vec<AbsorptionMemberView> = Vec::new();
            members.push(member);
            let v = AbsorptionView {
                dimension: row.dimension.clone(),
                scope: row.scope.clone(),
                scope_name: row.scope_name.clone(),
                absorbent: Named { key: row.absorbent.clone(), name: row.absorbent_name.clone() },
                members,
            };
            assert(member_views(v.members@) =~= seq![
                (row.member@, row.member_name@, row.origin@, row.created_at@),
            ]);
            views.insert(j, v);
            proof {
                if j < old_views.len() {
                    lemma_key_total(view_key(old_views[j as int]), rk);
                }
                lemma_group_open(pre, now, old_views, views@, j as int);
            }
        }
        k += 1;
    }
    proof {
        assert(rows@.take(k as int) =~= rows@);
    }
    AbsorptionList { absorptions: views }
}

/// Whether the view's key comes before the row's.
fn view_before(v: &AbsorptionView, row: &AbsorptionRow) -> (r: bool)
    ensures
        r == key_lt(view_key(*v), group_key(*row)),
{
    if str_before(v.dimension.as_str(), row.dimension.as_str()) {
        return true;
    }
    if !str_eq(v.dimension.as_str(), row.dimension.as_str()) {
        return false;
    }
    if str_before(v.scope.as_str(), row.scope.as_str()) {
        return true;
    }
    str_eq(v.scope.as_str(), row.scope.as_str()) && str_before(v.absorbent.key.as_str(), row.absorbent.as_str())
}

/// Whether the view is the group of the row's key.
fn view_has_key(v: &AbsorptionView, row: &AbsorptionRow) -> (r: bool)
    ensures
        r == (view_key(*v) == group_key(*row)),
{
    let r = str_eq(v.dimension.as_str(), row.dimension.as_str()) && str_eq(v.scope.as_str(), row.scope.as_str())
        && str_eq(v.absorbent.key.as_str(), row.absorbent.as_str());
    proof {
        if view_key(*v) == group_key(*row) {
            assert(v.dimension@ == row.dimension@);
        }
    }
    r
}

/// A row of an existing group joins it.
proof fn lemma_group_extend(
    pre: Seq<AbsorptionRow>,
    now: Seq<AbsorptionRow>,
    old_views: Seq<AbsorptionView>,
    views: Seq<AbsorptionView>,
    j: int,
)
    requires
        grouped(pre, old_views),
        now.len() == pre.len() + 1,
        now.drop_last() == pre,
        forall|q: int| 0 <= q < pre.len() ==> now[q] == pre[q],
        0 <= j < old_views.len(),
        view_key(old_views[j]) == group_key(now.last()),
        views.len() == old_views.len(),
        forall|m: int| 0 <= m < views.len() && m != j ==> views[m] == old_views[m],
        view_key(views[j]) == view_key(old_views[j]),
        views[j].scope_name == old_views[j].scope_name,
        views[j].absorbent.name == old_views[j].absorbent.name,
        member_views(views[j].members@) == member_views(old_views[j].members@).push(
            (now.last().member@, now.last().member_name@, now.last().origin@, now.last().created_at@),
        ),
    ensures
        grouped(now, views),
{
    let last = now.last();
    assert forall|i: int, b: int| 0 <= i < b < views.len() implies key_lt(view_key(views[i]), view_key(views[b])) by {
        assert(view_key(views[i]) == view_key(old_views[i]) && view_key(views[b]) == view_key(old_views[b]));
    }
    assert forall|r: int| 0 <= r < now.len() implies has_group(views, group_key(#[trigger] now[r])) by {
        if r < pre.len() {
            assert(has_group(old_views, group_key(pre[r])));
            let i = choose|i: int| 0 <= i < old_views.len() && view_key(#[trigger] old_views[i]) == group_key(pre[r]);
            assert(view_key(views[i]) == view_key(old_views[i]));
        } else {
            assert(view_key(views[j]) == group_key(now[r]));
        }
    }
    assert forall|i: int| 0 <= i < views.len() implies exists|r: int|
        0 <= r < now.len() && first_of_key(now, r) && group_key(now[r]) == view_key(#[trigger] views[i])
            && views[i].scope_name@ == now[r].scope_name@ && views[i].absorbent.name@ == now[r].absorbent_name@ by {
        let r = choose|r: int|
            0 <= r < pre.len() && first_of_key(pre, r) && group_key(pre[r]) == view_key(#[trigger] old_views[i])
                && old_views[i].scope_name@ == pre[r].scope_name@ && old_views[i].absorbent.name@
                == pre[r].absorbent_name@;
        assert(now[r] == pre[r]);
        assert(first_of_key(now, r)) by {
            assert forall|q: int| 0 <= q < r implies group_key(#[trigger] now[q]) != group_key(now[r]) by {
                assert(now[q] == pre[q]);
            }
        }
    }
    assert forall|i: int| 0 <= i < views.len() implies member_views(#[trigger] views[i].members@)
        == members_of_key(now, view_key(views[i])) by {
        if i != j {
            assert(view_key(old_views[i]) != view_key(old_views[j])) by {
                if i < j {
                    lemma_key_total(view_key(old_views[i]), view_key(old_views[j]));
                } else {
                    lemma_key_total(view_key(old_views[j]), view_key(old_views[i]));
                }
            }
        }
    }
}

/// A row of a new key opens its group at position `j`.
proof fn lemma_group_open(
    pre: Seq<AbsorptionRow>,
    now: Seq<AbsorptionRow>,
    old_views: Seq<AbsorptionView>,
    views: Seq<AbsorptionView>,
    j: int,
)
    requires
        grouped(pre, old_views),
        now.len() == pre.len() + 1,
        now.drop_last() == pre,
        forall|q: int| 0 <= q < pre.len() ==> now[q] == pre[q],
        0 <= j <= old_views.len(),
        forall|m: int| 0 <= m < j ==> key_lt(view_key(#[trigger] old_views[m]), group_key(now.last())),
        j < old_views.len() ==> key_lt(group_key(now.last()), view_key(old_views[j])),
        views == old_views.insert(j, views[j]),
        view_key(views[j]) == group_key(now.last()),
        views[j].scope_name@ == now.last().scope_name@,
        views[j].absorbent.name@ == now.last().absorbent_name@,
        member_views(views[j].members@) == seq![
            (now.last().member@, now.last().member_name@, now.last().origin@, now.last().created_at@),
        ],
    ensures
        grouped(now, views),
{
    let last = now.last();
    let lk = group_key(last);
    // No earlier row has the new key.
    assert forall|r: int| 0 <= r < pre.len() implies group_key(#[trigger] pre[r]) != lk by {
        assert(has_group(old_views, group_key(pre[r])));
        let i = choose|i: int| 0 <= i < old_views.len() && view_key(#[trigger] old_views[i]) == group_key(pre[r]);
        if i < j {
            lemma_key_total(view_key(old_views[i]), lk);
        } else {
            if i > j {
                lemma_key_transitive(lk, view_key(old_views[j]), view_key(old_views[i]));
            }
            lemma_key_total(lk, view_key(old_views[i]));
        }
    }
    assert(members_of_key(pre, lk) =~= Seq::<(Seq<char>, Seq<char>, Seq<char>, Seq<char>)>::empty()) by {
        lemma_members_absent(pre, lk);
    }
    assert forall|i: int, b: int| 0 <= i < b < views.len() implies key_lt(view_key(views[i]), view_key(views[b])) by {
        if b < j {
            assert(views[i] == old_views[i] && views[b] == old_views[b]);
        } else if b == j {
            assert(views[i] == old_views[i]);
        } else if i == j {
            assert(views[b] == old_views[b - 1]);
            if b - 1 > j {
                lemma_key_transitive(lk, view_key(old_views[j]), view_key(old_views[b - 1]));
            }
        } else if i < j {
            assert(views[i] == old_views[i] && views[b] == old_views[b - 1]);
            if j < old_views.len() {
                lemma_key_transitive(view_key(old_views[i]), lk, view_key(old_views[j]));
                if b - 1 > j {
                    lemma_key_transitive(view_key(old_views[i]), view_key(old_views[j]), view_key(old_views[b - 1]));
                }
            }
        } else {
            assert(views[i] == old_views[i - 1] && views[b] == old_views[b - 1]);
        }
    }
    assert forall|r: int| 0 <= r < now.len() implies has_group(views, group_key(#[trigger] now[r])) by {
        if r < pre.len() {
            assert(has_group(old_views, group_key(pre[r])));
            let i = choose|i: int| 0 <= i < old_views.len() && view_key(#[trigger] old_views[i]) == group_key(pre[r]);
            if i < j {
                assert(views[i] == old_views[i]);
            } else {
                assert(views[i + 1] == old_views[i]);
            }
        } else {
            assert(view_key(views[j]) == group_key(now[r]));
        }
    }
    assert forall|i: int| 0 <= i < views.len() implies exists|r: int|
        0 <= r < now.len() && first_of_key(now, r) && group_key(now[r]) == view_key(#[trigger] views[i])
            && views[i].scope_name@ == now[r].scope_name@ && views[i].absorbent.name@ == now[r].absorbent_name@ by {
        if i == j {
            let r = pre.len() as int;
            assert(first_of_key(now, r)) by {
                assert forall|q: int| 0 <= q < r implies group_key(#[trigger] now[q]) != group_key(now[r]) by {
                    assert(now[q] == pre[q]);
                }
            }
        } else {
            let oi = if i < j { i } else { i - 1 };
            assert(views[i] == old_views[oi]);
            let r = choose|r: int|
                0 <= r < pre.len() && first_of_key(pre, r) && group_key(pre[r]) == view_key(#[trigger] old_views[oi])
                    && old_views[oi].scope_name@ == pre[r].scope_name@ && old_views[oi].absorbent.name@
                    == pre[r].absorbent_name@;
            assert(now[r] == pre[r]);
            assert(first_of_key(now, r)) by {
                assert forall|q: int| 0 <= q < r implies group_key(#[trigger] now[q]) != group_key(now[r]) by {
                    assert(now[q] == pre[q]);
                }
            }
        }
    }
    assert forall|i: int| 0 <= i < views.len() implies member_views(#[trigger] views[i].members@)
        == members_of_key(now, view_key(views[i])) by {
        if i != j {
            let oi = if i < j { i } else { i - 1 };
            assert(views[i] == old_views[oi]);
            assert(view_key(old_views[oi]) != lk) by {
                if oi < j {
                    lemma_key_total(view_key(old_views[oi]), lk);
                } else {
                    if oi > j {
                        lemma_key_transitive(lk, view_key(old_views[j]), view_key(old_views[oi]));
                    }
                    lemma_key_total(lk, view_key(old_views[oi]));
                }
            }
        } else {
            assert(members_of_key(now, lk) =~= members_of_key(pre, lk).push(
                (last.member@, last.member_name@, last.origin@, last.created_at@),
            ));
        }
    }
}

/// No row of the key, no member.
proof fn lemma_members_absent(rows: Seq<AbsorptionRow>, k: (Seq<char>, Seq<char>, Seq<char>))
    requires
        forall|r: int| 0 <= r < rows.len() ==> group_key(#[trigger] rows[r]) != k,
    ensures
        members_of_key(rows, k) == Seq::<(Seq<char>, Seq<char>, Seq<char>, Seq<char>)>::empty(),
    decreases rows.len(),
{
    if rows.len() > 0 {
        assert forall|r: int| 0 <= r < rows.len() - 1 implies group_key(#[trigger] rows.drop_last()[r]) != k by {
            assert(rows.drop_last()[r] == rows[r]);
        }
        lemma_members_absent(rows.drop_last(), k);
        assert(group_key(rows[rows.len() - 1]) != k);
    }
}

/// One row of a Combine request: `scope` names the Pipeline row a Node was
/// selected under.
#[derive(Debug, PartialEq, Eq)]
pub struct CombineRow {
    pub key: String,
    pub name: String,
    pub scope: Option<String>,
}

impl CombineRow {
    /// The row's key and name.
    pub fn named(&self) -> (n: Named)
        ensures
            n.key == self.key,
            n.name == self.name,
    {
        Named { key: self.key.clone(), name: self.name.clone() }
    }
}

/// A Combine request.
#[derive(Debug, PartialEq, Eq)]
pub struct CombineRequest {
    pub dimension: String,
    /// The key of the Pipeline row a Node absorption is scoped to; empty on
    /// the other dimensions.
    pub scope: String,
    /// That Pipeline's name.
    pub scope_name: String,
    pub absorbent: CombineRow,
    pub members: Vec<CombineRow>,
}

/// A row selected under no scope, or under the request's.
pub open spec fn row_in_request_scope(row: CombineRow, scope: Seq<char>) -> bool {
    match row.scope {
        Some(s) => s@ == scope,
        None => true,
    }
}

/// Whether every row of the request was selected under the request's scope.
pub fn rows_share_the_scope(body: &CombineRequest) -> (r: bool)
    ensures
        r == (row_in_request_scope(body.absorbent, body.scope@) && forall|i: int|
            0 <= i < body.members@.len() ==> row_in_request_scope(#[trigger] body.members@[i], body.scope@)),
{
    let fits = match &body.absorbent.scope {
        Some(s) => str_eq(s.as_str(), body.scope.as_str()),
        None => true,
    };
    if !fits {
        return false;
    }
    let mut i: usize = 0;
    while i < body.members.len()
        invariant
            i <= body.members@.len(),
            forall|m: int| 0 <= m < i ==> row_in_request_scope(#[trigger] body.members@[m], body.scope@),
        decreases body.members.len() - i,
    {
        let ok = match &body.members[i].scope {
            Some(s) => str_eq(s.as_str(), body.scope.as_str()),
            None => true,
        };
        if !ok {
            assert(!row_in_request_scope(body.members@[i as int], body.scope@));
            return false;
        }
        i += 1;
    }
    true
}

/// The dimensions Stats combines.
pub open spec fn is_dimension(d: Seq<char>) -> bool {
    d == PIPELINE@ || d == NODE@ || d == MODEL@ || d == EFFORT@ || d == COUPLE@
}

/// Whether Stats combines along this dimension.
pub fn supported_dimension(dimension: &str) -> (r: bool)
    ensures
        r == is_dimension(dimension@),
{
    str_eq(dimension, PIPELINE) || str_eq(dimension, NODE) || str_eq(dimension, MODEL) || str_eq(dimension, EFFORT)
        || str_eq(dimension, COUPLE)
}

} // verus!
