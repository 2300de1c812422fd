//! A partial edit of a Trigger's config, as the statement that applies it:
//! one `column = ?` per field set, in a fixed column order, and the values
//! to bind in that same order, so the positional placeholders line up.
//! Also the roll-up a recorded fire leaves on its Trigger: every outcome
//! becomes the last outcome, and only a fire moves the last-fired time.
use vstd::prelude::*;
use crate::json::JsonValue;
use crate::text::{chars_of, push_str, string_of};

verus! {

/// A partial config edit. Every field is optional: `None` leaves the stored
/// value untouched. A nullable column is double-wrapped, so `Some(None)`
/// sets it to NULL.
#[derive(Debug)]
pub struct UpdateTrigger {
    pub name: Option<String>,
    /// Repoint the Trigger to another library pipeline; its denormalised
    /// name is updated with it.
    pub pipeline_id: Option<String>,
    pub pipeline_name: Option<String>,
    pub target_repo: Option<Option<String>>,
    pub source_branch: Option<Option<String>>,
    pub input_template: Option<String>,
    /// Variable overrides, stored as their JSON text.
    pub variables: Option<JsonValue>,
    pub cron: Option<String>,
    pub guard_command: Option<Option<String>>,
    pub overlap_policy: Option<String>,
    /// The bounded-`allow` ceiling.
    pub max_concurrent: Option<Option<i64>>,
    pub next_fire_at: Option<Option<String>>,
}

/// A value to bind to one placeholder.
#[derive(Debug, PartialEq, Eq)]
pub enum SetValue<'a> {
    Text(&'a str),
    NullableText(Option<&'a str>),
    NullableInt(Option<i64>),
    /// A JSON value, bound as its JSON text.
    Json(&'a JsonValue),
}

/// The column a field sets, and the value it binds, as the statement sees
/// them.
pub enum SetView {
    Text(Seq<char>),
    NullableText(Option<Seq<char>>),
    NullableInt(Option<i64>),
    Json(JsonValue),
}

impl<'a> SetValue<'a> {
    /// What the value binds.
    pub open spec fn value(self) -> SetView {
        match self {
            SetValue::Text(s) => SetView::Text(s@),
            SetValue::NullableText(o) => SetView::NullableText(
                match o {
                    Some(s) => Some(s@),
                    None => None,
                },
            ),
            SetValue::NullableInt(o) => SetView::NullableInt(o),
            SetValue::Json(v) => SetView::Json(*v),
        }
    }
}

/// One field's column and value, when the edit sets it.
pub open spec fn text_field(column: Seq<char>, v: Option<String>) -> Seq<(Seq<char>, SetView)> {
    match v {
        Some(s) => seq![(column, SetView::Text(s@))],
        None => Seq::empty(),
    }
}

/// One nullable text field's column and value, when the edit sets it.
pub open spec fn nullable_field(column: Seq<char>, v: Option<Option<String>>) -> Seq<(Seq<char>, SetView)> {
    match v {
        Some(Some(s)) => seq![(column, SetView::NullableText(Some(s@)))],
        Some(None) => seq![(column, SetView::NullableText(None))],
        None => Seq::empty(),
    }
}

/// The columns the edit sets, with their values, in column order: name,
/// pipeline id, pipeline name, target repo, source branch, input template,
/// variables, cron, guard command, overlap policy, max concurrent, next
/// fire.
pub open spec fn edit_fields(e: UpdateTrigger) -> Seq<(Seq<char>, SetView)> {
    text_field("name"@, e.name) + text_field("pipeline_id"@, e.pipeline_id) + text_field(
        "pipeline_name"@,
        e.pipeline_name,
    ) + nullable_field("target_repo"@, e.target_repo) + nullable_field("source_branch"@, e.source_branch)
        + text_field("input_template"@, e.input_template) + match e.variables {
        Some(v) => seq![("variables"@, SetView::Json(v))],
        None => Seq::<(Seq<char>, SetView)>::empty(),
    } + text_field("cron"@, e.cron) + nullable_field("guard_command"@, e.guard_command) + text_field(
        "overlap_policy"@,
        e.overlap_policy,
    ) + match e.max_concurrent {
        Some(n) => seq![("max_concurrent"@, SetView::NullableInt(n))],
        None => Seq::<(Seq<char>, SetView)>::empty(),
    } + nullable_field("next_fire_at"@, e.next_fire_at)
}

/// `column = ?` for each column, joined by `, `.
pub open spec fn set_clause(fields: Seq<(Seq<char>, SetView)>) -> Seq<char>
    decreases fields.len(),
{
    if fields.len() == 0 {
        Seq::empty()
    } else if fields.len() == 1 {
        fields[0].0 + " = ?"@
    } else {
        set_clause(fields.drop_last()) + ", "@ + fields.last().0 + " = ?"@
    }
}

/// The statement of an edit that sets the `fields`: the trigger id binds
/// the last placeholder.
pub open spec fn update_sql(fields: Seq<(Seq<char>, SetView)>) -> Seq<char> {
    "UPDATE triggers SET "@ + set_clause(fields) + " WHERE id = ?"@
}

/// Whether the edit sets no field: applying it is a no-op.
pub fn is_empty(e: &UpdateTrigger) -> (r: bool)
    ensures
        r == (edit_fields(*e).len() == 0),
{
    e.name.is_none() && e.pipeline_id.is_none() && e.pipeline_name.is_none() && e.target_repo.is_none()
        && e.source_branch.is_none() && e.input_template.is_none() && e.variables.is_none() && e.cron.is_none()
        && e.guard_command.is_none() && e.overlap_policy.is_none() && e.max_concurrent.is_none()
        && e.next_fire_at.is_none()
}

/// The values of binds, in order.
pub open spec fn bind_views(b: Seq<SetValue>) -> Seq<SetView> {
    b.map_values(|x: SetValue| x.value())
}

/// The column of each field.
pub open spec fn columns_of(fields: Seq<(Seq<char>, SetView)>) -> Seq<Seq<char>> {
    fields.map_values(|f: (Seq<char>, SetView)| f.0)
}

/// The values of the fields.
pub open spec fn values_of(fields: Seq<(Seq<char>, SetView)>) -> Seq<SetView> {
    fields.map_values(|f: (Seq<char>, SetView)| f.1)
}

/// Append one `column = ?` to the clause and the value to the binds.
fn push_set<'a>(sql: &mut Vec<char>, binds: &mut Vec<SetValue<'a>>, column: &str, value: SetValue<'a>, done: Ghost<
    Seq<(Seq<char>, SetView)>,
>)
    requires
        old(sql)@ == set_clause(done@),
        bind_views(old(binds)@) == values_of(done@),
    ensures
        final(sql)@ == set_clause(done@.push((column@, value.value()))),
        bind_views(final(binds)@) == values_of(done@.push((column@, value.value()))),
{
    let ghost d = done@.push((column@, value.value()));
    assert(d.drop_last() =~= done@);
    if binds.len() > 0 {
        push_str(sql, ", ");
    } else {
        assert(values_of(done@).len() == done@.len());
        assert(bind_views(binds@).len() == binds@.len());
        assert(done@.len() == 0);
    }
    push_str(sql, column);
    push_str(sql, " = ?");
    let ghost before = binds@;
    binds.push(value);
    assert(bind_views(binds@) =~= bind_views(before).push(value.value()));
    assert(values_of(d) =~= values_of(done@).push(value.value()));
    proof {
        if done@.len() == 0 {
            assert(sql@ =~= column@ + " = ?"@);
        }
    }
}

/// Set a text column when the edit gives it.
fn set_text<'a>(
    sql: &mut Vec<char>,
    binds: &mut Vec<SetValue<'a>>,
    column: &str,
    v: &'a Option<String>,
    done: Ghost<Seq<(Seq<char>, SetView)>>,
) -> (d: Ghost<Seq<(Seq<char>, SetView)>>)
    requires
        old(sql)@ == set_clause(done@),
        bind_views(old(binds)@) == values_of(done@),
    ensures
        d@ == done@ + text_field(column@, *v),
        final(sql)@ == set_clause(d@),
        bind_views(final(binds)@) == values_of(d@),
{
    match v {
        Some(s) => {
            push_set(sql, binds, column, SetValue::Text(s.as_str()), done);
            assert(done@.push((column@, SetView::Text(s@))) =~= done@ + text_field(column@, *v));
            Ghost(done@.push((column@, SetView::Text(s@))))
        },
        None => {
            assert(done@ + text_field(column@, *v) =~= done@);
            done
        },
    }
}

/// Set a nullable text column when the edit gives it.
fn set_nullable<'a>(
    sql: &mut Vec<char>,
    binds: &mut Vec<SetValue<'a>>,
    column: &str,
    v: &'a Option<Option<String>>,
    done: Ghost<Seq<(Seq<char>, SetView)>>,
) -> (d: Ghost<Seq<(Seq<char>, SetView)>>)
    requires
        old(sql)@ == set_clause(done@),
        bind_views(old(binds)@) == values_of(done@),
    ensures
        d@ == done@ + nullable_field(column@, *v),
        final(sql)@ == set_clause(d@),
        bind_views(final(binds)@) == values_of(d@),
{
    match v {
        Some(Some(s)) => {
            push_set(sql, binds, column, SetValue::NullableText(Some(s.as_str())), done);
            assert(done@.push((column@, SetView::NullableText(Some(s@)))) =~= done@ + nullable_field(column@, *v));
            Ghost(done@.push((column@, SetView::NullableText(Some(s@)))))
        },
        Some(None) => {
            push_set(sql, binds, column, SetValue::NullableText(None), done);
            assert(done@.push((column@, SetView::NullableText(None))) =~= done@ + nullable_field(column@, *v));
            Ghost(done@.push((column@, SetView::NullableText(None))))
        },
        None => {
            assert(done@ + nullable_field(column@, *v) =~= done@);
            done
        },
    }
}

/// The statement that applies an edit, and the values to bind before the
/// trigger id, in placeholder order; `None` for an edit that sets nothing.
pub fn update_statement<'a>(e: &'a UpdateTrigger) -> (r: Option<(String, Vec<SetValue<'a>>)>)
    ensures
        match r {
            None => edit_fields(*e).len() == 0,
            Some((sql, binds)) => edit_fields(*e).len() > 0 && sql@ == update_sql(edit_fields(*e)) && bind_views(
                binds@,
            ) == values_of(edit_fields(*e)),
        },
{
    if is_empty(e) {
        return None;
    }
    let mut sql: Vec<char> = Vec::new();
    let mut binds: Vec<SetValue<'a>> = Vec::new();
    let ghost empty = Seq::<(Seq<char>, SetView)>::empty();
    assert(bind_views(binds@) =~= values_of(empty));
    let d = set_text(&mut sql, &mut binds, "name", &e.name, Ghost(empty));
    let d = set_text(&mut sql, &mut binds, "pipeline_id", &e.pipeline_id, d);
    let d = set_text(&mut sql, &mut binds, "pipeline_name", &e.pipeline_name, d);
    let d = set_nullable(&mut sql, &mut binds, "target_repo", &e.target_repo, d);
    let d = set_nullable(&mut sql, &mut binds, "source_branch", &e.source_branch, d);
    let d = set_text(&mut sql, &mut binds, "input_template", &e.input_template, d);
    let d: Ghost<Seq<(Seq<char>, SetView)>> = match &e.variables {
        Some(v) => {
            push_set(&mut sql, &mut binds, "variables", SetValue::Json(v), d);
            Ghost(d@.push(("variables"@, SetView::Json(*v))))
        },
        None => d,
    };
    let d = set_text(&mut sql, &mut binds, "cron", &e.cron, d);
    let d = set_nullable(&mut sql, &mut binds, "guard_command", &e.guard_command, d);
    let d = set_text(&mut sql, &mut binds, "overlap_policy", &e.overlap_policy, d);
    let d: Ghost<Seq<(Seq<char>, SetView)>> = match &e.max_concurrent {
        Some(n) => {
            push_set(&mut sql, &mut binds, "max_concurrent", SetValue::NullableInt(*n), d);
            Ghost(d@.push(("max_concurrent"@, SetView::NullableInt(*n))))
        },
        None => d,
    };
    let d = set_nullable(&mut sql, &mut binds, "next_fire_at", &e.next_fire_at, d);
    assert(d@ =~= edit_fields(*e));
    let mut text = chars_of("UPDATE triggers SET ");
    let clause = string_of(&sql);
    push_str(&mut text, clause.as_str());
    push_str(&mut text, " WHERE id = ?");
    Some((string_of(&text), binds))
}

/// 1 when the edit sets the field, else 0.
pub open spec fn count_set<T>(v: Option<T>) -> int {
    if v is Some {
        1
    } else {
        0
    }
}

/// The fields of an edit, as the twelve pieces `edit_fields` joins.
pub open spec fn edit_parts(e: UpdateTrigger) -> Seq<Seq<(Seq<char>, SetView)>> {
    seq![
        text_field("name"@, e.name),
        text_field("pipeline_id"@, e.pipeline_id),
        text_field("pipeline_name"@, e.pipeline_name),
        nullable_field("target_repo"@, e.target_repo),
        nullable_field("source_branch"@, e.source_branch),
        text_field("input_template"@, e.input_template),
        match e.variables {
            Some(v) => seq![("variables"@, SetView::Json(v))],
            None => Seq::<(Seq<char>, SetView)>::empty(),
        },
        text_field("cron"@, e.cron),
        nullable_field("guard_command"@, e.guard_command),
        text_field("overlap_policy"@, e.overlap_policy),
        match e.max_concurrent {
            Some(n) => seq![("max_concurrent"@, SetView::NullableInt(n))],
            None => Seq::<(Seq<char>, SetView)>::empty(),
        },
        nullable_field("next_fire_at"@, e.next_fire_at),
    ]
}

/// The first `n` parts joined.
pub open spec fn joined_parts(parts: Seq<Seq<(Seq<char>, SetView)>>, n: int) -> Seq<(Seq<char>, SetView)>
    decreases n,
{
    if n <= 0 {
        Seq::empty()
    } else {
        joined_parts(parts, n - 1) + parts[n - 1]
    }
}

/// An element of a part is an element of the parts joined.
proof fn lemma_part_in_joined(parts: Seq<Seq<(Seq<char>, SetView)>>, n: int, k: int, x: (Seq<char>, SetView))
    requires
        0 <= k < n <= parts.len(),
        parts[k].contains(x),
    ensures
        joined_parts(parts, n).contains(x),
    decreases n,
{
    let prev = joined_parts(parts, n - 1);
    if k == n - 1 {
        let i = choose|i: int| 0 <= i < parts[k].len() && parts[k][i] == x;
        assert((prev + parts[k])[prev.len() + i] == x);
    } else {
        lemma_part_in_joined(parts, n - 1, k, x);
        let i = choose|i: int| 0 <= i < prev.len() && prev[i] == x;
        assert((prev + parts[n - 1])[i] == x);
    }
}

/// The joined parts are the edit's fields.
proof fn lemma_edit_fields_joined(e: UpdateTrigger)
    ensures
        joined_parts(edit_parts(e), 12) == edit_fields(e),
{
    let p = edit_parts(e);
    reveal_with_fuel(joined_parts, 13);
    assert(joined_parts(p, 12) =~= p[0] + p[1] + p[2] + p[3] + p[4] + p[5] + p[6] + p[7] + p[8] + p[9] + p[10] + p[11]);
}

/// A field's piece holds its one `(column, value)` when the edit sets it.
proof fn lemma_field_in_edit(e: UpdateTrigger, k: int, x: (Seq<char>, SetView))
    requires
        0 <= k < 12,
        edit_parts(e)[k] == seq![x],
    ensures
        edit_fields(e).contains(x),
{
    assert(edit_parts(e)[k][0] == x);
    lemma_part_in_joined(edit_parts(e), 12, k, x);
    lemma_edit_fields_joined(e);
}

/// The lengths of the first `n` parts, added.
pub open spec fn lens_upto(parts: Seq<Seq<(Seq<char>, SetView)>>, n: int) -> int
    decreases n,
{
    if n <= 0 {
        0
    } else {
        lens_upto(parts, n - 1) + parts[n - 1].len()
    }
}

/// Joining adds the lengths.
proof fn lemma_joined_len(parts: Seq<Seq<(Seq<char>, SetView)>>, n: int)
    ensures
        joined_parts(parts, n).len() == lens_upto(parts, n),
    decreases n,
{
    if n > 0 {
        lemma_joined_len(parts, n - 1);
    }
}

/// An edit sets one column per field it gives, and no other.
pub proof fn law_an_edit_sets_one_column_per_given_field(e: UpdateTrigger)
    ensures
        edit_fields(e).len() == count_set(e.name) + count_set(e.pipeline_id) + count_set(e.pipeline_name) + count_set(e.target_repo) + count_set(
            e.source_branch,
        ) + count_set(e.input_template) + count_set(e.variables) + count_set(e.cron) + count_set(e.guard_command) + count_set(e.overlap_policy)
            + count_set(e.max_concurrent) + count_set(e.next_fire_at),
{
    let p = edit_parts(e);
    lemma_edit_fields_joined(e);
    lemma_joined_len(p, 12);
    reveal_with_fuel(lens_upto, 13);
    assert(p[0].len() == count_set(e.name));
    assert(p[1].len() == count_set(e.pipeline_id));
    assert(p[2].len() == count_set(e.pipeline_name));
    assert(p[3].len() == count_set(e.target_repo));
    assert(p[4].len() == count_set(e.source_branch));
    assert(p[5].len() == count_set(e.input_template));
    assert(p[6].len() == count_set(e.variables));
    assert(p[7].len() == count_set(e.cron));
    assert(p[8].len() == count_set(e.guard_command));
    assert(p[9].len() == count_set(e.overlap_policy));
    assert(p[10].len() == count_set(e.max_concurrent));
    assert(p[11].len() == count_set(e.next_fire_at));
}

/// An edit binds, for every field it sets, exactly that field's own value
/// under that field's column (with the law above, nothing else is bound).
/// A `Some(None)` nullable field binds NULL; `Some(Some(v))` binds `v`.
pub proof fn law_an_edit_binds_its_own_values(e: UpdateTrigger)
    ensures
        e.name matches Some(v) ==> edit_fields(e).contains(("name"@, SetView::Text(v@))),
        e.pipeline_id matches Some(v) ==> edit_fields(e).contains(("pipeline_id"@, SetView::Text(v@))),
        e.pipeline_name matches Some(v) ==> edit_fields(e).contains(("pipeline_name"@, SetView::Text(v@))),
        e.target_repo matches Some(v) ==> edit_fields(e).contains(
            ("target_repo"@, SetView::NullableText(if v is Some { Some(v->0@) } else { None })),
        ),
        e.source_branch matches Some(v) ==> edit_fields(e).contains(
            ("source_branch"@, SetView::NullableText(if v is Some { Some(v->0@) } else { None })),
        ),
        e.input_template matches Some(v) ==> edit_fields(e).contains(("input_template"@, SetView::Text(v@))),
        e.variables matches Some(v) ==> edit_fields(e).contains(("variables"@, SetView::Json(v))),
        e.cron matches Some(v) ==> edit_fields(e).contains(("cron"@, SetView::Text(v@))),
        e.guard_command matches Some(v) ==> edit_fields(e).contains(
            ("guard_command"@, SetView::NullableText(if v is Some { Some(v->0@) } else { None })),
        ),
        e.overlap_policy matches Some(v) ==> edit_fields(e).contains(("overlap_policy"@, SetView::Text(v@))),
        e.max_concurrent matches Some(n) ==> edit_fields(e).contains(("max_concurrent"@, SetView::NullableInt(n))),
        e.next_fire_at matches Some(v) ==> edit_fields(e).contains(
            ("next_fire_at"@, SetView::NullableText(if v is Some { Some(v->0@) } else { None })),
        ),
{
    if let Some(v) = e.name {
        lemma_field_in_edit(e, 0, ("name"@, SetView::Text(v@)));
    }
    if let Some(v) = e.pipeline_id {
        lemma_field_in_edit(e, 1, ("pipeline_id"@, SetView::Text(v@)));
    }
    if let Some(v) = e.pipeline_name {
        lemma_field_in_edit(e, 2, ("pipeline_name"@, SetView::Text(v@)));
    }
    if let Some(v) = e.target_repo {
        lemma_field_in_edit(e, 3, ("target_repo"@, SetView::NullableText(if v is Some { Some(v->0@) } else { None })));
    }
    if let Some(v) = e.source_branch {
        lemma_field_in_edit(e, 4, ("source_branch"@, SetView::NullableText(if v is Some { Some(v->0@) } else { None })));
    }
    if let Some(v) = e.input_template {
        lemma_field_in_edit(e, 5, ("input_template"@, SetView::Text(v@)));
    }
    if let Some(v) = e.variables {
        lemma_field_in_edit(e, 6, ("variables"@, SetView::Json(v)));
    }
    if let Some(v) = e.cron {
        lemma_field_in_edit(e, 7, ("cron"@, SetView::Text(v@)));
    }
    if let Some(v) = e.guard_command {
        lemma_field_in_edit(e, 8, ("guard_command"@, SetView::NullableText(if v is Some { Some(v->0@) } else { None })));
    }
    if let Some(v) = e.overlap_policy {
        lemma_field_in_edit(e, 9, ("overlap_policy"@, SetView::Text(v@)));
    }
    if let Some(n) = e.max_concurrent {
        lemma_field_in_edit(e, 10, ("max_concurrent"@, SetView::NullableInt(n)));
    }
    if let Some(v) = e.next_fire_at {
        lemma_field_in_edit(e, 11, ("next_fire_at"@, SetView::NullableText(if v is Some { Some(v->0@) } else { None })));
    }
}

/// The roll-up statement of a recorded fire with outcome `outcome`, stamped
/// `ts`: a `fired` outcome sets the last-fired time and the last outcome,
/// any other outcome the last outcome only.
pub open spec fn rollup_spec(outcome: Seq<char>, ts: Seq<char>, trigger_id: Seq<char>) -> (Seq<char>, Seq<Seq<char>>) {
    if outcome == "fired"@ {
        ("UPDATE triggers SET last_fired_at = ?, last_outcome = ? WHERE id = ?"@, seq![ts, outcome, trigger_id])
    } else {
        ("UPDATE triggers SET last_outcome = ? WHERE id = ?"@, seq![outcome, trigger_id])
    }
}

/// The views of the values to bind.
pub open spec fn text_views(v: Seq<&str>) -> Seq<Seq<char>> {
    Seq::new(v.len(), |i: int| v[i]@)
}

/// The statement that rolls a recorded fire up onto its Trigger, and the
/// values to bind, in placeholder order.
pub fn rollup_statement<'a>(outcome: &'a str, ts: &'a str, trigger_id: &'a str) -> (r: (&'static str, Vec<&'a str>))
    ensures
        (r.0@, text_views(r.1@)) == rollup_spec(outcome@, ts@, trigger_id@),
{
    let fired = crate::text::str_eq(outcome, "fired");
    proof {
        reveal_strlit("fired");
    }
    if fired {
        let sql = "UPDATE triggers SET last_fired_at = ?, last_outcome = ? WHERE id = ?";
        let binds = vec![ts, outcome, trigger_id];
        proof {
            assert(text_views(binds@) =~= seq![ts@, outcome@, trigger_id@]);
        }
        (sql, binds)
    } else {
        let sql = "UPDATE triggers SET last_outcome = ? WHERE id = ?";
        let binds = vec![outcome, trigger_id];
        proof {
            assert(text_views(binds@) =~= seq![outcome@, trigger_id@]);
        }
        (sql, binds)
    }
}

/// A Trigger id: `trg-<stamp>-<first seven characters of a UUID>`.
pub open spec fn trigger_id_spec(stamp: Seq<char>, uuid: Seq<char>) -> Seq<char> {
    "trg-"@ + stamp + "-"@ + uuid.subrange(0, 7)
}

/// The id of a new Trigger, from its creation stamp (`%Y%m%d-%H%M%S`, UTC)
/// and the text of a fresh UUID, whose first seven characters (ASCII, so
/// seven bytes) it keeps.
pub fn trigger_id(stamp: &str, uuid: &str) -> (r: String)
    requires
        uuid@.len() >= 7,
        forall|i: int| 0 <= i < 7 ==> (#[trigger] uuid@[i] as u32) < 128,
    ensures
        r@ == trigger_id_spec(stamp@, uuid@),
{
    let u = chars_of(uuid);
    let mut out: Vec<char> = Vec::new();
    push_str(&mut out, "trg-");
    push_str(&mut out, stamp);
    push_str(&mut out, "-");
    let mut i: usize = 0;
    while i < 7
        invariant
            i <= 7,
            u@ == uuid@,
            uuid@.len() >= 7,
            out@ == "trg-"@ + stamp@ + "-"@ + uuid@.subrange(0, i as int),
        decreases 7 - i,
    {
        out.push(u[i]);
        assert(uuid@.subrange(0, i + 1) == uuid@.subrange(0, i as int).push(uuid@[i as int]));
        i += 1;
    }
    string_of(&out)
}

} // verus!
