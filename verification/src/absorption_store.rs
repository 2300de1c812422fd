//! Writing absorptions: a Combine on the stored rows, flattened on write.
//!
//! One row per `(dimension, scope, member)`, so a member has exactly one
//! absorbent, and the rows stay one level: a Combine
//!
//! 1. takes the absorbent out of whatever absorbed it;
//! 2. hands every member's own members over to the absorbent;
//! 3. points every member at the absorbent (a member absorbed elsewhere
//!    moves);
//! 4. refreshes the absorbent's name on all its rows, and the scope's name
//!    when one is given.
//!
//! A chain A → B → C therefore always ends as C absorbing A and B.
use vstd::prelude::*;
use crate::absorption::{
    copy_row, in_scope, key_lt, lemma_key_total, lemma_key_transitive, resolve_in, AbsorptionRow, Named, NODE,
    ORIGIN_RENAME, PIPELINE,
};
use crate::text::{lemma_text_lt_asymmetric, lemma_text_lt_total, lemma_text_lt_transitive, str_before, text_lt};
use crate::text::str_eq;

verus! {

broadcast use vstd::string::group_string_axioms;

/// The mathematical value of a stored row.
pub struct RowView {
    pub dimension: Seq<char>,
    pub scope: Seq<char>,
    pub scope_name: Seq<char>,
    pub member: Seq<char>,
    pub member_name: Seq<char>,
    pub absorbent: Seq<char>,
    pub absorbent_name: Seq<char>,
    pub origin: Seq<char>,
    pub created_at: Seq<char>,
}

/// The value of a row.
pub open spec fn rv(r: AbsorptionRow) -> RowView {
    RowView {
        dimension: r.dimension@,
        scope: r.scope@,
        scope_name: r.scope_name@,
        member: r.member@,
        member_name: r.member_name@,
        absorbent: r.absorbent@,
        absorbent_name: r.absorbent_name@,
        origin: r.origin@,
        created_at: r.created_at@,
    }
}

/// The value of stored rows.
pub open spec fn table(t: Seq<AbsorptionRow>) -> Seq<RowView> {
    t.map_values(|r: AbsorptionRow| rv(r))
}

/// The row belongs to scope `s` of dimension `d`.
pub open spec fn in_dim_scope(r: RowView, d: Seq<char>, s: Seq<char>) -> bool {
    r.dimension == d && r.scope == s
}

/// One row per `(dimension, scope, member)`.
pub open spec fn keys_unique(t: Seq<RowView>) -> bool {
    forall|i: int, j: int|
        0 <= i < j < t.len() ==> !(t[i].dimension == t[j].dimension && t[i].scope == t[j].scope && t[i].member
            == t[j].member)
}

/// One level in a scope: no absorbent of the scope is absorbed there.
pub open spec fn flat_in(t: Seq<RowView>, d: Seq<char>, s: Seq<char>) -> bool {
    forall|i: int, j: int|
        0 <= i < t.len() && 0 <= j < t.len() && in_dim_scope(t[i], d, s) && in_dim_scope(t[j], d, s) ==> t[i].absorbent
            != t[j].member
}

/// `m` is absorbed in the scope.
pub open spec fn is_member(t: Seq<RowView>, d: Seq<char>, s: Seq<char>, m: Seq<char>) -> bool {
    exists|i: int| 0 <= i < t.len() && in_dim_scope(t[i], d, s) && #[trigger] t[i].member == m
}

/// `m` is absorbed in the scope by `a`.
pub open spec fn absorbed_by(t: Seq<RowView>, d: Seq<char>, s: Seq<char>, m: Seq<char>, a: Seq<char>) -> bool {
    exists|i: int| 0 <= i < t.len() && in_dim_scope(t[i], d, s) && #[trigger] t[i].member == m && t[i].absorbent == a
}

// ───────────────────────────── the statements ─────────────────────────────

/// Step 1: the rows of the scope whose member is `m` are gone.
pub open spec fn without_member(t: Seq<RowView>, d: Seq<char>, s: Seq<char>, m: Seq<char>) -> Seq<RowView>
    decreases t.len(),
{
    if t.len() == 0 {
        t
    } else {
        let rest = without_member(t.drop_last(), d, s, m);
        if in_dim_scope(t.last(), d, s) && t.last().member == m {
            rest
        } else {
            rest.push(t.last())
        }
    }
}

/// Step 2: the rows of the scope absorbed by `from` are absorbed by `to`.
pub open spec fn repoint_row(r: RowView, d: Seq<char>, s: Seq<char>, from: Seq<char>, to: Seq<char>, to_name: Seq<char>) -> RowView {
    if in_dim_scope(r, d, s) && r.absorbent == from {
        RowView { absorbent: to, absorbent_name: to_name, ..r }
    } else {
        r
    }
}

/// Step 2 on the whole table.
pub open spec fn repointed(t: Seq<RowView>, d: Seq<char>, s: Seq<char>, from: Seq<char>, to: Seq<char>, to_name: Seq<char>) -> Seq<RowView> {
    Seq::new(t.len(), |i: int| repoint_row(t[i], d, s, from, to, to_name))
}

/// The index of the row of `(d, s, m)`, if any (the first).
pub open spec fn key_index(t: Seq<RowView>, d: Seq<char>, s: Seq<char>, m: Seq<char>) -> Option<int>
    decreases t.len(),
{
    if t.len() == 0 {
        None
    } else {
        match key_index(t.drop_last(), d, s, m) {
            Some(i) => Some(i),
            None => if in_dim_scope(t.last(), d, s) && t.last().member == m {
                Some(t.len() - 1)
            } else {
                None
            },
        }
    }
}

/// Step 3: insert the member row, or, when the member already has a row,
/// update its member name, absorbent, origin and creation time (the scope
/// name stays).
pub open spec fn upserted(t: Seq<RowView>, row: RowView) -> Seq<RowView> {
    match key_index(t, row.dimension, row.scope, row.member) {
        Some(i) => t.update(
            i,
            RowView {
                member_name: row.member_name,
                absorbent: row.absorbent,
                absorbent_name: row.absorbent_name,
                origin: row.origin,
                created_at: row.created_at,
                ..t[i]
            },
        ),
        None => t.push(row),
    }
}

/// Step 4: every row of the scope absorbed by `a` shows `a`'s name.
pub open spec fn renamed(t: Seq<RowView>, d: Seq<char>, s: Seq<char>, a: Seq<char>, name: Seq<char>) -> Seq<RowView> {
    Seq::new(
        t.len(),
        |i: int|
            if in_dim_scope(t[i], d, s) && t[i].absorbent == a {
                RowView { absorbent_name: name, ..t[i] }
            } else {
                t[i]
            },
    )
}

/// Step 4, the scope's name: on every row of the scope, when one is given.
pub open spec fn scope_named(t: Seq<RowView>, d: Seq<char>, s: Seq<char>, name: Seq<char>) -> Seq<RowView> {
    if name.len() == 0 {
        t
    } else {
        Seq::new(t.len(), |i: int| if in_dim_scope(t[i], d, s) { RowView { scope_name: name, ..t[i] } } else { t[i] })
    }
}

/// A Combine's parameters.
pub struct CombineSpec {
    pub d: Seq<char>,
    pub s: Seq<char>,
    pub scope_name: Seq<char>,
    pub a: Seq<char>,
    pub a_name: Seq<char>,
    pub origin: Seq<char>,
    pub now: Seq<char>,
}

/// Steps 2 and 3 for the first `n` members.
pub open spec fn members_step(t: Seq<RowView>, c: CombineSpec, ms: Seq<(Seq<char>, Seq<char>)>, n: int) -> Seq<RowView>
    decreases n,
{
    if n <= 0 {
        t
    } else {
        let t1 = members_step(t, c, ms, n - 1);
        let m = ms[n - 1];
        if m.0 == c.a {
            t1
        } else {
            upserted(
                repointed(t1, c.d, c.s, m.0, c.a, c.a_name),
                RowView {
                    dimension: c.d,
                    scope: c.s,
                    scope_name: c.scope_name,
                    member: m.0,
                    member_name: m.1,
                    absorbent: c.a,
                    absorbent_name: c.a_name,
                    origin: c.origin,
                    created_at: c.now,
                },
            )
        }
    }
}

/// The rows after a Combine.
pub open spec fn combined(t: Seq<RowView>, c: CombineSpec, ms: Seq<(Seq<char>, Seq<char>)>) -> Seq<RowView> {
    scope_named(
        renamed(members_step(without_member(t, c.d, c.s, c.a), c, ms, ms.len() as int), c.d, c.s, c.a, c.a_name),
        c.d,
        c.s,
        c.scope_name,
    )
}


// ───────────────────────────── what a Combine keeps ─────────────────────────────

/// `x` is one of the rows of `t`.
pub open spec fn row_of(t: Seq<RowView>, x: RowView) -> bool {
    exists|j: int| 0 <= j < t.len() && #[trigger] t[j] == x
}

/// The same key: dimension, scope, member.
pub open spec fn same_key(x: RowView, y: RowView) -> bool {
    x.dimension == y.dimension && x.scope == y.scope && x.member == y.member
}

/// Step 1 keeps only rows of the table, drops every row of `m` in the
/// scope, and keeps keys unique.
proof fn lemma_without_member(t: Seq<RowView>, d: Seq<char>, s: Seq<char>, m: Seq<char>)
    ensures
        forall|i: int| 0 <= i < without_member(t, d, s, m).len() ==> row_of(t, #[trigger] without_member(t, d, s, m)[i]),
        forall|i: int|
            0 <= i < without_member(t, d, s, m).len() ==> !(in_dim_scope(#[trigger] without_member(t, d, s, m)[i], d, s)
                && without_member(t, d, s, m)[i].member == m),
        keys_unique(t) ==> keys_unique(without_member(t, d, s, m)),
    decreases t.len(),
{
    if t.len() > 0 {
        let p = t.drop_last();
        lemma_without_member(p, d, s, m);
        let rest = without_member(p, d, s, m);
        let r = without_member(t, d, s, m);
        assert forall|i: int| 0 <= i < r.len() implies row_of(t, #[trigger] r[i]) by {
            if i < rest.len() {
                assert(r[i] == rest[i]);
                assert(row_of(p, rest[i]));
                let j = choose|j: int| 0 <= j < p.len() && #[trigger] p[j] == rest[i];
                assert(t[j] == p[j]);
            } else {
                assert(r[i] == t[t.len() - 1]);
            }
        }
        if keys_unique(t) {
            assert(keys_unique(p)) by {
                assert forall|i: int, j: int| 0 <= i < j < p.len() implies !(p[i].dimension == p[j].dimension
                    && p[i].scope == p[j].scope && p[i].member == p[j].member) by {
                    assert(p[i] == t[i] && p[j] == t[j]);
                }
            }
            assert forall|i: int, j: int| 0 <= i < j < r.len() implies !(r[i].dimension == r[j].dimension
                && r[i].scope == r[j].scope && r[i].member == r[j].member) by {
                if j < rest.len() {
                    assert(r[i] == rest[i] && r[j] == rest[j]);
                } else {
                    assert(r[i] == rest[i]);
                    assert(r[j] == t.last());
                    assert(row_of(p, rest[i]));
                    let q = choose|q: int| 0 <= q < p.len() && #[trigger] p[q] == rest[i];
                    assert(t[q] == p[q]);
                    assert(!same_key(t[q], t[t.len() - 1]));
                }
            }
        }
    }
}

/// The invariant of the member steps: keys unique, the absorbent absorbed
/// nowhere in the scope, and, when asked, one level.
pub open spec fn step_inv(t: Seq<RowView>, c: CombineSpec, flat: bool) -> bool {
    &&& keys_unique(t)
    &&& !is_member(t, c.d, c.s, c.a)
    &&& flat ==> flat_in(t, c.d, c.s)
}

/// One member step keeps the invariant, absorbs the member, and keeps the
/// members already absorbed.
proof fn lemma_member_step(t: Seq<RowView>, c: CombineSpec, m: (Seq<char>, Seq<char>), flat: bool)
    requires
        step_inv(t, c, flat),
        m.0 != c.a,
    ensures
        ({
            let row = RowView {
                dimension: c.d,
                scope: c.s,
                scope_name: c.scope_name,
                member: m.0,
                member_name: m.1,
                absorbent: c.a,
                absorbent_name: c.a_name,
                origin: c.origin,
                created_at: c.now,
            };
            let t2 = upserted(repointed(t, c.d, c.s, m.0, c.a, c.a_name), row);
            &&& step_inv(t2, c, flat)
            &&& absorbed_by(t2, c.d, c.s, m.0, c.a)
            &&& forall|k: Seq<char>| absorbed_by(t, c.d, c.s, k, c.a) ==> #[trigger] absorbed_by(t2, c.d, c.s, k, c.a)
        }),
{
    let row = RowView {
        dimension: c.d,
        scope: c.s,
        scope_name: c.scope_name,
        member: m.0,
        member_name: m.1,
        absorbent: c.a,
        absorbent_name: c.a_name,
        origin: c.origin,
        created_at: c.now,
    };
    let t1 = repointed(t, c.d, c.s, m.0, c.a, c.a_name);
    let t2 = upserted(t1, row);
    assert forall|i: int| 0 <= i < t1.len() implies same_key(#[trigger] t1[i], t[i]) && (t1[i].absorbent == t[i].absorbent
        || t1[i].absorbent == c.a) && (in_dim_scope(t[i], c.d, c.s) && t[i].absorbent == m.0 ==> t1[i].absorbent
        == c.a) && (t[i].absorbent == c.a ==> t1[i].absorbent == c.a) by {}
    lemma_key_index(t1, c.d, c.s, m.0);
    match key_index(t1, c.d, c.s, m.0) {
        Some(x) => {
            assert forall|i: int| 0 <= i < t2.len() implies same_key(#[trigger] t2[i], t1[i]) && (i != x ==> t2[i]
                == t1[i]) && (i == x ==> t2[i].absorbent == c.a) by {}
            assert(t2[x].member == m.0 && in_dim_scope(t2[x], c.d, c.s) && t2[x].absorbent == c.a);
        },
        None => {
            assert(t2 == t1.push(row));
            assert(t2[t1.len() as int] == row);
        },
    }
    // Keys stay unique.
    assert forall|i: int, j: int| 0 <= i < j < t2.len() implies !(t2[i].dimension == t2[j].dimension
        && t2[i].scope == t2[j].scope && t2[i].member == t2[j].member) by {
        if j < t1.len() {
            assert(same_key(t2[i], t1[i]) && same_key(t2[j], t1[j]));
            assert(same_key(t1[i], t[i]) && same_key(t1[j], t[j]));
        } else {
            assert(key_index(t1, c.d, c.s, m.0) is None);
            assert(t2[j] == row);
            assert(t2[i] == t1[i]);
        }
    }
    // The absorbent is absorbed nowhere in the scope.
    if is_member(t2, c.d, c.s, c.a) {
        let i = choose|i: int| 0 <= i < t2.len() && in_dim_scope(t2[i], c.d, c.s) && #[trigger] t2[i].member == c.a;
        if i < t1.len() {
            assert(same_key(t2[i], t1[i]) && same_key(t1[i], t[i]));
            assert(is_member(t, c.d, c.s, c.a));
        }
    }
    // The member is absorbed by the absorbent.
    match key_index(t1, c.d, c.s, m.0) {
        Some(x) => {
            assert(absorbed_by(t2, c.d, c.s, m.0, c.a));
        },
        None => {
            assert(t2[t1.len() as int].member == m.0);
            assert(absorbed_by(t2, c.d, c.s, m.0, c.a));
        },
    }
    // Members already absorbed stay so.
    assert forall|k: Seq<char>| absorbed_by(t, c.d, c.s, k, c.a) implies #[trigger] absorbed_by(t2, c.d, c.s, k, c.a) by {
        let i = choose|i: int| 0 <= i < t.len() && in_dim_scope(t[i], c.d, c.s) && #[trigger] t[i].member == k && t[i].absorbent == c.a;
        assert(t1[i].absorbent == c.a);
        if key_index(t1, c.d, c.s, m.0) == Some(i) {
            assert(t2[i].absorbent == c.a);
        } else {
            assert(t2[i] == t1[i]);
        }
        assert(t2[i].member == k && in_dim_scope(t2[i], c.d, c.s));
    }
    // One level.
    if flat {
        assert forall|i: int, j: int|
            0 <= i < t2.len() && 0 <= j < t2.len() && in_dim_scope(t2[i], c.d, c.s) && in_dim_scope(t2[j], c.d, c.s)
                implies t2[i].absorbent != t2[j].member by {
            // No row's member is the absorbent.
            assert(!(t2[j].member == c.a)) by {
                if t2[j].member == c.a {
                    assert(is_member(t2, c.d, c.s, c.a));
                }
            }
            if t2[i].absorbent != c.a {
                // Row i is an old row, untouched by the repoint.
                assert(i < t1.len()) by {
                    if i >= t1.len() {
                        assert(t2[i] == row);
                    }
                }
                if key_index(t1, c.d, c.s, m.0) == Some(i) {
                    assert(t2[i].absorbent == c.a);
                }
                assert(t2[i] == t1[i]);
                assert(t1[i].absorbent == t[i].absorbent);
                assert(t[i].absorbent != m.0);
                if j < t1.len() {
                    assert(same_key(t2[j], t1[j]) && same_key(t1[j], t[j]));
                    assert(t[i].absorbent != t[j].member);
                } else {
                    assert(t2[j] == row);
                }
            }
        }
    }
}

/// Where `key_index` points: a row of the key, the first one.
proof fn lemma_key_index(t: Seq<RowView>, d: Seq<char>, s: Seq<char>, m: Seq<char>)
    ensures
        key_index(t, d, s, m) matches Some(x) ==> 0 <= x < t.len() && in_dim_scope(t[x], d, s) && t[x].member == m,
        key_index(t, d, s, m) is None ==> forall|i: int| 0 <= i < t.len() ==> !(in_dim_scope(#[trigger] t[i], d, s)
            && t[i].member == m),
    decreases t.len(),
{
    if t.len() > 0 {
        lemma_key_index(t.drop_last(), d, s, m);
        assert forall|i: int| 0 <= i < t.len() - 1 implies t.drop_last()[i] == #[trigger] t[i] by {}
    }
}

/// The member steps keep the invariant and leave every member but the
/// absorbent absorbed by it.
proof fn lemma_members_step(t: Seq<RowView>, c: CombineSpec, ms: Seq<(Seq<char>, Seq<char>)>, n: int, flat: bool)
    requires
        step_inv(t, c, flat),
        0 <= n <= ms.len(),
    ensures
        step_inv(members_step(t, c, ms, n), c, flat),
        forall|k: int| 0 <= k < n && (#[trigger] ms[k]).0 != c.a ==> absorbed_by(members_step(t, c, ms, n), c.d, c.s, ms[k].0, c.a),
    decreases n,
{
    if n > 0 {
        lemma_members_step(t, c, ms, n - 1, flat);
        let t1 = members_step(t, c, ms, n - 1);
        if ms[n - 1].0 != c.a {
            lemma_member_step(t1, c, ms[n - 1], flat);
            assert forall|k: int| 0 <= k < n && (#[trigger] ms[k]).0 != c.a implies absorbed_by(
                members_step(t, c, ms, n),
                c.d,
                c.s,
                ms[k].0,
                c.a,
            ) by {
                if k < n - 1 {
                    assert(absorbed_by(t1, c.d, c.s, ms[k].0, c.a));
                }
            }
        }
    }
}

/// A Combine leaves one row per `(dimension, scope, member)`, so a member
/// has exactly one absorbent; it takes the absorbent out of whatever
/// absorbed it, and points every other member at the absorbent.
pub proof fn law_combine_points_every_member_at_the_absorbent(
    t: Seq<RowView>,
    c: CombineSpec,
    ms: Seq<(Seq<char>, Seq<char>)>,
)
    requires
        keys_unique(t),
    ensures
        keys_unique(combined(t, c, ms)),
        !is_member(combined(t, c, ms), c.d, c.s, c.a),
        forall|k: int|
            0 <= k < ms.len() && (#[trigger] ms[k]).0 != c.a ==> absorbed_by(combined(t, c, ms), c.d, c.s, ms[k].0, c.a),
{
    lemma_combine(t, c, ms, false);
}

/// A Combine keeps a scope one level: when no absorbent of the scope was
/// absorbed there before, none is after.
pub proof fn law_combine_stays_one_level(t: Seq<RowView>, c: CombineSpec, ms: Seq<(Seq<char>, Seq<char>)>)
    requires
        keys_unique(t),
        flat_in(t, c.d, c.s),
    ensures
        flat_in(combined(t, c, ms), c.d, c.s),
{
    lemma_combine(t, c, ms, true);
}

/// The whole Combine, with or without the one-level invariant.
proof fn lemma_combine(t: Seq<RowView>, c: CombineSpec, ms: Seq<(Seq<char>, Seq<char>)>, flat: bool)
    requires
        keys_unique(t),
        flat ==> flat_in(t, c.d, c.s),
    ensures
        step_inv(combined(t, c, ms), c, flat),
        forall|k: int|
            0 <= k < ms.len() && (#[trigger] ms[k]).0 != c.a ==> absorbed_by(combined(t, c, ms), c.d, c.s, ms[k].0, c.a),
{
    let t0 = without_member(t, c.d, c.s, c.a);
    lemma_without_member(t, c.d, c.s, c.a);
    assert(!is_member(t0, c.d, c.s, c.a)) by {
        if is_member(t0, c.d, c.s, c.a) {
            let i = choose|i: int| 0 <= i < t0.len() && in_dim_scope(t0[i], c.d, c.s) && #[trigger] t0[i].member == c.a;
        }
    }
    if flat {
        assert forall|i: int, j: int|
            0 <= i < t0.len() && 0 <= j < t0.len() && in_dim_scope(t0[i], c.d, c.s) && in_dim_scope(t0[j], c.d, c.s)
                implies t0[i].absorbent != t0[j].member by {
            assert(row_of(t, t0[i]) && row_of(t, t0[j]));
            let x = choose|x: int| 0 <= x < t.len() && #[trigger] t[x] == t0[i];
            let y = choose|y: int| 0 <= y < t.len() && #[trigger] t[y] == t0[j];
        }
    }
    let n = ms.len() as int;
    lemma_members_step(t0, c, ms, n, flat);
    let t1 = members_step(t0, c, ms, n);
    let t2 = renamed(t1, c.d, c.s, c.a, c.a_name);
    let t3 = scope_named(t2, c.d, c.s, c.scope_name);
    assert forall|i: int| 0 <= i < t2.len() implies same_key(#[trigger] t2[i], t1[i]) && t2[i].absorbent == t1[i].absorbent by {}
    assert forall|i: int| 0 <= i < t3.len() implies same_key(#[trigger] t3[i], t2[i]) && t3[i].absorbent == t2[i].absorbent by {}
    assert(keys_unique(t3)) by {
        assert forall|i: int, j: int| 0 <= i < j < t3.len() implies !(t3[i].dimension == t3[j].dimension
            && t3[i].scope == t3[j].scope && t3[i].member == t3[j].member) by {
            assert(same_key(t3[i], t2[i]) && same_key(t2[i], t1[i]));
            assert(same_key(t3[j], t2[j]) && same_key(t2[j], t1[j]));
        }
    }
    assert(!is_member(t3, c.d, c.s, c.a)) by {
        if is_member(t3, c.d, c.s, c.a) {
            let i = choose|i: int| 0 <= i < t3.len() && in_dim_scope(t3[i], c.d, c.s) && #[trigger] t3[i].member == c.a;
            assert(same_key(t3[i], t2[i]) && same_key(t2[i], t1[i]));
            assert(is_member(t1, c.d, c.s, c.a));
        }
    }
    if flat {
        assert forall|i: int, j: int|
            0 <= i < t3.len() && 0 <= j < t3.len() && in_dim_scope(t3[i], c.d, c.s) && in_dim_scope(t3[j], c.d, c.s)
                implies t3[i].absorbent != t3[j].member by {
            assert(same_key(t3[i], t2[i]) && same_key(t2[i], t1[i]));
            assert(same_key(t3[j], t2[j]) && same_key(t2[j], t1[j]));
        }
    }
    assert forall|k: int| 0 <= k < ms.len() && (#[trigger] ms[k]).0 != c.a implies absorbed_by(t3, c.d, c.s, ms[k].0, c.a) by {
        assert(absorbed_by(t1, c.d, c.s, ms[k].0, c.a));
        let i = choose|i: int| 0 <= i < t1.len() && in_dim_scope(t1[i], c.d, c.s) && #[trigger] t1[i].member == ms[k].0
            && t1[i].absorbent == c.a;
        assert(same_key(t3[i], t2[i]) && same_key(t2[i], t1[i]));
        assert(t3[i].member == ms[k].0);
    }
}


// ───────────────────────────── execution ─────────────────────────────

/// Whether a row belongs to scope `s` of dimension `d`.
fn row_in(r: &AbsorptionRow, d: &str, s: &str) -> (b: bool)
    ensures
        b == in_dim_scope(rv(*r), d@, s@),
{
    str_eq(r.dimension.as_str(), d) && str_eq(r.scope.as_str(), s)
}

/// Step 1.
fn delete_member(rows: &mut Vec<AbsorptionRow>, d: &str, s: &str, m: &str)
    ensures
        table(final(rows)@) == without_member(table(old(rows)@), d@, s@, m@),
{
    let mut kept: Vec<AbsorptionRow> = Vec::new();
    let mut i: usize = 0;
    while i < rows.len()
        invariant
            i <= rows@.len(),
            rows@ == old(rows)@,
            table(kept@) == without_member(table(rows@.take(i as int)), d@, s@, m@),
        decreases rows.len() - i,
    {
        let ghost tk = table(rows@.take(i + 1));
        assert(tk.drop_last() =~= table(rows@.take(i as int)));
        assert(tk.last() == rv(rows@[i as int]));
        if !(row_in(&rows[i], d, s) && str_eq(rows[i].member.as_str(), m)) {
            let ghost before = kept@;
            kept.push(copy_row(&rows[i]));
            assert(table(kept@) =~= table(before).push(rv(rows@[i as int])));
        }
        i += 1;
    }
    assert(rows@.take(i as int) =~= rows@);
    *rows = kept;
}

/// Step 2 for one member.
fn repoint(rows: &mut Vec<AbsorptionRow>, d: &str, s: &str, from: &str, to: &Named)
    ensures
        table(final(rows)@) == repointed(table(old(rows)@), d@, s@, from@, to.key@, to.name@),
{
    let ghost t0 = table(rows@);
    let mut i: usize = 0;
    while i < rows.len()
        invariant
            i <= rows@.len(),
            rows@.len() == t0.len(),
            t0 == table(old(rows)@),
            forall|k: int| 0 <= k < i ==> rv(#[trigger] rows@[k]) == repoint_row(t0[k], d@, s@, from@, to.key@, to.name@),
            forall|k: int| i <= k < rows@.len() ==> rv(#[trigger] rows@[k]) == t0[k],
        decreases rows.len() - i,
    {
        if row_in(&rows[i], d, s) && str_eq(rows[i].absorbent.as_str(), from) {
            let mut r = copy_row(&rows[i]);
            r.absorbent = to.key.clone();
            r.absorbent_name = to.name.clone();
            rows.set(i, r);
        }
        i += 1;
    }
    assert(table(rows@) =~= repointed(t0, d@, s@, from@, to.key@, to.name@));
}

/// Step 3 for one member.
fn upsert(rows: &mut Vec<AbsorptionRow>, row: AbsorptionRow)
    ensures
        table(final(rows)@) == upserted(table(old(rows)@), rv(row)),
{
    let ghost t0 = table(rows@);
    let mut i: usize = 0;
    while i < rows.len()
        invariant
            i <= rows@.len(),
            rows@ == old(rows)@,
            t0 == table(rows@),
            key_index(t0.take(i as int), row.dimension@, row.scope@, row.member@) is None,
        decreases rows.len() - i,
    {
        assert(t0.take(i + 1).drop_last() =~= t0.take(i as int));
        if row_in(&rows[i], row.dimension.as_str(), row.scope.as_str()) && str_eq(rows[i].member.as_str(), row.member.as_str()) {
            proof {
                lemma_key_index_prefix(t0, row.dimension@, row.scope@, row.member@, i as int);
            }
            let mut r = copy_row(&rows[i]);
            r.member_name = row.member_name;
            r.absorbent = row.absorbent;
            r.absorbent_name = row.absorbent_name;
            r.origin = row.origin;
            r.created_at = row.created_at;
            rows.set(i, r);
            assert(table(rows@) =~= upserted(t0, rv(row)));
            return;
        }
        i += 1;
    }
    assert(t0.take(i as int) =~= t0);
    let ghost rw = rv(row);
    rows.push(row);
    assert(table(rows@) =~= t0.push(rw));
}

/// The first row of a key found at `i`, no row of it before: `key_index`
/// is `i`.
proof fn lemma_key_index_prefix(t: Seq<RowView>, d: Seq<char>, s: Seq<char>, m: Seq<char>, i: int)
    requires
        0 <= i < t.len(),
        key_index(t.take(i), d, s, m) is None,
        in_dim_scope(t[i], d, s) && t[i].member == m,
    ensures
        key_index(t, d, s, m) == Some(i),
    decreases t.len(),
{
    if i == t.len() - 1 {
        assert(t.drop_last() =~= t.take(i));
    } else {
        assert(t.drop_last().take(i) =~= t.take(i));
        lemma_key_index_prefix(t.drop_last(), d, s, m, i);
    }
}

/// Step 4: the absorbent's name on all its rows.
fn rename_absorbent(rows: &mut Vec<AbsorptionRow>, d: &str, s: &str, a: &Named)
    ensures
        table(final(rows)@) == renamed(table(old(rows)@), d@, s@, a.key@, a.name@),
{
    let ghost t0 = table(rows@);
    let mut i: usize = 0;
    while i < rows.len()
        invariant
            i <= rows@.len(),
            rows@.len() == t0.len(),
            t0 == table(old(rows)@),
            forall|k: int|
                0 <= k < i ==> rv(#[trigger] rows@[k]) == (if in_dim_scope(t0[k], d@, s@) && t0[k].absorbent == a.key@ {
                    RowView { absorbent_name: a.name@, ..t0[k] }
                } else {
                    t0[k]
                }),
            forall|k: int| i <= k < rows@.len() ==> rv(#[trigger] rows@[k]) == t0[k],
        decreases rows.len() - i,
    {
        if row_in(&rows[i], d, s) && str_eq(rows[i].absorbent.as_str(), a.key.as_str()) {
            let mut r = copy_row(&rows[i]);
            r.absorbent_name = a.name.clone();
            rows.set(i, r);
        }
        i += 1;
    }
    assert(table(rows@) =~= renamed(t0, d@, s@, a.key@, a.name@));
}

/// Step 4: the scope's name on every row of the scope, when one is given.
fn name_scope(rows: &mut Vec<AbsorptionRow>, d: &str, s: &str, name: &str)
    ensures
        table(final(rows)@) == scope_named(table(old(rows)@), d@, s@, name@),
{
    if crate::text::chars_of(name).len() == 0 {
        return;
    }
    let ghost t0 = table(rows@);
    let mut i: usize = 0;
    while i < rows.len()
        invariant
            i <= rows@.len(),
            rows@.len() == t0.len(),
            t0 == table(old(rows)@),
            name@.len() > 0,
            forall|k: int|
                0 <= k < i ==> rv(#[trigger] rows@[k]) == (if in_dim_scope(t0[k], d@, s@) {
                    RowView { scope_name: name@, ..t0[k] }
                } else {
                    t0[k]
                }),
            forall|k: int| i <= k < rows@.len() ==> rv(#[trigger] rows@[k]) == t0[k],
        decreases rows.len() - i,
    {
        if row_in(&rows[i], d, s) {
            let mut r = copy_row(&rows[i]);
            r.scope_name = name.to_owned();
            rows.set(i, r);
        }
        i += 1;
    }
    assert(table(rows@) =~= scope_named(t0, d@, s@, name@));
}

/// The key and name of every member.
pub open spec fn named_pairs(ms: Seq<Named>) -> Seq<(Seq<char>, Seq<char>)> {
    ms.map_values(|n: Named| (n.key@, n.name@))
}

/// Create or extend an absorption in scope `scope` of `dimension`,
/// flattened on write.
pub fn combine_rows(
    rows: &mut Vec<AbsorptionRow>,
    dimension: &str,
    scope: &str,
    scope_name: &str,
    absorbent: &Named,
    members: &[Named],
    origin: &str,
    now: &str,
)
    ensures
        table(final(rows)@) == combined(
            table(old(rows)@),
            CombineSpec {
                d: dimension@,
                s: scope@,
                scope_name: scope_name@,
                a: absorbent.key@,
                a_name: absorbent.name@,
                origin: origin@,
                now: now@,
            },
            named_pairs(members@),
        ),
{
    let ghost c = CombineSpec {
        d: dimension@,
        s: scope@,
        scope_name: scope_name@,
        a: absorbent.key@,
        a_name: absorbent.name@,
        origin: origin@,
        now: now@,
    };
    let ghost ms = named_pairs(members@);
    delete_member(rows, dimension, scope, absorbent.key.as_str());
    let ghost t0 = table(rows@);
    let mut k: usize = 0;
    while k < members.len()
        invariant
            k <= members@.len(),
            ms == named_pairs(members@),
            c.d == dimension@ && c.s == scope@ && c.scope_name == scope_name@ && c.a == absorbent.key@ && c.a_name
                == absorbent.name@ && c.origin == origin@ && c.now == now@,
            table(rows@) == members_step(t0, c, ms, k as int),
        decreases members.len() - k,
    {
        let m = &members[k];
        assert(ms[k as int] == (m.key@, m.name@));
        if !str_eq(m.key.as_str(), absorbent.key.as_str()) {
            repoint(rows, dimension, scope, m.key.as_str(), absorbent);
            let row = AbsorptionRow {
                dimension: dimension.to_owned(),
                scope: scope.to_owned(),
                scope_name: scope_name.to_owned(),
                member: m.key.clone(),
                member_name: m.name.clone(),
                absorbent: absorbent.key.clone(),
                absorbent_name: absorbent.name.clone(),
                origin: origin.to_owned(),
                created_at: now.to_owned(),
            };
            upsert(rows, row);
        }
        k += 1;
    }
    rename_absorbent(rows, dimension, scope, absorbent);
    name_scope(rows, dimension, scope, scope_name);
}


// ───────────────────────────── reading what was written ─────────────────────────────

/// What resolving reads: the absorbent of a row of the key, or the key
/// itself when no row absorbs it.
proof fn lemma_resolve_cases(rows: Seq<AbsorptionRow>, d: Seq<char>, s: Seq<char>, key: Seq<char>)
    ensures
        (resolve_in(rows, d, Some(s), key) == key && forall|i: int|
            0 <= i < rows.len() ==> !(in_scope(#[trigger] rows[i], d, Some(s)) && rows[i].member@ == key)) || exists|i: int|
            0 <= i < rows.len() && in_scope(#[trigger] rows[i], d, Some(s)) && rows[i].member@ == key
                && rows[i].absorbent@ == resolve_in(rows, d, Some(s), key),
    decreases rows.len(),
{
    if rows.len() > 0 {
        let p = rows.drop_last();
        lemma_resolve_cases(p, d, s, key);
        let last = rows.len() - 1;
        assert(rows.last() == rows[last]);
        if in_scope(rows[last], d, Some(s)) && rows[last].member@ == key {
            assert(rows[last].absorbent@ == resolve_in(rows, d, Some(s), key));
        } else {
            assert(resolve_in(rows, d, Some(s), key) == resolve_in(p, d, Some(s), key));
            if exists|i: int|
                0 <= i < p.len() && in_scope(#[trigger] p[i], d, Some(s)) && p[i].member@ == key && p[i].absorbent@
                    == resolve_in(p, d, Some(s), key) {
                let i = choose|i: int|
                    0 <= i < p.len() && in_scope(#[trigger] p[i], d, Some(s)) && p[i].member@ == key && p[i].absorbent@
                        == resolve_in(p, d, Some(s), key);
                assert(rows[i] == p[i]);
            } else {
                assert forall|i: int| 0 <= i < rows.len() implies !(in_scope(#[trigger] rows[i], d, Some(s))
                    && rows[i].member@ == key) by {
                    if i < p.len() {
                        assert(rows[i] == p[i]);
                    }
                }
            }
        }
    }
}

/// The stored rows being one level, the read never resolves anything
/// transitively: the key a key resolves to resolves to itself.
pub proof fn law_flat_rows_resolve_in_one_step(rows: Seq<AbsorptionRow>, d: Seq<char>, s: Seq<char>, key: Seq<char>)
    requires
        flat_in(table(rows), d, s),
    ensures
        resolve_in(rows, d, Some(s), resolve_in(rows, d, Some(s), key)) == resolve_in(rows, d, Some(s), key),
{
    let t = table(rows);
    let r = resolve_in(rows, d, Some(s), key);
    lemma_resolve_cases(rows, d, s, key);
    lemma_resolve_cases(rows, d, s, r);
    if r != key {
        let i = choose|i: int|
            0 <= i < rows.len() && in_scope(#[trigger] rows[i], d, Some(s)) && rows[i].member@ == key
                && rows[i].absorbent@ == r;
        if exists|j: int| 0 <= j < rows.len() && in_scope(#[trigger] rows[j], d, Some(s)) && rows[j].member@ == r {
            let j = choose|j: int| 0 <= j < rows.len() && in_scope(#[trigger] rows[j], d, Some(s)) && rows[j].member@ == r;
            assert(t[i] == rv(rows[i]) && t[j] == rv(rows[j]));
            assert(t[i].absorbent != t[j].member);
        }
    }
}


// ───────────────────────────── carrying Node absorptions ─────────────────────────────

/// The rows of scope `s` of dimension `d`, in table order.
pub open spec fn scope_rows(t: Seq<RowView>, d: Seq<char>, s: Seq<char>) -> Seq<RowView>
    decreases t.len(),
{
    if t.len() == 0 {
        t
    } else {
        let rest = scope_rows(t.drop_last(), d, s);
        if in_dim_scope(t.last(), d, s) {
            rest.push(t.last())
        } else {
            rest
        }
    }
}

/// The order Node rows are carried in: by absorbent, its name, creation
/// time, then member.
pub open spec fn carry_before(a: RowView, b: RowView) -> bool {
    key_lt((a.absorbent, a.absorbent_name, a.created_at), (b.absorbent, b.absorbent_name, b.created_at)) || (
    (a.absorbent, a.absorbent_name, a.created_at) == (b.absorbent, b.absorbent_name, b.created_at) && text_lt(
        a.member,
        b.member,
    ))
}

/// Rows in carrying order.
pub open spec fn in_carry_order(s: Seq<RowView>) -> bool {
    forall|i: int, j: int| 0 <= i < j < s.len() ==> !carry_before(s[j], s[i])
}

/// Of two rows, one does not come before the other; not coming after is
/// transitive.
proof fn lemma_carry_order(a: RowView, b: RowView, c: RowView)
    ensures
        !carry_before(a, b) || !carry_before(b, a),
        !carry_before(a, b) && !carry_before(b, a) ==> (a.absorbent, a.absorbent_name, a.created_at) == (
        b.absorbent,
        b.absorbent_name,
        b.created_at,
        ) && a.member == b.member,
        !carry_before(b, a) && !carry_before(c, b) ==> !carry_before(c, a),
{
    let ka = (a.absorbent, a.absorbent_name, a.created_at);
    let kb = (b.absorbent, b.absorbent_name, b.created_at);
    let kc = (c.absorbent, c.absorbent_name, c.created_at);
    lemma_key_total(ka, kb);
    lemma_key_total(kb, kc);
    lemma_key_total(ka, kc);
    lemma_text_lt_asymmetric(a.member, b.member);
    lemma_text_lt_total(a.member, b.member);
    lemma_text_lt_total(b.member, c.member);
    lemma_text_lt_total(a.member, c.member);
    if !carry_before(b, a) && !carry_before(c, b) && carry_before(c, a) {
        if key_lt(kc, ka) {
            if key_lt(ka, kb) {
                lemma_key_transitive(kc, ka, kb);
            }
            if ka == kb {
                assert(key_lt(kc, kb));
            }
            if key_lt(kb, kc) {
                lemma_key_transitive(kb, kc, ka);
                lemma_key_total(kb, ka);
            }
        } else {
            if text_lt(a.member, b.member) {
                lemma_text_lt_transitive(c.member, a.member, b.member);
            }
            if text_lt(b.member, c.member) {
                lemma_text_lt_transitive(b.member, c.member, a.member);
                lemma_text_lt_asymmetric(b.member, a.member);
            }
            lemma_text_lt_asymmetric(c.member, a.member);
        }
    }
}

/// Whether `a` comes before `b` in carrying order.
fn carry_before_exec(a: &AbsorptionRow, b: &AbsorptionRow) -> (r: bool)
    ensures
        r == carry_before(rv(*a), rv(*b)),
{
    if str_before(a.absorbent.as_str(), b.absorbent.as_str()) {
        return true;
    }
    if !str_eq(a.absorbent.as_str(), b.absorbent.as_str()) {
        return false;
    }
    if str_before(a.absorbent_name.as_str(), b.absorbent_name.as_str()) {
        return true;
    }
    if !str_eq(a.absorbent_name.as_str(), b.absorbent_name.as_str()) {
        return false;
    }
    if str_before(a.created_at.as_str(), b.created_at.as_str()) {
        return true;
    }
    str_eq(a.created_at.as_str(), b.created_at.as_str()) && str_before(a.member.as_str(), b.member.as_str())
}

/// The Node rows of scope `from`, in carrying order.
fn moved_rows(rows: &Vec<AbsorptionRow>, from: &str) -> (r: Vec<AbsorptionRow>)
    ensures
        table(r@).to_multiset() == scope_rows(table(rows@), NODE@, from@).to_multiset(),
        in_carry_order(table(r@)),
{
    broadcast use vstd::seq_lib::group_to_multiset_ensures;
    broadcast use vstd::multiset::group_multiset_axioms;

    let mut out: Vec<AbsorptionRow> = Vec::new();
    let mut k: usize = 0;
    while k < rows.len()
        invariant
            k <= rows@.len(),
            table(out@).to_multiset() == scope_rows(table(rows@.take(k as int)), NODE@, from@).to_multiset(),
            in_carry_order(table(out@)),
        decreases rows.len() - k,
    {
        let ghost tk = table(rows@.take(k + 1));
        assert(tk.drop_last() =~= table(rows@.take(k as int)));
        assert(tk.last() == rv(rows@[k as int]));
        if row_in(&rows[k], NODE, from) {
            let x = copy_row(&rows[k]);
            let ghost xv = rv(x);
            let mut j: usize = 0;
            while j < out.len() && !carry_before_exec(&x, &out[j])
                invariant
                    j <= out@.len(),
                    forall|m: int| 0 <= m < j ==> !carry_before(xv, #[trigger] table(out@)[m]),
                    xv == rv(x),
                decreases out.len() - j,
            {
                assert(table(out@)[j as int] == rv(out@[j as int]));
                j += 1;
            }
            let ghost o = table(out@);
            out.insert(j, x);
            proof {
                assert(table(out@) =~= o.insert(j as int, xv));
                vstd::seq_lib::to_multiset_insert(o, j as int, xv);
                assert(scope_rows(tk, NODE@, from@) =~= scope_rows(table(rows@.take(k as int)), NODE@, from@).push(xv));
                vstd::seq_lib::to_multiset_build(scope_rows(table(rows@.take(k as int)), NODE@, from@), xv);
                let n = table(out@);
                assert forall|a: int, b: int| 0 <= a < b < n.len() implies !carry_before(n[b], n[a]) by {
                    if b < j {
                        assert(n[a] == o[a] && n[b] == o[b]);
                    } else if b == j {
                        assert(n[a] == o[a]);
                        lemma_carry_order(xv, o[a], o[a]);
                    } else if a == j {
                        assert(n[b] == o[b - 1]);
                        lemma_carry_order(xv, o[j as int], o[j as int]);
                        if b - 1 > j {
                            lemma_carry_order(xv, o[j as int], o[b - 1]);
                        }
                    } else if a < j {
                        assert(n[a] == o[a] && n[b] == o[b - 1]);
                        lemma_carry_order(xv, o[a], o[a]);
                        lemma_carry_order(xv, o[j as int], o[j as int]);
                        lemma_carry_order(o[a], xv, o[j as int]);
                        if b - 1 > j {
                            lemma_carry_order(o[a], o[j as int], o[b - 1]);
                        }
                    } else {
                        assert(n[a] == o[a - 1] && n[b] == o[b - 1]);
                    }
                }
            }
        } else {
            assert(scope_rows(tk, NODE@, from@) =~= scope_rows(table(rows@.take(k as int)), NODE@, from@));
        }
        k += 1;
    }
    assert(rows@.take(k as int) =~= rows@);
    out
}


/// The rows of scope `s` of dimension `d` are gone.
pub open spec fn without_scope(t: Seq<RowView>, d: Seq<char>, s: Seq<char>) -> Seq<RowView>
    decreases t.len(),
{
    if t.len() == 0 {
        t
    } else {
        let rest = without_scope(t.drop_last(), d, s);
        if in_dim_scope(t.last(), d, s) {
            rest
        } else {
            rest.push(t.last())
        }
    }
}

/// The absorbent a group of carried rows joins under `to`: the absorbent of
/// the group's absorbent when `to`'s scope already absorbs it, else the
/// group's own.
pub open spec fn carried_absorbent(snap: Seq<RowView>, to: Seq<char>, ak: Seq<char>, an: Seq<char>) -> (Seq<char>, Seq<char>) {
    match key_index(snap, NODE@, to, ak) {
        Some(i) => (snap[i].absorbent, snap[i].absorbent_name),
        None => (ak, an),
    }
}

/// Two carried rows of the same group: same absorbent, same name.
pub open spec fn same_group(a: RowView, b: RowView) -> bool {
    a.absorbent == b.absorbent && a.absorbent_name == b.absorbent_name
}

/// The table after carrying the first `n` rows of `order`, with the
/// snapshot of `to`'s scope taken when the current group began.
pub open spec fn carry_fold(
    t0: Seq<RowView>,
    order: Seq<RowView>,
    to: Seq<char>,
    to_name: Seq<char>,
    now: Seq<char>,
    n: int,
) -> (Seq<RowView>, Seq<RowView>)
    decreases n,
{
    if n <= 0 {
        (t0, t0)
    } else {
        let prev = carry_fold(t0, order, to, to_name, now, n - 1);
        let x = order[n - 1];
        let snap = if n - 1 == 0 || !same_group(order[n - 2], x) {
            prev.0
        } else {
            prev.1
        };
        let abs = carried_absorbent(snap, to, x.absorbent, x.absorbent_name);
        if x.member == abs.0 || is_member(snap, NODE@, to, x.member) {
            (prev.0, snap)
        } else {
            (
                combined(
                    prev.0,
                    CombineSpec { d: NODE@, s: to, scope_name: to_name, a: abs.0, a_name: abs.1, origin: x.origin, now },
                    seq![(x.member, x.member_name)],
                ),
                snap,
            )
        }
    }
}

/// The table after a Pipeline `from` joined `to`: `from`'s Node
/// absorptions, taken in `order`, move under `to`. What `to`'s scope
/// already says wins: a Node it already absorbs stays where it is, and a
/// moved absorbent that `to` already absorbs hands over to its absorbent.
pub open spec fn carried(
    t: Seq<RowView>,
    from: Seq<char>,
    to: Seq<char>,
    to_name: Seq<char>,
    now: Seq<char>,
    order: Seq<RowView>,
) -> Seq<RowView> {
    if order.len() == 0 {
        t
    } else {
        carry_fold(without_scope(t, NODE@, from), order, to, to_name, now, order.len() as int).0
    }
}

/// `order` is the Node rows of `from` in carrying order, and `after` the
/// table once they were carried under `to`.
pub open spec fn carry_outcome(
    before: Seq<RowView>,
    after: Seq<RowView>,
    from: Seq<char>,
    to: Seq<char>,
    to_name: Seq<char>,
    now: Seq<char>,
    order: Seq<RowView>,
) -> bool {
    &&& order.to_multiset() == scope_rows(before, NODE@, from).to_multiset()
    &&& in_carry_order(order)
    &&& after == carried(before, from, to, to_name, now, order)
}

/// Every row of a scope removed.
fn delete_scope(rows: &mut Vec<AbsorptionRow>, d: &str, s: &str)
    ensures
        table(final(rows)@) == without_scope(table(old(rows)@), d@, s@),
{
    let mut kept: Vec<AbsorptionRow> = Vec::new();
    let mut i: usize = 0;
    while i < rows.len()
        invariant
            i <= rows@.len(),
            rows@ == old(rows)@,
            table(kept@) == without_scope(table(rows@.take(i as int)), d@, s@),
        decreases rows.len() - i,
    {
        let ghost tk = table(rows@.take(i + 1));
        assert(tk.drop_last() =~= table(rows@.take(i as int)));
        assert(tk.last() == rv(rows@[i as int]));
        if !row_in(&rows[i], d, s) {
            let ghost before = kept@;
            kept.push(copy_row(&rows[i]));
            assert(table(kept@) =~= table(before).push(rv(rows@[i as int])));
        }
        i += 1;
    }
    assert(rows@.take(i as int) =~= rows@);
    *rows = kept;
}

/// The row of `(d, s, m)`, if any (the first).
pub(crate) fn find_key(rows: &Vec<AbsorptionRow>, d: &str, s: &str, m: &str) -> (r: Option<usize>)
    ensures
        match r {
            Some(i) => key_index(table(rows@), d@, s@, m@) == Some(i as int) && i < rows@.len(),
            None => key_index(table(rows@), d@, s@, m@) is None,
        },
{
    let ghost t = table(rows@);
    let mut i: usize = 0;
    while i < rows.len()
        invariant
            i <= rows@.len(),
            t == table(rows@),
            key_index(t.take(i as int), d@, s@, m@) is None,
        decreases rows.len() - i,
    {
        assert(t.take(i + 1).drop_last() =~= t.take(i as int));
        if row_in(&rows[i], d, s) && str_eq(rows[i].member.as_str(), m) {
            proof {
                lemma_key_index_prefix(t, d@, s@, m@, i as int);
            }
            return Some(i);
        }
        i += 1;
    }
    assert(t.take(i as int) =~= t);
    None
}

/// `m` is absorbed in the scope by one of the first `i` rows.
pub open spec fn prefix_member(t: Seq<RowView>, d: Seq<char>, s: Seq<char>, i: int, m: Seq<char>) -> bool {
    exists|q: int| 0 <= q < i && in_dim_scope(t[q], d, s) && #[trigger] t[q].member == m
}

/// Some string among `names` is `m`.
pub open spec fn names_have(names: Seq<String>, m: Seq<char>) -> bool {
    exists|k: int| 0 <= k < names.len() && (#[trigger] names[k])@ == m
}

/// The members absorbed in a scope.
fn scope_members(rows: &Vec<AbsorptionRow>, d: &str, s: &str) -> (r: Vec<String>)
    ensures
        forall|m: Seq<char>|
            #![trigger is_member(table(rows@), d@, s@, m)]
            #![trigger names_have(r@, m)]
            is_member(table(rows@), d@, s@, m) <==> names_have(r@, m),
{
    let ghost t = table(rows@);
    let mut out: Vec<String> = Vec::new();
    let mut i: usize = 0;
    while i < rows.len()
        invariant
            i <= rows@.len(),
            t == table(rows@),
            forall|m: Seq<char>|
                #![trigger prefix_member(t, d@, s@, i as int, m)]
                #![trigger names_have(out@, m)]
                prefix_member(t, d@, s@, i as int, m) <==> names_have(out@, m),
        decreases rows.len() - i,
    {
        let ghost before = out@;
        assert(t[i as int] == rv(rows@[i as int]));
        if row_in(&rows[i], d, s) {
            out.push(rows[i].member.clone());
            assert forall|m: Seq<char>|
                #![trigger prefix_member(t, d@, s@, i + 1, m)]
                #![trigger names_have(out@, m)]
                prefix_member(t, d@, s@, i + 1, m) <==> names_have(out@, m) by {
                if names_have(out@, m) {
                    let k = choose|k: int| 0 <= k < out@.len() && (#[trigger] out@[k])@ == m;
                    if k < before.len() {
                        assert(out@[k] == before[k]);
                        assert(names_have(before, m));
                        assert(prefix_member(t, d@, s@, i as int, m));
                        let q = choose|q: int| 0 <= q < i && in_dim_scope(t[q], d@, s@) && #[trigger] t[q].member == m;
                        assert(prefix_member(t, d@, s@, i + 1, m));
                    } else {
                        assert(t[i as int].member == m);
                        assert(prefix_member(t, d@, s@, i + 1, m));
                    }
                }
                if prefix_member(t, d@, s@, i + 1, m) {
                    let q = choose|q: int| 0 <= q < i + 1 && in_dim_scope(t[q], d@, s@) && #[trigger] t[q].member == m;
                    if q < i {
                        assert(prefix_member(t, d@, s@, i as int, m));
                        assert(names_have(before, m));
                        let k = choose|k: int| 0 <= k < before.len() && (#[trigger] before[k])@ == m;
                        assert(out@[k] == before[k]);
                    } else {
                        assert(out@[before.len() as int]@ == m);
                    }
                }
            }
        } else {
            assert forall|m: Seq<char>|
                #![trigger prefix_member(t, d@, s@, i + 1, m)]
                #![trigger names_have(out@, m)]
                prefix_member(t, d@, s@, i + 1, m) <==> names_have(out@, m) by {
                if prefix_member(t, d@, s@, i + 1, m) {
                    let q = choose|q: int| 0 <= q < i + 1 && in_dim_scope(t[q], d@, s@) && #[trigger] t[q].member == m;
                    assert(q < i);
                    assert(prefix_member(t, d@, s@, i as int, m));
                }
                if names_have(out@, m) {
                    assert(prefix_member(t, d@, s@, i as int, m));
                    let q = choose|q: int| 0 <= q < i && in_dim_scope(t[q], d@, s@) && #[trigger] t[q].member == m;
                    assert(prefix_member(t, d@, s@, i + 1, m));
                }
            }
        }
        i += 1;
    }
    assert forall|m: Seq<char>|
        #![trigger is_member(table(rows@), d@, s@, m)]
        #![trigger names_have(out@, m)]
        is_member(table(rows@), d@, s@, m) <==> names_have(out@, m) by {
        if is_member(t, d@, s@, m) {
            let q = choose|q: int| 0 <= q < t.len() && in_dim_scope(t[q], d@, s@) && #[trigger] t[q].member == m;
            assert(prefix_member(t, d@, s@, i as int, m));
        }
        if names_have(out@, m) {
            assert(prefix_member(t, d@, s@, i as int, m));
            let q = choose|q: int| 0 <= q < i && in_dim_scope(t[q], d@, s@) && #[trigger] t[q].member == m;
        }
    }
    out
}

/// Whether a name is among the strings.
fn holds(names: &Vec<String>, m: &str) -> (r: bool)
    ensures
        r == names_have(names@, m@),
{
    let mut k: usize = 0;
    while k < names.len()
        invariant
            k <= names@.len(),
            forall|q: int| 0 <= q < k ==> (#[trigger] names@[q])@ != m@,
        decreases names.len() - k,
    {
        if str_eq(names[k].as_str(), m) {
            return true;
        }
        k += 1;
    }
    false
}

/// Move the Node absorptions of Pipeline `from` under `to`, which just
/// absorbed it.
pub fn carry_node_rows(rows: &mut Vec<AbsorptionRow>, from: &str, to: &Named, now: &str)
    ensures
        exists|order: Seq<RowView>|
            #[trigger] carry_outcome(table(old(rows)@), table(final(rows)@), from@, to.key@, to.name@, now@, order),
{
    let ghost t_start = table(rows@);
    let moved = moved_rows(rows, from);
    let ghost order = table(moved@);
    if moved.len() == 0 {
        assert(carry_outcome(t_start, table(rows@), from@, to.key@, to.name@, now@, order));
        return;
    }
    delete_scope(rows, NODE, from);
    let ghost t0 = table(rows@);
    let mut abs = Named { key: String::new(), name: String::new() };
    let mut snap_members: Vec<String> = Vec::new();
    let ghost mut snap: Seq<RowView> = t0;
    let mut i: usize = 0;
    while i < moved.len()
        invariant
            i <= moved@.len(),
            order == table(moved@),
            (table(rows@), snap) == carry_fold(t0, order, to.key@, to.name@, now@, i as int),
            i > 0 ==> (abs.key@, abs.name@) == carried_absorbent(snap, to.key@, order[i - 1].absorbent, order[i - 1].absorbent_name),
            i > 0 ==> forall|m: Seq<char>|
                #![trigger is_member(snap, NODE@, to.key@, m)]
                #![trigger names_have(snap_members@, m)]
                is_member(snap, NODE@, to.key@, m) <==> names_have(snap_members@, m),
        decreases moved.len() - i,
    {
        let x = &moved[i];
        assert(order[i as int] == rv(moved@[i as int]));
        let starts = i == 0 || !(str_eq(moved[i - 1].absorbent.as_str(), x.absorbent.as_str()) && str_eq(
            moved[i - 1].absorbent_name.as_str(),
            x.absorbent_name.as_str(),
        ));
        proof {
            if i > 0 {
                assert(order[i - 1] == rv(moved@[i - 1]));
            }
        }
        if starts {
            proof {
                snap = table(rows@);
            }
            abs = match find_key(rows, NODE, to.key.as_str(), x.absorbent.as_str()) {
                Some(j) => Named { key: rows[j].absorbent.clone(), name: rows[j].absorbent_name.clone() },
                None => Named { key: x.absorbent.clone(), name: x.absorbent_name.clone() },
            };
            snap_members = scope_members(rows, NODE, to.key.as_str());
        } else {
            assert(same_group(order[i - 1], order[i as int]));
        }
        let skip = str_eq(x.member.as_str(), abs.key.as_str()) || holds(&snap_members, x.member.as_str());
        if !skip {
            let mut one: Vec<Named> = Vec::new();
            one.push(Named { key: x.member.clone(), name: x.member_name.clone() });
            assert(named_pairs(one@) =~= seq![(x.member@, x.member_name@)]);
            combine_rows(rows, NODE, to.key.as_str(), to.name.as_str(), &abs, one.as_slice(), x.origin.as_str(), now);
        }
        i += 1;
    }
    assert(carry_outcome(t_start, table(rows@), from@, to.key@, to.name@, now@, order));
}


// ───────────────────────────── Combine, rename, remove ─────────────────────────────

/// `mids[k + 1]` is `mids[k]` once the `k`-th member's Node absorptions
/// were carried under the absorbent (the absorbent itself carries nothing).
pub open spec fn carries_done(
    mids: Seq<Seq<RowView>>,
    ms: Seq<(Seq<char>, Seq<char>)>,
    a: Seq<char>,
    a_name: Seq<char>,
    now: Seq<char>,
    n: int,
) -> bool {
    &&& mids.len() == n + 1
    &&& forall|k: int|
        0 <= k < n ==> if (#[trigger] ms[k]).0 == a {
            mids[k + 1] == mids[k]
        } else {
            exists|order: Seq<RowView>| #[trigger] carry_outcome(mids[k], mids[k + 1], ms[k].0, a, a_name, now, order)
        }
}

/// The table after a full Combine: the flattened write, then, for a
/// Pipeline Combine, every member's Node absorptions carried under the
/// absorbent.
pub open spec fn combine_outcome(
    before: Seq<RowView>,
    after: Seq<RowView>,
    c: CombineSpec,
    ms: Seq<(Seq<char>, Seq<char>)>,
) -> bool {
    if c.d == PIPELINE@ {
        exists|mids: Seq<Seq<RowView>>|
            #[trigger] carries_done(mids, ms, c.a, c.a_name, c.now, ms.len() as int) && mids[0] == combined(before, c, ms)
                && mids.last() == after
    } else {
        after == combined(before, c, ms)
    }
}

/// Create or extend an absorption, flattened on write; a Pipeline Combine
/// also carries the members' Node absorptions over to the absorbent's
/// scope.
pub fn combine_scoped(
    rows: &mut Vec<AbsorptionRow>,
    dimension: &str,
    scope: &str,
    scope_name: &str,
    absorbent: &Named,
    members: &[Named],
    origin: &str,
    now: &str,
)
    ensures
        combine_outcome(
            table(old(rows)@),
            table(final(rows)@),
            CombineSpec {
                d: dimension@,
                s: scope@,
                scope_name: scope_name@,
                a: absorbent.key@,
                a_name: absorbent.name@,
                origin: origin@,
                now: now@,
            },
            named_pairs(members@),
        ),
{
    let ghost c = CombineSpec {
        d: dimension@,
        s: scope@,
        scope_name: scope_name@,
        a: absorbent.key@,
        a_name: absorbent.name@,
        origin: origin@,
        now: now@,
    };
    let ghost ms = named_pairs(members@);
    let ghost before = table(rows@);
    combine_rows(rows, dimension, scope, scope_name, absorbent, members, origin, now);
    if !str_eq(dimension, PIPELINE) {
        return;
    }
    let ghost mut mids: Seq<Seq<RowView>> = seq![table(rows@)];
    let mut k: usize = 0;
    while k < members.len()
        invariant
            k <= members@.len(),
            ms == named_pairs(members@),
            c.a == absorbent.key@ && c.a_name == absorbent.name@ && c.now == now@,
            carries_done(mids, ms, c.a, c.a_name, c.now, k as int),
            mids[0] == combined(before, c, ms),
            mids.last() == table(rows@),
        decreases members.len() - k,
    {
        let m = &members[k];
        assert(ms[k as int] == (m.key@, m.name@));
        let ghost prev = mids;
        let ghost before_k = table(rows@);
        assert(prev.last() == before_k);
        if !str_eq(m.key.as_str(), absorbent.key.as_str()) {
            carry_node_rows(rows, m.key.as_str(), absorbent, now);
            proof {
                let order = choose|order: Seq<RowView>|
                    #[trigger] carry_outcome(before_k, table(rows@), m.key@, c.a, c.a_name, c.now, order);
                mids = prev.push(table(rows@));
                assert(mids[k as int] == before_k);
                assert(mids[k + 1] == table(rows@));
                assert(carry_outcome(mids[k as int], mids[k + 1], ms[k as int].0, c.a, c.a_name, c.now, order));
                assert forall|q: int| 0 <= q < k + 1 implies if (#[trigger] ms[q]).0 == c.a {
                    mids[q + 1] == mids[q]
                } else {
                    exists|order: Seq<RowView>| #[trigger] carry_outcome(mids[q], mids[q + 1], ms[q].0, c.a, c.a_name, c.now, order)
                } by {
                    if q < k {
                        assert(mids[q] == prev[q] && mids[q + 1] == prev[q + 1]);
                    }
                }
            }
        } else {
            proof {
                mids = prev.push(table(rows@));
                assert(mids[k + 1] == mids[k as int]);
                assert forall|q: int| 0 <= q < k + 1 implies if (#[trigger] ms[q]).0 == c.a {
                    mids[q + 1] == mids[q]
                } else {
                    exists|order: Seq<RowView>| #[trigger] carry_outcome(mids[q], mids[q + 1], ms[q].0, c.a, c.a_name, c.now, order)
                } by {
                    if q < k {
                        assert(mids[q] == prev[q] && mids[q + 1] == prev[q + 1]);
                    }
                }
            }
        }
        k += 1;
    }
    assert(carries_done(mids, ms, c.a, c.a_name, c.now, ms.len() as int));
}

/// A library rename that changed a Pipeline's id: the new key carries the
/// old key's series, as a Combine would, origin `rename`. When the old key
/// was itself absorbed (by another key than the new one), the new key joins
/// that absorbent instead.
pub open spec fn rename_outcome(before: Seq<RowView>, after: Seq<RowView>, old: (Seq<char>, Seq<char>), new: (Seq<char>, Seq<char>), now: Seq<char>) -> bool {
    if old.0 == new.0 {
        after == before
    } else {
        let joined = match key_index(before, PIPELINE@, Seq::empty(), old.0) {
            Some(i) => before[i].absorbent != new.0,
            None => false,
        };
        if joined {
            let i = key_index(before, PIPELINE@, Seq::empty(), old.0)->0;
            combine_outcome(
                before,
                after,
                CombineSpec {
                    d: PIPELINE@,
                    s: Seq::empty(),
                    scope_name: Seq::empty(),
                    a: before[i].absorbent,
                    a_name: before[i].absorbent_name,
                    origin: ORIGIN_RENAME@,
                    now,
                },
                seq![new],
            )
        } else {
            combine_outcome(
                before,
                after,
                CombineSpec {
                    d: PIPELINE@,
                    s: Seq::empty(),
                    scope_name: Seq::empty(),
                    a: new.0,
                    a_name: new.1,
                    origin: ORIGIN_RENAME@,
                    now,
                },
                seq![old],
            )
        }
    }
}

/// Record a rename of Pipeline `before` to `after`.
pub fn record_rename_rows(rows: &mut Vec<AbsorptionRow>, before: &Named, after: &Named, now: &str)
    ensures
        rename_outcome(table(old(rows)@), table(final(rows)@), (before.key@, before.name@), (after.key@, after.name@), now@),
{
    if str_eq(before.key.as_str(), after.key.as_str()) {
        return;
    }
    let empty = String::new();
    assert(empty@ =~= Seq::<char>::empty());
    let found = find_key(rows, PIPELINE, empty.as_str(), before.key.as_str());
    let target: Option<Named> = match found {
        Some(i) => {
            assert(table(rows@)[i as int] == rv(rows@[i as int]));
            if !str_eq(rows[i].absorbent.as_str(), after.key.as_str()) {
                Some(Named { key: rows[i].absorbent.clone(), name: rows[i].absorbent_name.clone() })
            } else {
                None
            }
        },
        None => None,
    };
    match target {
        Some(a) => {
            let mut one: Vec<Named> = Vec::new();
            one.push(Named { key: after.key.clone(), name: after.name.clone() });
            assert(named_pairs(one@) =~= seq![(after.key@, after.name@)]);
            combine_scoped(rows, PIPELINE, empty.as_str(), empty.as_str(), &a, one.as_slice(), ORIGIN_RENAME, now);
        },
        None => {
            let mut one: Vec<Named> = Vec::new();
            one.push(Named { key: before.key.clone(), name: before.name.clone() });
            assert(named_pairs(one@) =~= seq![(before.key@, before.name@)]);
            combine_scoped(rows, PIPELINE, empty.as_str(), empty.as_str(), after, one.as_slice(), ORIGIN_RENAME, now);
        },
    }
}

/// Take member `m` out of its absorption in the scope: its absorbent, and
/// the rows without it; none, and the rows unchanged, when it was not
/// absorbed. Removing the last member leaves no row for that absorbent:
/// the absorption is gone.
pub fn remove_member_rows(rows: &mut Vec<AbsorptionRow>, dimension: &str, scope: &str, member: &str) -> (r: Option<String>)
    ensures
        match key_index(table(old(rows)@), dimension@, scope@, member@) {
            Some(i) => r matches Some(a) && a@ == table(old(rows)@)[i].absorbent && table(final(rows)@) == without_member(
                table(old(rows)@),
                dimension@,
                scope@,
                member@,
            ),
            None => r is None && final(rows)@ == old(rows)@,
        },
{
    match find_key(rows, dimension, scope, member) {
        Some(i) => {
            assert(table(rows@)[i as int] == rv(rows@[i as int]));
            let a = rows[i].absorbent.clone();
            delete_member(rows, dimension, scope, member);
            Some(a)
        },
        None => None,
    }
}

/// A Node leaves an absorption scope when it ran under the removed Pipeline
/// and under none of the Pipelines the scope still counts.
pub open spec fn leaves(gone: Seq<String>, staying: Seq<String>, n: Seq<char>) -> bool {
    names_have(gone, n) && !names_have(staying, n)
}

/// The Node rows of scope `s` whose member or absorbent leaves are gone.
pub open spec fn released(t: Seq<RowView>, s: Seq<char>, gone: Seq<String>, staying: Seq<String>) -> Seq<RowView>
    decreases t.len(),
{
    if t.len() == 0 {
        t
    } else {
        let rest = released(t.drop_last(), s, gone, staying);
        let r = t.last();
        if in_dim_scope(r, NODE@, s) && (leaves(gone, staying, r.member) || leaves(gone, staying, r.absorbent)) {
            rest
        } else {
            rest.push(r)
        }
    }
}

/// The cascade of taking Pipeline `removed` out of `absorbent`'s row: the
/// Nodes that ran under `removed` (`gone`) and under none of the Pipelines
/// still counted there (`staying`) leave the Node absorptions of that
/// scope, and so does every member of a leaving Node absorbent.
pub fn release_nodes_rows(rows: &mut Vec<AbsorptionRow>, absorbent: &str, gone: &Vec<String>, staying: &Vec<String>)
    ensures
        table(final(rows)@) == released(table(old(rows)@), absorbent@, gone@, staying@),
{
    let mut kept: Vec<AbsorptionRow> = Vec::new();
    let mut i: usize = 0;
    while i < rows.len()
        invariant
            i <= rows@.len(),
            rows@ == old(rows)@,
            table(kept@) == released(table(rows@.take(i as int)), absorbent@, gone@, staying@),
        decreases rows.len() - i,
    {
        let ghost tk = table(rows@.take(i + 1));
        assert(tk.drop_last() =~= table(rows@.take(i as int)));
        assert(tk.last() == rv(rows@[i as int]));
        let r = &rows[i];
        let member_leaves = holds(gone, r.member.as_str()) && !holds(staying, r.member.as_str());
        let absorbent_leaves = holds(gone, r.absorbent.as_str()) && !holds(staying, r.absorbent.as_str());
        if !(row_in(r, NODE, absorbent) && (member_leaves || absorbent_leaves)) {
            let ghost before = kept@;
            kept.push(copy_row(r));
            assert(table(kept@) =~= table(before).push(rv(rows@[i as int])));
        }
        i += 1;
    }
    assert(rows@.take(i as int) =~= rows@);
    *rows = kept;
}

} // verus!
