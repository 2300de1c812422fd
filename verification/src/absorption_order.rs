//! Two properties of the absorption read that hold whatever the store hands
//! over: resolution settles in one step on one-level rows, the Pipeline
//! dimension (which has no scope) included; and the resolver reads the same
//! whatever order the rows came in, and whatever their origin, creation time
//! and scope name.
use vstd::prelude::*;
use crate::absorption::{
    global_couple_key, in_scope, local_couple_from, members_in, resolve_in, row_before, rows_in_order,
    stored_name_in, AbsorptionResolver, AbsorptionRow, PIPELINE,
};
use crate::text::{lemma_text_lt_asymmetric, lemma_text_lt_total};

verus! {

broadcast use vstd::string::group_string_axioms;

// ───────────────────────────── one step ─────────────────────────────

/// One level within `dim` (and `scope`, any scope when none): no absorbent
/// of a row is the member of another.
pub open spec fn one_level(rows: Seq<AbsorptionRow>, dim: Seq<char>, scope: Option<Seq<char>>) -> bool {
    forall|i: int, j: int|
        0 <= i < rows.len() && 0 <= j < rows.len() && in_scope(rows[i], dim, scope) && in_scope(rows[j], dim, scope)
            ==> rows[i].absorbent@ != rows[j].member@
}

/// Within `dim` (and `scope`), a member has one row.
pub open spec fn members_unique(rows: Seq<AbsorptionRow>, dim: Seq<char>, scope: Option<Seq<char>>) -> bool {
    forall|i: int, j: int|
        0 <= i < j < rows.len() && in_scope(rows[i], dim, scope) && in_scope(rows[j], dim, scope)
            ==> rows[i].member@ != rows[j].member@
}

/// `key` is the member of some row within `dim` (and `scope`).
pub open spec fn absorbed(rows: Seq<AbsorptionRow>, dim: Seq<char>, scope: Option<Seq<char>>, key: Seq<char>) -> bool {
    exists|i: int| 0 <= i < rows.len() && in_scope(rows[i], dim, scope) && #[trigger] rows[i].member@ == key
}

/// A key no row absorbs resolves to itself.
proof fn lemma_unabsorbed_is_itself(rows: Seq<AbsorptionRow>, dim: Seq<char>, scope: Option<Seq<char>>, key: Seq<char>)
    requires
        !absorbed(rows, dim, scope, key),
    ensures
        resolve_in(rows, dim, scope, key) == key,
    decreases rows.len(),
{
    if rows.len() > 0 {
        let p = rows.drop_last();
        if absorbed(p, dim, scope, key) {
            let i = choose|i: int| 0 <= i < p.len() && in_scope(p[i], dim, scope) && #[trigger] p[i].member@ == key;
            assert(rows[i] == p[i]);
        }
        assert(rows.last() == rows[rows.len() - 1]);
        lemma_unabsorbed_is_itself(p, dim, scope, key);
    }
}

/// A key absorbed by exactly the row `i` resolves to that row's absorbent.
proof fn lemma_absorbed_by_its_row(rows: Seq<AbsorptionRow>, dim: Seq<char>, scope: Option<Seq<char>>, i: int)
    requires
        members_unique(rows, dim, scope),
        0 <= i < rows.len(),
        in_scope(rows[i], dim, scope),
    ensures
        resolve_in(rows, dim, scope, rows[i].member@) == rows[i].absorbent@,
    decreases rows.len(),
{
    let n = rows.len() - 1;
    assert(rows.last() == rows[n]);
    if i < n {
        let p = rows.drop_last();
        assert(p[i] == rows[i]);
        assert(!(in_scope(rows[n], dim, scope) && rows[n].member@ == rows[i].member@));
        assert forall|a: int, b: int|
            0 <= a < b < p.len() && in_scope(p[a], dim, scope) && in_scope(p[b], dim, scope) implies p[a].member@
            != p[b].member@ by {
            assert(p[a] == rows[a] && p[b] == rows[b]);
        }
        lemma_absorbed_by_its_row(p, dim, scope, i);
    }
}

/// On one-level rows with one row per member, resolution takes one step: a
/// member resolves to its row's absorbent, any other key to itself, and
/// what a key resolves to resolves to itself. This holds of the Pipeline
/// dimension, read with no scope, as of every scoped one.
pub proof fn law_resolution_is_one_step(rows: Seq<AbsorptionRow>, dim: Seq<char>, scope: Option<Seq<char>>)
    requires
        one_level(rows, dim, scope),
        members_unique(rows, dim, scope),
    ensures
        forall|i: int|
            0 <= i < rows.len() && in_scope(rows[i], dim, scope) ==> resolve_in(rows, dim, scope, #[trigger] rows[i].member@)
                == rows[i].absorbent@,
        forall|key: Seq<char>| !absorbed(rows, dim, scope, key) ==> #[trigger] resolve_in(rows, dim, scope, key) == key,
        forall|key: Seq<char>|
            resolve_in(rows, dim, scope, #[trigger] resolve_in(rows, dim, scope, key)) == resolve_in(rows, dim, scope, key),
{
    assert forall|i: int| 0 <= i < rows.len() && in_scope(rows[i], dim, scope) implies resolve_in(
        rows,
        dim,
        scope,
        #[trigger] rows[i].member@,
    ) == rows[i].absorbent@ by {
        lemma_absorbed_by_its_row(rows, dim, scope, i);
    }
    assert forall|key: Seq<char>| !absorbed(rows, dim, scope, key) implies #[trigger] resolve_in(rows, dim, scope, key)
        == key by {
        lemma_unabsorbed_is_itself(rows, dim, scope, key);
    }
    assert forall|key: Seq<char>|
        resolve_in(rows, dim, scope, #[trigger] resolve_in(rows, dim, scope, key)) == resolve_in(rows, dim, scope, key) by {
        if absorbed(rows, dim, scope, key) {
            let i = choose|i: int| 0 <= i < rows.len() && in_scope(rows[i], dim, scope) && #[trigger] rows[i].member@ == key;
            lemma_absorbed_by_its_row(rows, dim, scope, i);
            let r = rows[i].absorbent@;
            if absorbed(rows, dim, scope, r) {
                let j = choose|j: int| 0 <= j < rows.len() && in_scope(rows[j], dim, scope) && #[trigger] rows[j].member@ == r;
                assert(rows[i].absorbent@ != rows[j].member@);
            }
            lemma_unabsorbed_is_itself(rows, dim, scope, r);
        } else {
            lemma_unabsorbed_is_itself(rows, dim, scope, key);
        }
    }
}

/// The Pipeline read of a resolver settles in one step: on one-level
/// Pipeline rows with one row per member, `pipeline(m)` is `m`'s absorbent,
/// `pipeline(k)` of any other key is `k`, and `pipeline(pipeline(k))` is
/// `pipeline(k)`.
pub proof fn law_pipeline_resolves_in_one_step(r: AbsorptionResolver)
    requires
        one_level(r.rows(), PIPELINE@, None),
        members_unique(r.rows(), PIPELINE@, None),
    ensures
        forall|i: int|
            0 <= i < r.rows().len() && in_scope(r.rows()[i], PIPELINE@, None) ==> resolve_in(
                r.rows(),
                PIPELINE@,
                None,
                #[trigger] r.rows()[i].member@,
            ) == r.rows()[i].absorbent@,
        forall|key: Seq<char>|
            !absorbed(r.rows(), PIPELINE@, None, key) ==> #[trigger] resolve_in(r.rows(), PIPELINE@, None, key) == key,
        forall|key: Seq<char>|
            resolve_in(r.rows(), PIPELINE@, None, #[trigger] resolve_in(r.rows(), PIPELINE@, None, key)) == resolve_in(
                r.rows(),
                PIPELINE@,
                None,
                key,
            ),
{
    law_resolution_is_one_step(r.rows(), PIPELINE@, None);
}

// ───────────────────────────── order ─────────────────────────────

/// What resolution reads of a row: its dimension, scope, member and
/// absorbent, with the two names.
pub open spec fn resolution_fields(r: AbsorptionRow) -> (Seq<char>, Seq<char>, Seq<char>, Seq<char>, Seq<char>, Seq<char>) {
    (r.dimension@, r.scope@, r.member@, r.member_name@, r.absorbent@, r.absorbent_name@)
}

/// The key of a stored row: `(dimension, scope, member)`.
pub open spec fn row_key(r: AbsorptionRow) -> (Seq<char>, Seq<char>, Seq<char>) {
    (r.dimension@, r.scope@, r.member@)
}

/// What resolution reads of each row, in order.
pub open spec fn fields_of(s: Seq<AbsorptionRow>) -> Seq<(Seq<char>, Seq<char>, Seq<char>, Seq<char>, Seq<char>, Seq<char>)> {
    s.map_values(|r: AbsorptionRow| resolution_fields(r))
}

/// The keys of the rows, in order.
pub open spec fn keys_of(s: Seq<AbsorptionRow>) -> Seq<(Seq<char>, Seq<char>, Seq<char>)> {
    s.map_values(|r: AbsorptionRow| row_key(r))
}

/// The key part of what resolution reads.
pub open spec fn key_part(
    f: (Seq<char>, Seq<char>, Seq<char>, Seq<char>, Seq<char>, Seq<char>),
) -> (Seq<char>, Seq<char>, Seq<char>) {
    (f.0, f.1, f.2)
}

/// Mapping keeps equal multisets equal.
proof fn lemma_map_multiset<A, B>(a: Seq<A>, b: Seq<A>, f: spec_fn(A) -> B)
    requires
        a.to_multiset() == b.to_multiset(),
    ensures
        a.map_values(f).to_multiset() == b.map_values(f).to_multiset(),
    decreases a.len(),
{
    broadcast use vstd::multiset::group_multiset_axioms;

    vstd::seq_lib::to_multiset_len(a);
    vstd::seq_lib::to_multiset_len(b);
    if a.len() == 0 {
        assert(b.len() == 0);
        assert(a.map_values(f) =~= Seq::<B>::empty());
        assert(b.map_values(f) =~= Seq::<B>::empty());
    } else {
        let x = a.last();
        let a1 = a.drop_last();
        assert(a =~= a1.push(x));
        vstd::seq_lib::to_multiset_build(a1, x);
        vstd::seq_lib::to_multiset_contains(b, x);
        assert(b.to_multiset().count(x) > 0);
        let i = choose|i: int| 0 <= i < b.len() && b[i] == x;
        let b1 = b.remove(i);
        vstd::seq_lib::to_multiset_remove(b, i);
        assert(a1.to_multiset() =~= a.to_multiset().remove(x));
        lemma_map_multiset(a1, b1, f);
        assert(a.map_values(f) =~= a1.map_values(f).push(f(x)));
        vstd::seq_lib::to_multiset_build(a1.map_values(f), f(x));
        assert(b.map_values(f) =~= b1.map_values(f).insert(i, f(x)));
        vstd::seq_lib::to_multiset_insert(b1.map_values(f), i, f(x));
    }
}

/// A sequence whose multiset equals that of a sequence without duplicates
/// has none either.
proof fn lemma_no_duplicates_transfer<A>(a: Seq<A>, b: Seq<A>)
    requires
        a.to_multiset() == b.to_multiset(),
        a.no_duplicates(),
    ensures
        b.no_duplicates(),
{
    a.lemma_multiset_has_no_duplicates();
    b.lemma_multiset_has_no_duplicates_conv();
}

/// The order of two rows depends on their keys only.
proof fn lemma_order_by_key(a: AbsorptionRow, a2: AbsorptionRow, b: AbsorptionRow)
    requires
        row_key(a) == row_key(a2),
    ensures
        row_before(a, b) == row_before(a2, b),
        row_before(b, a) == row_before(b, a2),
{
}

/// Of two rows neither before the other, the keys are equal.
proof fn lemma_order_total(a: AbsorptionRow, b: AbsorptionRow)
    ensures
        !row_before(a, a),
        !row_before(a, b) && !row_before(b, a) ==> row_key(a) == row_key(b),
{
    lemma_text_lt_asymmetric(a.dimension@, b.dimension@);
    lemma_text_lt_asymmetric(a.scope@, b.scope@);
    lemma_text_lt_asymmetric(a.member@, b.member@);
    lemma_text_lt_total(a.dimension@, b.dimension@);
    lemma_text_lt_total(a.scope@, b.scope@);
    lemma_text_lt_total(a.member@, b.member@);
    lemma_text_lt_asymmetric(a.dimension@, a.dimension@);
    lemma_text_lt_asymmetric(a.scope@, a.scope@);
    lemma_text_lt_asymmetric(a.member@, a.member@);
}

/// Two ordered row sequences with distinct keys that hold the same fields
/// hold them in the same places.
proof fn lemma_ordered_rows_determined(s1: Seq<AbsorptionRow>, s2: Seq<AbsorptionRow>)
    requires
        rows_in_order(s1),
        rows_in_order(s2),
        keys_of(s1).no_duplicates(),
        keys_of(s2).no_duplicates(),
        fields_of(s1).to_multiset() == fields_of(s2).to_multiset(),
    ensures
        fields_of(s1) == fields_of(s2),
    decreases s1.len(),
{
    broadcast use vstd::multiset::group_multiset_axioms;

    let f1 = fields_of(s1);
    let f2 = fields_of(s2);
    vstd::seq_lib::to_multiset_len(f1);
    vstd::seq_lib::to_multiset_len(f2);
    if s1.len() == 0 {
        assert(f1 =~= f2);
    } else {
        let n = s1.len() - 1;
        let x = s1[n];
        let y = s2[n];
        vstd::seq_lib::to_multiset_contains(f2, resolution_fields(x));
        vstd::seq_lib::to_multiset_contains(f1, resolution_fields(x));
        assert(f1[n] == resolution_fields(x));
        let j = choose|j: int| 0 <= j < f2.len() && f2[j] == resolution_fields(x);
        vstd::seq_lib::to_multiset_contains(f1, resolution_fields(y));
        vstd::seq_lib::to_multiset_contains(f2, resolution_fields(y));
        assert(f2[n] == resolution_fields(y));
        let k = choose|k: int| 0 <= k < f1.len() && f1[k] == resolution_fields(y);
        assert(f2[j] == resolution_fields(s2[j]));
        assert(f1[k] == resolution_fields(s1[k]));
        lemma_order_total(x, y);
        lemma_order_total(s1[k], s1[k]);
        lemma_order_total(s2[j], s2[j]);
        // x is last in s1, so not before s1[k], whose key is y's.
        assert(!row_before(x, s1[k]));
        lemma_order_by_key(s1[k], y, x);
        assert(!row_before(y, s2[j]));
        lemma_order_by_key(s2[j], x, y);
        assert(row_key(x) == row_key(y));
        assert(keys_of(s2)[j] == row_key(s2[j]) && keys_of(s2)[n] == row_key(s2[n]));
        assert(j == n);
        let t1 = s1.drop_last();
        let t2 = s2.drop_last();
        assert(fields_of(t1) =~= f1.drop_last());
        assert(fields_of(t2) =~= f2.drop_last());
        assert(f1 =~= fields_of(t1).push(resolution_fields(x)));
        assert(f2 =~= fields_of(t2).push(resolution_fields(x)));
        vstd::seq_lib::to_multiset_build(fields_of(t1), resolution_fields(x));
        vstd::seq_lib::to_multiset_build(fields_of(t2), resolution_fields(x));
        assert(fields_of(t1).to_multiset() =~= f1.to_multiset().remove(resolution_fields(x)));
        assert(fields_of(t2).to_multiset() =~= f2.to_multiset().remove(resolution_fields(x)));
        assert(keys_of(t1) =~= keys_of(s1).drop_last());
        assert(keys_of(t2) =~= keys_of(s2).drop_last());
        lemma_ordered_rows_determined(t1, t2);
    }
}

/// Row sequences that hold the same fields in the same places resolve
/// alike.
proof fn lemma_same_fields_resolve_alike(s1: Seq<AbsorptionRow>, s2: Seq<AbsorptionRow>, d: Seq<char>, sc: Option<Seq<char>>, k: Seq<char>)
    requires
        fields_of(s1) == fields_of(s2),
    ensures
        resolve_in(s1, d, sc, k) == resolve_in(s2, d, sc, k),
        stored_name_in(s1, d, sc, k) == stored_name_in(s2, d, sc, k),
        members_in(s1, d, sc, k) == members_in(s2, d, sc, k),
    decreases s1.len(),
{
    assert(fields_of(s1).len() == s1.len() && fields_of(s2).len() == s2.len());
    if s1.len() > 0 {
        let n = s1.len() - 1;
        assert(fields_of(s1)[n] == fields_of(s2)[n]);
        assert(s1.last() == s1[n] && s2.last() == s2[n]);
        assert(fields_of(s1.drop_last()) =~= fields_of(s1).drop_last());
        assert(fields_of(s2.drop_last()) =~= fields_of(s2).drop_last());
        lemma_same_fields_resolve_alike(s1.drop_last(), s2.drop_last(), d, sc, k);
    }
}

/// The couple step reads alike over rows that hold the same fields in the
/// same places.
proof fn lemma_same_fields_couple_alike(
    s1: Seq<AbsorptionRow>,
    s2: Seq<AbsorptionRow>,
    all1: Seq<AbsorptionRow>,
    all2: Seq<AbsorptionRow>,
    scope: Seq<char>,
    g: Seq<char>,
)
    requires
        fields_of(s1) == fields_of(s2),
        fields_of(all1) == fields_of(all2),
    ensures
        local_couple_from(s1, all1, scope, g) == local_couple_from(s2, all2, scope, g),
    decreases s1.len(),
{
    assert(fields_of(s1).len() == s1.len() && fields_of(s2).len() == s2.len());
    if s1.len() > 0 {
        assert(fields_of(s1)[0] == fields_of(s2)[0]);
        let r1 = s1[0];
        let r2 = s2[0];
        assert forall|key: Seq<char>| global_couple_key(all1, key) == global_couple_key(all2, key) by {
            lemma_same_fields_resolve_alike(all1, all2, crate::absorption::MODEL@, None, key);
            match crate::absorption::split_couple(key) {
                Some((m, e)) => {
                    lemma_same_fields_resolve_alike(all1, all2, crate::absorption::MODEL@, None, m);
                    lemma_same_fields_resolve_alike(
                        all1,
                        all2,
                        "effort"@,
                        Some(m),
                        crate::absorption::effort_key_of(e),
                    );
                },
                None => {},
            }
        }
        assert(global_couple_key(all1, r1.member@) == global_couple_key(all2, r2.member@));
        assert(global_couple_key(all1, r1.absorbent@) == global_couple_key(all2, r2.absorbent@));
        assert(fields_of(s1.drop_first()) =~= fields_of(s1).drop_first());
        assert(fields_of(s2.drop_first()) =~= fields_of(s2).drop_first());
        lemma_same_fields_couple_alike(s1.drop_first(), s2.drop_first(), all1, all2, scope, g);
    }
}

/// A resolver does not depend on the order the store listed its rows in,
/// nor on their origin, creation time or scope name: two resolvers built
/// (as `from_rows` builds them: the same rows, in key order) from rows
/// with distinct `(dimension, scope, member)` keys that hold the same
/// resolution fields, in whatever order, hold those fields in the same
/// places, and so resolve, name and list members alike in every dimension
/// and scope, the couple step included.
pub proof fn law_resolution_ignores_row_order(
    a: AbsorptionResolver,
    b: AbsorptionResolver,
    rows_a: Seq<AbsorptionRow>,
    rows_b: Seq<AbsorptionRow>,
)
    requires
        rows_in_order(a.rows()),
        a.rows().to_multiset() == rows_a.to_multiset(),
        rows_in_order(b.rows()),
        b.rows().to_multiset() == rows_b.to_multiset(),
        keys_of(rows_a).no_duplicates(),
        fields_of(rows_a).to_multiset() == fields_of(rows_b).to_multiset(),
    ensures
        fields_of(a.rows()) == fields_of(b.rows()),
        forall|d: Seq<char>, sc: Option<Seq<char>>, k: Seq<char>|
            #[trigger] resolve_in(a.rows(), d, sc, k) == resolve_in(b.rows(), d, sc, k),
        forall|d: Seq<char>, sc: Option<Seq<char>>, k: Seq<char>|
            #[trigger] stored_name_in(a.rows(), d, sc, k) == stored_name_in(b.rows(), d, sc, k),
        forall|d: Seq<char>, sc: Option<Seq<char>>, k: Seq<char>|
            #[trigger] members_in(a.rows(), d, sc, k) == members_in(b.rows(), d, sc, k),
        forall|scope: Seq<char>, g: Seq<char>|
            #[trigger] local_couple_from(a.rows(), a.rows(), scope, g) == local_couple_from(b.rows(), b.rows(), scope, g),
{
    let fa = |r: AbsorptionRow| resolution_fields(r);
    let ka = |r: AbsorptionRow| row_key(r);
    let kp = |f: (Seq<char>, Seq<char>, Seq<char>, Seq<char>, Seq<char>, Seq<char>)| key_part(f);
    // The sorted rows hold what the inputs hold.
    lemma_map_multiset(a.rows(), rows_a, fa);
    lemma_map_multiset(b.rows(), rows_b, fa);
    lemma_map_multiset(a.rows(), rows_a, ka);
    lemma_no_duplicates_transfer(keys_of(rows_a), keys_of(a.rows()));
    // Keys are a part of the fields, so b's keys are a's keys.
    lemma_map_multiset(fields_of(a.rows()), fields_of(b.rows()), kp);
    assert(fields_of(a.rows()).map_values(kp) =~= keys_of(a.rows()));
    assert(fields_of(b.rows()).map_values(kp) =~= keys_of(b.rows()));
    lemma_no_duplicates_transfer(keys_of(a.rows()), keys_of(b.rows()));
    lemma_ordered_rows_determined(a.rows(), b.rows());
    assert forall|d: Seq<char>, sc: Option<Seq<char>>, k: Seq<char>|
        #[trigger] resolve_in(a.rows(), d, sc, k) == resolve_in(b.rows(), d, sc, k) by {
        lemma_same_fields_resolve_alike(a.rows(), b.rows(), d, sc, k);
    }
    assert forall|d: Seq<char>, sc: Option<Seq<char>>, k: Seq<char>|
        #[trigger] stored_name_in(a.rows(), d, sc, k) == stored_name_in(b.rows(), d, sc, k) by {
        lemma_same_fields_resolve_alike(a.rows(), b.rows(), d, sc, k);
    }
    assert forall|d: Seq<char>, sc: Option<Seq<char>>, k: Seq<char>|
        #[trigger] members_in(a.rows(), d, sc, k) == members_in(b.rows(), d, sc, k) by {
        lemma_same_fields_resolve_alike(a.rows(), b.rows(), d, sc, k);
    }
    assert forall|scope: Seq<char>, g: Seq<char>|
        #[trigger] local_couple_from(a.rows(), a.rows(), scope, g) == local_couple_from(b.rows(), b.rows(), scope, g) by {
        lemma_same_fields_couple_alike(a.rows(), b.rows(), a.rows(), b.rows(), scope, g);
    }
}

} // verus!
