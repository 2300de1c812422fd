//! What each raw key did in the period, under the row that counts it, and
//! the absorbed members a row lists with those figures.
//!
//! A row (a Pipeline, a Node or a model) keeps one tally per raw key it
//! counts: the Runs seen under that key, the executions, the most recent
//! Run start, and how often its identity was read from the source or only
//! requested.
use vstd::prelude::*;
use crate::absorption::{
    couple_name, effort_name, effort_of, effort_of_key, global_couple_key, in_scope, members_in, opt_str,
    split_couple, split_couple_key, AbsorptionResolver, AbsorptionRow, Named, ScopeAbsorptions, COUPLE,
    EFFORT, MODEL, NODE, PIPELINE,
};
use crate::session_tally::{distinct_sorted, keys_of, tally, texts};
use crate::text::{lemma_text_lt_asymmetric, lemma_text_lt_total, lemma_text_lt_transitive, str_before, str_eq, text_lt};

verus! {

broadcast use vstd::string::group_string_axioms;

/// Where an identity was read from: the source, the startup request, or
/// both across the observations.
#[derive(Debug, Clone, Copy, PartialEq, Eq, Structural)]
pub enum StatsProvenance {
    Observed,
    Requested,
    Mixed,
}

/// The provenance of observations read `observed` times from the source
/// and `requested` times from the request.
pub open spec fn provenance_of(observed: nat, requested: nat) -> StatsProvenance {
    if requested == 0 {
        StatsProvenance::Observed
    } else if observed == 0 {
        StatsProvenance::Requested
    } else {
        StatsProvenance::Mixed
    }
}

/// The provenance of at least one observation.
pub fn provenance(observed: u64, requested: u64) -> (r: StatsProvenance)
    requires
        observed + requested > 0,
    ensures
        r == provenance_of(observed as nat, requested as nat),
{
    if requested == 0 {
        StatsProvenance::Observed
    } else if observed == 0 {
        StatsProvenance::Requested
    } else {
        StatsProvenance::Mixed
    }
}

/// What one raw key did in the period.
#[derive(Debug)]
pub struct KeyTally {
    /// The Runs seen under the key, each once.
    pub runs: Vec<String>,
    pub executions: u64,
    /// The most recent Run start.
    pub last_run: Option<String>,
    pub observed: u64,
    pub requested: u64,
}

/// What a tally holds.
pub struct KeyTallyView {
    pub runs: Set<Seq<char>>,
    pub executions: nat,
    pub last_run: Option<Seq<char>>,
    pub observed: nat,
    pub requested: nat,
}

/// The text of an optional string.
pub open spec fn opt_text(o: Option<String>) -> Option<Seq<char>> {
    match o {
        Some(s) => Some(s@),
        None => None,
    }
}

impl View for KeyTally {
    type V = KeyTallyView;

    open spec fn view(&self) -> KeyTallyView {
        KeyTallyView {
            runs: texts(self.runs@).to_set(),
            executions: self.executions as nat,
            last_run: opt_text(self.last_run),
            observed: self.observed as nat,
            requested: self.requested as nat,
        }
    }
}

/// The tally of a key that did nothing.
pub open spec fn no_tally() -> KeyTallyView {
    KeyTallyView { runs: Set::empty(), executions: 0, last_run: None, observed: 0, requested: 0 }
}

/// The tallies by key of `v`.
pub open spec fn tallies_map(v: Seq<(String, KeyTally)>) -> Map<Seq<char>, KeyTallyView>
    decreases v.len(),
{
    if v.len() == 0 {
        Map::empty()
    } else {
        tallies_map(v.drop_last()).insert(v.last().0@, v.last().1@)
    }
}

/// The tally of `k`, the empty one when absent.
pub open spec fn tally_at(m: Map<Seq<char>, KeyTallyView>, k: Seq<char>) -> KeyTallyView {
    if m.contains_key(k) {
        m[k]
    } else {
        no_tally()
    }
}

/// A Run seen: it joins the key's Runs, and becomes its last Run when it
/// started later than the last one (or is the first).
pub open spec fn run_recorded(t: KeyTallyView, run_id: Seq<char>, started_at: Seq<char>) -> KeyTallyView {
    KeyTallyView {
        runs: t.runs.insert(run_id),
        last_run: match t.last_run {
            Some(last) => if text_lt(last, started_at) {
                Some(started_at)
            } else {
                Some(last)
            },
            None => Some(started_at),
        },
        ..t
    }
}

/// The Runs seen under any key.
pub open spec fn all_runs(m: Map<Seq<char>, KeyTallyView>) -> Set<Seq<char>> {
    Set::new(|r: Seq<char>| exists|k: Seq<char>| m.contains_key(k) && #[trigger] m[k].runs.contains(r))
}

/// `x` is the latest Run start among the keys: some key's last Run, and no
/// key's last Run comes after it.
pub open spec fn is_latest(m: Map<Seq<char>, KeyTallyView>, x: Seq<char>) -> bool {
    &&& exists|k: Seq<char>| m.contains_key(k) && #[trigger] m[k].last_run == Some(x)
    &&& forall|k: Seq<char>| #[trigger] m.contains_key(k) && m[k].last_run is Some ==> !text_lt(x, m[k].last_run->0)
}

/// No key has a last Run.
pub open spec fn no_last_run(m: Map<Seq<char>, KeyTallyView>) -> bool {
    forall|k: Seq<char>| #[trigger] m.contains_key(k) ==> m[k].last_run is None
}

/// The per-raw-key tallies of one row.
#[derive(Debug)]
pub struct PipelineTallies {
    /// Keyed by raw key, ascending.
    pub by_key: Vec<(String, KeyTally)>,
    /// Sessions counts executions; Cost and Performance count Runs only.
    pub count_executions: bool,
}

/// Keys strictly ascending, and each key's Runs listed once.
pub open spec fn tallies_wf(v: Seq<(String, KeyTally)>) -> bool {
    &&& forall|i: int, j: int| 0 <= i < j < v.len() ==> text_lt(v[i].0@, v[j].0@)
    &&& forall|i: int| 0 <= i < v.len() ==> texts((#[trigger] v[i]).1.runs@).no_duplicates()
}

/// With distinct keys, the map holds exactly the entries.
proof fn lemma_map_entries(v: Seq<(String, KeyTally)>)
    requires
        forall|i: int, j: int| 0 <= i < j < v.len() ==> v[i].0@ != v[j].0@,
    ensures
        forall|i: int| 0 <= i < v.len() ==> #[trigger] tallies_map(v).contains_key(v[i].0@) && tallies_map(v)[v[i].0@] == v[i].1@,
        forall|k: Seq<char>| #[trigger] tallies_map(v).contains_key(k) ==> exists|i: int| 0 <= i < v.len() && v[i].0@ == k,
    decreases v.len(),
{
    if v.len() > 0 {
        let p = v.drop_last();
        lemma_map_entries(p);
        assert forall|i: int| 0 <= i < v.len() implies #[trigger] tallies_map(v).contains_key(v[i].0@) && tallies_map(v)[v[i].0@]
            == v[i].1@ by {
            if i < v.len() - 1 {
                assert(p[i] == v[i]);
                assert(tallies_map(p).contains_key(p[i].0@));
                assert(v[i].0@ != v.last().0@);
            }
        }
        assert forall|k: Seq<char>| #[trigger] tallies_map(v).contains_key(k) implies exists|i: int| 0 <= i < v.len() && v[i].0@ == k by {
            if k != v.last().0@ {
                assert(tallies_map(p).contains_key(k));
                let i = choose|i: int| 0 <= i < p.len() && p[i].0@ == k;
                assert(v[i] == p[i]);
            } else {
                assert(v[v.len() - 1].0@ == k);
            }
        }
    }
}

/// Ascending keys are distinct.
proof fn lemma_ascending_distinct(v: Seq<(String, KeyTally)>)
    requires
        tallies_wf(v),
    ensures
        forall|i: int, j: int| 0 <= i < j < v.len() ==> v[i].0@ != v[j].0@,
{
    assert forall|i: int, j: int| 0 <= i < j < v.len() implies v[i].0@ != v[j].0@ by {
        lemma_text_lt_asymmetric(v[i].0@, v[j].0@);
    }
}

impl PipelineTallies {
    /// The tallies by raw key.
    pub open spec fn tallies(&self) -> Map<Seq<char>, KeyTallyView> {
        tallies_map(self.by_key@)
    }

    /// Keys ascending, Runs listed once.
    pub open spec fn wf(&self) -> bool {
        tallies_wf(self.by_key@)
    }

    /// No tally yet; counting Runs only.
    pub fn new() -> (t: PipelineTallies)
        ensures
            t.wf(),
            t.tallies() == Map::<Seq<char>, KeyTallyView>::empty(),
            !t.count_executions,
    {
        PipelineTallies { by_key: Vec::new(), count_executions: false }
    }

    /// No tally yet; counting executions too (Sessions).
    pub fn counting_executions() -> (t: PipelineTallies)
        ensures
            t.wf(),
            t.tallies() == Map::<Seq<char>, KeyTallyView>::empty(),
            t.count_executions,
    {
        PipelineTallies { by_key: Vec::new(), count_executions: true }
    }

    /// The index of `key`, or where it would be inserted.
    fn slot(&self, key: &str) -> (r: (usize, bool))
        requires
            self.wf(),
        ensures
            r.0 <= self.by_key@.len(),
            forall|j: int| 0 <= j < r.0 ==> text_lt(#[trigger] self.by_key@[j].0@, key@),
            r.1 ==> r.0 < self.by_key@.len() && self.by_key@[r.0 as int].0@ == key@,
            !r.1 ==> (r.0 < self.by_key@.len() ==> text_lt(key@, self.by_key@[r.0 as int].0@)),
    {
        let n = self.by_key.len();
        let mut i: usize = 0;
        while i < n && str_before(self.by_key[i].0.as_str(), key)
            invariant
                n == self.by_key@.len(),
                i <= n,
                forall|j: int| 0 <= j < i ==> text_lt(#[trigger] self.by_key@[j].0@, key@),
            decreases n - i,
        {
            i += 1;
        }
        if i < n {
            let found = str_eq(self.by_key[i].0.as_str(), key);
            proof {
                if !found {
                    lemma_text_lt_total(self.by_key@[i as int].0@, key@);
                }
            }
            (i, found)
        } else {
            (i, false)
        }
    }

    /// Replace the tally at `i` (same key) or insert one at `i`, keeping
    /// the map in step.
    fn put(&mut self, i: usize, found: bool, key: &str, t: KeyTally)
        requires
            old(self).wf(),
            texts(t.runs@).no_duplicates(),
            i <= old(self).by_key@.len(),
            forall|j: int| 0 <= j < i ==> text_lt(#[trigger] old(self).by_key@[j].0@, key@),
            found ==> i < old(self).by_key@.len() && old(self).by_key@[i as int].0@ == key@,
            !found ==> (i < old(self).by_key@.len() ==> text_lt(key@, old(self).by_key@[i as int].0@)),
        ensures
            final(self).wf(),
            final(self).tallies() == old(self).tallies().insert(key@, t@),
            final(self).count_executions == old(self).count_executions,
    {
        let ghost v0 = self.by_key@;
        let ghost tv = t@;
        proof {
            lemma_ascending_distinct(v0);
            lemma_map_entries(v0);
        }
        if found {
            let k = self.by_key[i].0.clone();
            self.by_key.set(i, (k, t));
        } else {
            self.by_key.insert(i, (key.to_owned(), t));
        }
        let ghost v1 = self.by_key@;
        proof {
            assert forall|a: int, b: int| 0 <= a < b < v1.len() implies text_lt(v1[a].0@, v1[b].0@) by {
                if found {
                    assert(v1[a].0@ == v0[a].0@ && v1[b].0@ == v0[b].0@);
                } else if b < i {
                    assert(v1[a] == v0[a] && v1[b] == v0[b]);
                } else if b == i {
                    assert(v1[a] == v0[a]);
                } else if a == i {
                    assert(v1[b] == v0[b - 1]);
                    if b - 1 > i {
                        lemma_text_lt_transitive(key@, v0[i as int].0@, v0[b - 1].0@);
                    }
                } else if a < i {
                    assert(v1[a] == v0[a] && v1[b] == v0[b - 1]);
                    lemma_text_lt_transitive(v0[a].0@, key@, v0[i as int].0@);
                    if b - 1 > i {
                        lemma_text_lt_transitive(v0[a].0@, v0[i as int].0@, v0[b - 1].0@);
                    }
                } else {
                    assert(v1[a] == v0[a - 1] && v1[b] == v0[b - 1]);
                }
            }
            assert forall|a: int| 0 <= a < v1.len() implies texts((#[trigger] v1[a]).1.runs@).no_duplicates() by {
                if found {
                    if a != i {
                        assert(v1[a] == v0[a]);
                    }
                } else if a < i {
                    assert(v1[a] == v0[a]);
                } else if a > i {
                    assert(v1[a] == v0[a - 1]);
                }
            }
            assert(tallies_wf(v1));
            lemma_ascending_distinct(v1);
            lemma_map_entries(v1);
            let m0 = tallies_map(v0);
            let m1 = tallies_map(v1);
            assert forall|k: Seq<char>| #[trigger] m1.contains_key(k) == m0.insert(key@, tv).contains_key(k) by {
                if m1.contains_key(k) {
                    let q = choose|q: int| 0 <= q < v1.len() && v1[q].0@ == k;
                    if k != key@ {
                        if found {
                            assert(v1[q] == v0[q]);
                        } else if q < i {
                            assert(v1[q] == v0[q]);
                        } else {
                            assert(q != i);
                            assert(v1[q] == v0[q - 1]);
                        }
                    }
                }
                if m0.contains_key(k) {
                    let q = choose|q: int| 0 <= q < v0.len() && v0[q].0@ == k;
                    if found {
                        assert(v1[q].0@ == v0[q].0@);
                    } else if q < i {
                        assert(v1[q] == v0[q]);
                    } else {
                        assert(v1[q + 1] == v0[q]);
                    }
                }
                assert(v1[i as int].0@ == key@);
            }
            assert forall|k: Seq<char>| #[trigger] m1.contains_key(k) implies m1[k] == m0.insert(key@, tv)[k] by {
                let q = choose|q: int| 0 <= q < v1.len() && v1[q].0@ == k;
                assert(tallies_map(v1).contains_key(v1[q].0@));
                if q == i {
                    assert(v1[q].1@ == tv);
                } else if found || q < i {
                    assert(v1[q] == v0[q]);
                    assert(tallies_map(v0).contains_key(v0[q].0@));
                    assert(v1[i as int].0@ == key@);
                    if q < i {
                        assert(v1[q].0@ != v1[i as int].0@);
                    } else {
                        assert(v1[i as int].0@ != v1[q].0@);
                    }
                    assert(k != key@);
                } else {
                    assert(v1[q] == v0[q - 1]);
                    assert(tallies_map(v0).contains_key(v0[q - 1].0@));
                    assert(v1[i as int].0@ == key@);
                    assert(v1[i as int].0@ != v1[q].0@);
                    assert(k != key@);
                }
            }
            assert(m1 =~= m0.insert(key@, tv));
        }
    }

    /// The tally of `key` as stored, or an empty one.
    fn take_tally(&self, i: usize, found: bool, key: &str) -> (t: KeyTally)
        requires
            self.wf(),
            found ==> i < self.by_key@.len() && self.by_key@[i as int].0@ == key@,
            !found ==> !self.tallies().contains_key(key@),
        ensures
            t@ == tally_at(self.tallies(), key@),
            texts(t.runs@).no_duplicates(),
    {
        proof {
            lemma_ascending_distinct(self.by_key@);
            lemma_map_entries(self.by_key@);
        }
        if found {
            let s = &self.by_key[i].1;
            let mut runs: Vec<String> = Vec::new();
            let mut j: usize = 0;
            while j < s.runs.len()
                invariant
                    j <= s.runs@.len(),
                    texts(runs@) == texts(s.runs@).take(j as int),
                decreases s.runs.len() - j,
            {
                let ghost before = texts(runs@);
                runs.push(s.runs[j].clone());
                assert(texts(runs@) =~= before.push(s.runs@[j as int]@));
                assert(texts(s.runs@).take(j + 1) =~= texts(s.runs@).take(j as int).push(s.runs@[j as int]@));
                j += 1;
            }
            assert(texts(s.runs@).take(j as int) =~= texts(s.runs@));
            assert(self.by_key@[i as int].1 == *s);
            assert(texts(self.by_key@[i as int].1.runs@).no_duplicates());
            let last_run = match &s.last_run {
                Some(l) => Some(l.clone()),
                None => None,
            };
            KeyTally { runs, executions: s.executions, last_run, observed: s.observed, requested: s.requested }
        } else {
            let t = KeyTally { runs: Vec::new(), executions: 0, last_run: None, observed: 0, requested: 0 };
            assert(texts(t.runs@).to_set() =~= Set::<Seq<char>>::empty());
            t
        }
    }

    /// Whether `key` has no tally.
    proof fn lemma_absent(&self, i: usize, key: Seq<char>)
        requires
            self.wf(),
            i <= self.by_key@.len(),
            forall|j: int| 0 <= j < i ==> text_lt(#[trigger] self.by_key@[j].0@, key),
            i < self.by_key@.len() ==> text_lt(key, self.by_key@[i as int].0@),
        ensures
            !self.tallies().contains_key(key),
    {
        lemma_ascending_distinct(self.by_key@);
        lemma_map_entries(self.by_key@);
        if self.tallies().contains_key(key) {
            let q = choose|q: int| 0 <= q < self.by_key@.len() && self.by_key@[q].0@ == key;
            if q < i {
                lemma_text_lt_asymmetric(self.by_key@[q].0@, key);
            } else if q == i {
                lemma_text_lt_asymmetric(key, self.by_key@[q].0@);
            } else {
                lemma_text_lt_transitive(key, self.by_key@[i as int].0@, self.by_key@[q].0@);
                lemma_text_lt_asymmetric(key, self.by_key@[q].0@);
            }
        }
    }

    /// A Run seen under raw key `key` (a Pipeline key, a Node id or a model
    /// id).
    pub fn record_run_as(&mut self, key: &str, run_id: &str, started_at: &str)
        requires
            old(self).wf(),
        ensures
            final(self).wf(),
            final(self).tallies() == old(self).tallies().insert(
                key@,
                run_recorded(tally_at(old(self).tallies(), key@), run_id@, started_at@),
            ),
            final(self).count_executions == old(self).count_executions,
    {
        let (i, found) = self.slot(key);
        proof {
            if !found {
                self.lemma_absent(i, key@);
            }
        }
        let mut t = self.take_tally(i, found, key);
        let ghost before = t@;
        let mut present = false;
        let mut j: usize = 0;
        while j < t.runs.len()
            invariant
                j <= t.runs@.len(),
                !present <==> forall|q: int| 0 <= q < j ==> (#[trigger] t.runs@[q])@ != run_id@,
            decreases t.runs.len() - j,
        {
            if str_eq(t.runs[j].as_str(), run_id) {
                present = true;
            }
            j += 1;
        }
        let ghost old_runs = texts(t.runs@);
        if !present {
            t.runs.push(run_id.to_owned());
            proof {
                assert(texts(t.runs@) =~= old_runs.push(run_id@));
                assert(!old_runs.contains(run_id@)) by {
                    if old_runs.contains(run_id@) {
                        let q = choose|q: int| 0 <= q < old_runs.len() && old_runs[q] == run_id@;
                        assert(t.runs@[q]@ == old_runs[q]);
                    }
                }
                old_runs.lemma_push_to_set_commute(run_id@);
                assert(texts(t.runs@).to_set() =~= old_runs.to_set().insert(run_id@));
                assert(texts(t.runs@).no_duplicates()) by {
                    assert forall|a: int, b: int| 0 <= a < texts(t.runs@).len() && 0 <= b < texts(t.runs@).len() && a != b
                        implies texts(t.runs@)[a] != texts(t.runs@)[b] by {
                        if a < old_runs.len() && b < old_runs.len() {
                        } else if a == old_runs.len() {
                            assert(old_runs[b] == texts(t.runs@)[b]);
                        } else {
                            assert(old_runs[a] == texts(t.runs@)[a]);
                        }
                    }
                }
            }
        } else {
            proof {
                let q = choose|q: int| 0 <= q < j && (#[trigger] t.runs@[q])@ == run_id@;
                assert(old_runs[q] == run_id@);
                assert(old_runs.to_set().insert(run_id@) =~= old_runs.to_set());
            }
        }
        let later = match &t.last_run {
            Some(last) => str_before(last.as_str(), started_at),
            None => true,
        };
        if later {
            t.last_run = Some(started_at.to_owned());
        }
        assert(t@ == run_recorded(before, run_id@, started_at@));
        self.put(i, found, key, t);
    }

    /// One execution under raw key `key`.
    pub fn record_execution_as(&mut self, key: &str)
        requires
            old(self).wf(),
            tally_at(old(self).tallies(), key@).executions < u64::MAX,
        ensures
            final(self).wf(),
            final(self).tallies() == old(self).tallies().insert(
                key@,
                KeyTallyView {
                    executions: tally_at(old(self).tallies(), key@).executions + 1,
                    ..tally_at(old(self).tallies(), key@)
                },
            ),
            final(self).count_executions == old(self).count_executions,
    {
        let (i, found) = self.slot(key);
        proof {
            if !found {
                self.lemma_absent(i, key@);
            }
        }
        let mut t = self.take_tally(i, found, key);
        t.executions = t.executions + 1;
        self.put(i, found, key, t);
    }

    /// One observation of model `key`, read from the source or requested.
    pub fn record_provenance_as(&mut self, key: &str, observed: bool)
        requires
            old(self).wf(),
            tally_at(old(self).tallies(), key@).observed < u64::MAX,
            tally_at(old(self).tallies(), key@).requested < u64::MAX,
        ensures
            final(self).wf(),
            final(self).tallies() == old(self).tallies().insert(
                key@,
                if observed {
                    KeyTallyView {
                        observed: tally_at(old(self).tallies(), key@).observed + 1,
                        ..tally_at(old(self).tallies(), key@)
                    }
                } else {
                    KeyTallyView {
                        requested: tally_at(old(self).tallies(), key@).requested + 1,
                        ..tally_at(old(self).tallies(), key@)
                    }
                },
            ),
            final(self).count_executions == old(self).count_executions,
    {
        let (i, found) = self.slot(key);
        proof {
            if !found {
                self.lemma_absent(i, key@);
            }
        }
        let mut t = self.take_tally(i, found, key);
        if observed {
            t.observed = t.observed + 1;
        } else {
            t.requested = t.requested + 1;
        }
        self.put(i, found, key, t);
    }
}

// ───────────────────────────── reading the tallies ─────────────────────────────

/// The Runs listed under the first `i` keys.
pub open spec fn runs_upto(v: Seq<(String, KeyTally)>, i: int) -> Set<Seq<char>> {
    Set::new(|r: Seq<char>| exists|q: int| 0 <= q < i && (#[trigger] v[q]).1@.runs.contains(r))
}

/// One absorbed member as a row lists it: its name, and what it did in the
/// period (`runs` always; `executions` when the row counts them;
/// `provenance` when its identity was observed at all).
#[derive(Debug, PartialEq, Eq)]
pub struct AbsorbedMember {
    pub key: String,
    pub name: String,
    pub runs: u64,
    pub executions: Option<u64>,
    pub last_run: Option<String>,
    pub provenance: Option<StatsProvenance>,
    /// The raw scopes whose absorption holds the member (effort and couple
    /// rows).
    pub scopes: Vec<String>,
}

/// `m` shows the figures of the tally of `tally_key`.
pub open spec fn tally_figures(
    m: AbsorbedMember,
    tallies: Map<Seq<char>, KeyTallyView>,
    count_executions: bool,
    tally_key: Seq<char>,
) -> bool {
    let t = tally_at(tallies, tally_key);
    &&& m.runs == t.runs.len()
    &&& match m.executions {
        Some(e) => count_executions && e == t.executions,
        None => !count_executions,
    }
    &&& opt_text(m.last_run) == t.last_run
    &&& m.provenance == if t.observed + t.requested > 0 {
        Some(provenance_of(t.observed, t.requested))
    } else {
        None
    }
}

/// `m` shows member `(key, name)` with the figures of its tally.
pub open spec fn member_figures(
    m: AbsorbedMember,
    tallies: Map<Seq<char>, KeyTallyView>,
    count_executions: bool,
    key: Seq<char>,
    name: Seq<char>,
) -> bool {
    &&& m.key@ == key
    &&& m.name@ == name
    &&& tally_figures(m, tallies, count_executions, key)
}

/// `m` lists member `(key, name)` with the figures of its tally, and no
/// scopes.
pub open spec fn lists_member(
    m: AbsorbedMember,
    tallies: Map<Seq<char>, KeyTallyView>,
    count_executions: bool,
    key: Seq<char>,
    name: Seq<char>,
) -> bool {
    member_figures(m, tallies, count_executions, key, name) && m.scopes@.len() == 0
}

/// The name a couple key shows with: « model · effort », or the key itself
/// when it is not a couple.
pub open spec fn couple_display(key: Seq<char>) -> Seq<char> {
    match split_couple(key) {
        Some((model, effort)) => model + " \u{b7} "@ + match effort {
            Some(e) => e,
            None => "not set"@,
        },
        None => key,
    }
}

impl PipelineTallies {
    /// The number of distinct Runs seen under any key.
    pub fn runs(&self) -> (r: u64)
        requires
            self.wf(),
        ensures
            all_runs(self.tallies()).finite(),
            r == all_runs(self.tallies()).len(),
    {
        let ghost v = self.by_key@;
        let mut seen: Vec<String> = Vec::new();
        let mut i: usize = 0;
        assert(texts(seen@).to_set() =~= runs_upto(v, 0));
        while i < self.by_key.len()
            invariant
                i <= v.len(),
                v == self.by_key@,
                texts(seen@).no_duplicates(),
                texts(seen@).to_set() == runs_upto(v, i as int),
            decreases self.by_key.len() - i,
        {
            let runs = &self.by_key[i].1.runs;
            let ghost start = texts(seen@).to_set();
            let mut j: usize = 0;
            while j < runs.len()
                invariant
                    j <= runs@.len(),
                    texts(seen@).no_duplicates(),
                    texts(seen@).to_set() == start + texts(runs@.take(j as int)).to_set(),
                decreases runs.len() - j,
            {
                let ghost before = texts(seen@);
                let mut present = false;
                let mut q: usize = 0;
                while q < seen.len()
                    invariant
                        q <= seen@.len(),
                        j < runs@.len(),
                        before == texts(seen@),
                        !present <==> forall|x: int| 0 <= x < q ==> (#[trigger] seen@[x])@ != runs@[j as int]@,
                    decreases seen.len() - q,
                {
                    if str_eq(seen[q].as_str(), runs[j].as_str()) {
                        present = true;
                    }
                    q += 1;
                }
                let ghost x = runs@[j as int]@;
                proof {
                    texts(runs@.take(j as int)).lemma_push_to_set_commute(x);
                    assert(texts(runs@.take(j + 1)) =~= texts(runs@.take(j as int)).push(x));
                }
                if !present {
                    seen.push(runs[j].clone());
                    proof {
                        assert(texts(seen@) =~= before.push(x));
                        before.lemma_push_to_set_commute(x);
                        assert(!before.contains(x)) by {
                            if before.contains(x) {
                                let y = choose|y: int| 0 <= y < before.len() && before[y] == x;
                                assert(seen@[y]@ == before[y]);
                            }
                        }
                        assert forall|a: int, b: int|
                            0 <= a < texts(seen@).len() && 0 <= b < texts(seen@).len() && a != b implies texts(seen@)[a]
                                != texts(seen@)[b] by {
                            if a == before.len() {
                                assert(texts(seen@)[b] == before[b]);
                            } else if b == before.len() {
                                assert(texts(seen@)[a] == before[a]);
                            } else {
                                assert(texts(seen@)[a] == before[a] && texts(seen@)[b] == before[b]);
                            }
                        }
                        assert(texts(seen@).to_set() =~= start + texts(runs@.take(j + 1)).to_set());
                    }
                } else {
                    proof {
                        let y = choose|y: int| 0 <= y < q && (#[trigger] seen@[y])@ == runs@[j as int]@;
                        assert(before[y] == x);
                        assert(before.to_set().contains(x));
                        assert(texts(seen@).to_set() =~= start + texts(runs@.take(j + 1)).to_set());
                    }
                }
                j += 1;
            }
            proof {
                assert(runs@.take(j as int) =~= runs@);
                assert(v[i as int].1.runs == *runs);
                assert(texts(seen@).to_set() =~= runs_upto(v, i + 1)) by {
                    assert forall|r: Seq<char>| #[trigger] texts(seen@).to_set().contains(r) <==> runs_upto(v, i + 1).contains(r) by {
                        if runs_upto(v, i + 1).contains(r) {
                            let q = choose|q: int| 0 <= q < i + 1 && (#[trigger] v[q]).1@.runs.contains(r);
                            if q < i {
                                assert(runs_upto(v, i as int).contains(r));
                            }
                        }
                        if runs_upto(v, i as int).contains(r) {
                            let q = choose|q: int| 0 <= q < i && (#[trigger] v[q]).1@.runs.contains(r);
                            assert(runs_upto(v, i + 1).contains(r));
                        }
                    }
                }
            }
            i += 1;
        }
        proof {
            lemma_ascending_distinct(v);
            lemma_map_entries(v);
            let m = tallies_map(v);
            assert(all_runs(m) =~= runs_upto(v, v.len() as int)) by {
                assert forall|r: Seq<char>| #[trigger] all_runs(m).contains(r) <==> runs_upto(v, v.len() as int).contains(r) by {
                    if all_runs(m).contains(r) {
                        let k = choose|k: Seq<char>| m.contains_key(k) && #[trigger] m[k].runs.contains(r);
                        let q = choose|q: int| 0 <= q < v.len() && v[q].0@ == k;
                        assert(m.contains_key(v[q].0@));
                        assert(v[q].1@.runs.contains(r));
                    }
                    if runs_upto(v, v.len() as int).contains(r) {
                        let q = choose|q: int| 0 <= q < v.len() && (#[trigger] v[q]).1@.runs.contains(r);
                        assert(m.contains_key(v[q].0@));
                        assert(m[v[q].0@].runs.contains(r));
                    }
                }
            }
            texts(seen@).unique_seq_to_set();
            vstd::seq_lib::seq_to_set_is_finite(texts(seen@));
        }
        seen.len() as u64
    }

    /// The most recent Run start among the keys.
    pub fn last_run(&self) -> (r: Option<String>)
        requires
            self.wf(),
        ensures
            match r {
                Some(x) => is_latest(self.tallies(), x@),
                None => no_last_run(self.tallies()),
            },
    {
        let ghost v = self.by_key@;
        let mut best: Option<String> = None;
        let mut i: usize = 0;
        while i < self.by_key.len()
            invariant
                i <= v.len(),
                v == self.by_key@,
                match best {
                    Some(x) => (exists|q: int| 0 <= q < i && #[trigger] v[q].1@.last_run == Some(x@)) && forall|q: int|
                        0 <= q < i && (#[trigger] v[q]).1@.last_run is Some ==> !text_lt(x@, v[q].1@.last_run->0),
                    None => forall|q: int| 0 <= q < i ==> (#[trigger] v[q]).1@.last_run is None,
                },
            decreases self.by_key.len() - i,
        {
            let cand = &self.by_key[i].1.last_run;
            assert(v[i as int].1.last_run == *cand);
            match cand {
                Some(c) => {
                    let replace = match &best {
                        Some(b) => str_before(b.as_str(), c.as_str()),
                        None => true,
                    };
                    if replace {
                        let ghost prev = best;
                        best = Some(c.clone());
                        proof {
                            assert(v[i as int].1@.last_run == Some(c@));
                            assert forall|q: int| 0 <= q < i + 1 && (#[trigger] v[q]).1@.last_run is Some implies !text_lt(
                                c@,
                                v[q].1@.last_run->0,
                            ) by {
                                if q == i {
                                    lemma_text_lt_asymmetric(c@, c@);
                                } else {
                                    match prev {
                                        Some(b) => {
                                            lemma_text_lt_total(c@, v[q].1@.last_run->0);
                                            if text_lt(c@, v[q].1@.last_run->0) {
                                                lemma_text_lt_transitive(b@, c@, v[q].1@.last_run->0);
                                            }
                                        },
                                        None => {},
                                    }
                                }
                            }
                        }
                    } else {
                        proof {
                            let b = best->0;
                            let w = choose|q: int| 0 <= q < i && #[trigger] v[q].1@.last_run == Some(b@);
                            assert(v[w].1@.last_run == Some(b@));
                            assert forall|q: int| 0 <= q < i + 1 && (#[trigger] v[q]).1@.last_run is Some implies !text_lt(
                                b@,
                                v[q].1@.last_run->0,
                            ) by {}
                        }
                    }
                },
                None => {},
            }
            i += 1;
        }
        proof {
            lemma_ascending_distinct(v);
            lemma_map_entries(v);
            let m = tallies_map(v);
            if best is Some {
                let x = best->0;
                let w = choose|q: int| 0 <= q < v.len() && #[trigger] v[q].1@.last_run == Some(x@);
                assert(m.contains_key(v[w].0@));
                assert(m[v[w].0@].last_run == Some(x@));
                assert forall|k: Seq<char>| #[trigger] m.contains_key(k) && m[k].last_run is Some implies !text_lt(
                    x@,
                    m[k].last_run->0,
                ) by {
                    let q = choose|q: int| 0 <= q < v.len() && v[q].0@ == k;
                    assert(m.contains_key(v[q].0@));
                }
            } else {
                assert forall|k: Seq<char>| #[trigger] m.contains_key(k) implies m[k].last_run is None by {
                    let q = choose|q: int| 0 <= q < v.len() && v[q].0@ == k;
                    assert(m.contains_key(v[q].0@));
                }
            }
        }
        best
    }

    /// The raw keys seen, ascending.
    pub fn keys(&self) -> (r: Vec<String>)
        requires
            self.wf(),
        ensures
            forall|i: int, j: int| 0 <= i < j < r@.len() ==> text_lt(r@[i]@, r@[j]@),
            forall|k: Seq<char>| self.tallies().contains_key(k) <==> texts(r@).contains(k),
    {
        let ghost v = self.by_key@;
        let mut r: Vec<String> = Vec::new();
        let mut i: usize = 0;
        while i < self.by_key.len()
            invariant
                i <= v.len(),
                v == self.by_key@,
                r@.len() == i,
                forall|q: int| 0 <= q < i ==> (#[trigger] r@[q])@ == v[q].0@,
            decreases self.by_key.len() - i,
        {
            r.push(self.by_key[i].0.clone());
            i += 1;
        }
        proof {
            lemma_ascending_distinct(v);
            lemma_map_entries(v);
            assert forall|k: Seq<char>| self.tallies().contains_key(k) <==> texts(r@).contains(k) by {
                if self.tallies().contains_key(k) {
                    let q = choose|q: int| 0 <= q < v.len() && v[q].0@ == k;
                    assert(texts(r@)[q] == k);
                }
                if texts(r@).contains(k) {
                    let q = choose|q: int| 0 <= q < texts(r@).len() && texts(r@)[q] == k;
                    assert(r@[q]@ == v[q].0@);
                    assert(self.tallies().contains_key(v[q].0@));
                }
            }
        }
        r
    }

    /// Member `member` as its row lists it.
    pub fn member(&self, member: &Named) -> (m: AbsorbedMember)
        requires
            self.wf(),
        ensures
            lists_member(m, self.tallies(), self.count_executions, member.key@, member.name@),
    {
        let (i, found) = self.slot(member.key.as_str());
        proof {
            lemma_ascending_distinct(self.by_key@);
            lemma_map_entries(self.by_key@);
            if !found {
                self.lemma_absent(i, member.key@);
            } else {
                assert(self.tallies().contains_key(self.by_key@[i as int].0@));
            }
        }
        if found {
            let t = &self.by_key[i].1;
            proof {
                assert(self.by_key@[i as int].1 == *t);
                texts(t.runs@).unique_seq_to_set();
            }
            let executions = if self.count_executions { Some(t.executions) } else { None };
            let provenance = if t.observed > 0 || t.requested > 0 {
                Some(provenance(t.observed, t.requested))
            } else {
                None
            };
            let last_run = match &t.last_run {
                Some(l) => Some(l.clone()),
                None => None,
            };
            AbsorbedMember {
                key: member.key.clone(),
                name: member.name.clone(),
                runs: t.runs.len() as u64,
                executions,
                last_run,
                provenance,
                scopes: Vec::new(),
            }
        } else {
            proof {
                assert(Set::<Seq<char>>::empty().len() == 0);
            }
            AbsorbedMember {
                key: member.key.clone(),
                name: member.name.clone(),
                runs: 0,
                executions: if self.count_executions { Some(0) } else { None },
                last_run: None,
                provenance: None,
                scopes: Vec::new(),
            }
        }
    }

    /// The raw couples a couple row counts through a global absorption, as
    /// its read-only list shows them: by key, named « model · effort ».
    pub fn global_members(&self) -> (r: Vec<AbsorbedMember>)
        requires
            self.wf(),
        ensures
            r@.len() == self.by_key@.len(),
            forall|i: int|
                0 <= i < r@.len() ==> lists_member(
                    #[trigger] r@[i],
                    self.tallies(),
                    self.count_executions,
                    self.by_key@[i].0@,
                    couple_display(self.by_key@[i].0@),
                ),
    {
        let mut r: Vec<AbsorbedMember> = Vec::new();
        let mut i: usize = 0;
        while i < self.by_key.len()
            invariant
                i <= self.by_key@.len(),
                self.wf(),
                r@.len() == i,
                forall|q: int|
                    0 <= q < i ==> lists_member(
                        #[trigger] r@[q],
                        self.tallies(),
                        self.count_executions,
                        self.by_key@[q].0@,
                        couple_display(self.by_key@[q].0@),
                    ),
            decreases self.by_key.len() - i,
        {
            let key = &self.by_key[i].0;
            let name = match split_couple_key(key.as_str()) {
                Some((model, effort)) => match &effort {
                    Some(e) => couple_name(model.as_str(), Some(e.as_str())),
                    None => couple_name(model.as_str(), None),
                },
                None => key.clone(),
            };
            let m = self.member(&Named { key: key.clone(), name });
            r.push(m);
            i += 1;
        }
        r
    }
}

impl<'a> ScopeAbsorptions<'a> {
    /// The members of `absorbent` as its row lists them, with what each did
    /// in the period: every member, one with no Run in it too.
    pub fn absorbed(&self, absorbent: &str, tallies: &PipelineTallies) -> (r: Vec<AbsorbedMember>)
        requires
            tallies.wf(),
        ensures
            r@.len() == members_in(self.rows@, self.dimension@, opt_str(self.scope), absorbent@).len(),
            forall|i: int|
                0 <= i < r@.len() ==> lists_member(
                    #[trigger] r@[i],
                    tallies.tallies(),
                    tallies.count_executions,
                    members_in(self.rows@, self.dimension@, opt_str(self.scope), absorbent@)[i].0,
                    members_in(self.rows@, self.dimension@, opt_str(self.scope), absorbent@)[i].1,
                ),
    {
        let members = self.members_of(absorbent);
        let ghost ms = members_in(self.rows@, self.dimension@, opt_str(self.scope), absorbent@);
        let mut r: Vec<AbsorbedMember> = Vec::new();
        let mut i: usize = 0;
        while i < members.len()
            invariant
                i <= members@.len(),
                members@.map_values(|m: Named| (m.key@, m.name@)) == ms,
                tallies.wf(),
                r@.len() == i,
                forall|q: int|
                    0 <= q < i ==> lists_member(
                        #[trigger] r@[q],
                        tallies.tallies(),
                        tallies.count_executions,
                        ms[q].0,
                        ms[q].1,
                    ),
            decreases members.len() - i,
        {
            assert(ms[i as int] == (members@[i as int].key@, members@[i as int].name@));
            r.push(tallies.member(&members[i]));
            i += 1;
        }
        r
    }
}

impl AbsorptionResolver {
    /// The members of Pipeline `absorbent` as its row lists them.
    pub fn absorbed(&self, absorbent: &str, tallies: &PipelineTallies) -> (r: Vec<AbsorbedMember>)
        requires
            tallies.wf(),
        ensures
            r@.len() == members_in(self.rows(), PIPELINE@, None, absorbent@).len(),
            forall|i: int|
                0 <= i < r@.len() ==> lists_member(
                    #[trigger] r@[i],
                    tallies.tallies(),
                    tallies.count_executions,
                    members_in(self.rows(), PIPELINE@, None, absorbent@)[i].0,
                    members_in(self.rows(), PIPELINE@, None, absorbent@)[i].1,
                ),
    {
        self.pipelines().absorbed(absorbent, tallies)
    }

    /// The members of Node `absorbent` under Pipeline row `pipeline`.
    pub fn absorbed_nodes(&self, pipeline: &str, absorbent: &str, tallies: &PipelineTallies) -> (r: Vec<AbsorbedMember>)
        requires
            tallies.wf(),
        ensures
            r@.len() == members_in(self.rows(), NODE@, Some(pipeline@), absorbent@).len(),
            forall|i: int|
                0 <= i < r@.len() ==> lists_member(
                    #[trigger] r@[i],
                    tallies.tallies(),
                    tallies.count_executions,
                    members_in(self.rows(), NODE@, Some(pipeline@), absorbent@)[i].0,
                    members_in(self.rows(), NODE@, Some(pipeline@), absorbent@)[i].1,
                ),
    {
        self.nodes(pipeline).absorbed(absorbent, tallies)
    }

    /// The members of model `absorbent` on the « By model » axis.
    pub fn absorbed_models(&self, absorbent: &str, tallies: &PipelineTallies) -> (r: Vec<AbsorbedMember>)
        requires
            tallies.wf(),
        ensures
            r@.len() == members_in(self.rows(), MODEL@, None, absorbent@).len(),
            forall|i: int|
                0 <= i < r@.len() ==> lists_member(
                    #[trigger] r@[i],
                    tallies.tallies(),
                    tallies.count_executions,
                    members_in(self.rows(), MODEL@, None, absorbent@)[i].0,
                    members_in(self.rows(), MODEL@, None, absorbent@)[i].1,
                ),
    {
        self.models().absorbed(absorbent, tallies)
    }
}

// ───────────────────────────── effort members ─────────────────────────────

/// `(member, raw model)` for each member of effort `absorbent` under each
/// raw model, in order.
pub open spec fn effort_pairs(rows: Seq<crate::absorption::AbsorptionRow>, raw_models: Seq<Seq<char>>, absorbent: Seq<char>) -> Seq<
    (Seq<char>, Seq<char>),
>
    decreases raw_models.len(),
{
    if raw_models.len() == 0 {
        Seq::empty()
    } else {
        let rm = raw_models.last();
        effort_pairs(rows, raw_models.drop_last(), absorbent) + members_in(rows, EFFORT@, Some(rm), absorbent).map_values(
            |m: (Seq<char>, Seq<char>)| (m.0, rm),
        )
    }
}

/// The raw models that hold member `key`, in order.
pub open spec fn holders(pairs: Seq<(Seq<char>, Seq<char>)>, key: Seq<char>) -> Seq<Seq<char>>
    decreases pairs.len(),
{
    if pairs.len() == 0 {
        Seq::empty()
    } else if pairs.last().0 == key {
        holders(pairs.drop_last(), key).push(pairs.last().1)
    } else {
        holders(pairs.drop_last(), key)
    }
}

/// The name an effort key shows with: the effort, or « not set ».
pub open spec fn effort_display(key: Seq<char>) -> Seq<char> {
    match effort_of(key) {
        Some(e) => e,
        None => "not set"@,
    }
}

impl AbsorptionResolver {
    /// The members of effort `absorbent` (`""` for « not set ») under a
    /// model row that counts the raw model ids `raw_models`, by key, each
    /// with the raw models whose absorption holds it.
    pub fn absorbed_efforts(&self, raw_models: &Vec<String>, absorbent: &str, tallies: &PipelineTallies) -> (r: Vec<
        AbsorbedMember,
    >)
        requires
            tallies.wf(),
        ensures
            ({
                let pairs = effort_pairs(self.rows(), texts(raw_models@), absorbent@);
                let keys = keys_of(tally(pairs.map_values(|p: (Seq<char>, Seq<char>)| p.0)));
                &&& r@.len() == keys.len()
                &&& forall|i: int|
                    0 <= i < r@.len() ==> member_figures(
                        #[trigger] r@[i],
                        tallies.tallies(),
                        tallies.count_executions,
                        keys[i],
                        effort_display(keys[i]),
                    ) && texts(r@[i].scopes@) == holders(pairs, keys[i])
            }),
    {
        let ghost pairs = effort_pairs(self.rows(), texts(raw_models@), absorbent@);
        let mut found: Vec<(String, String)> = Vec::new();
        let mut i: usize = 0;
        while i < raw_models.len()
            invariant
                i <= raw_models@.len(),
                pairs == effort_pairs(self.rows(), texts(raw_models@), absorbent@),
                found@.map_values(|p: (String, String)| (p.0@, p.1@)) == effort_pairs(
                    self.rows(),
                    texts(raw_models@.take(i as int)),
                    absorbent@,
                ),
            decreases raw_models.len() - i,
        {
            let rm = &raw_models[i];
            let members = self.efforts(rm.as_str()).members_of(absorbent);
            let ghost ms = members_in(self.rows(), EFFORT@, Some(rm@), absorbent@);
            let ghost start = found@.map_values(|p: (String, String)| (p.0@, p.1@));
            let mut j: usize = 0;
            while j < members.len()
                invariant
                    j <= members@.len(),
                    members@.map_values(|m: Named| (m.key@, m.name@)) == ms,
                    found@.map_values(|p: (String, String)| (p.0@, p.1@)) == start + ms.take(j as int).map_values(
                        |m: (Seq<char>, Seq<char>)| (m.0, rm@),
                    ),
                decreases members.len() - j,
            {
                let ghost before = found@.map_values(|p: (String, String)| (p.0@, p.1@));
                found.push((members[j].key.clone(), rm.clone()));
                assert(ms[j as int] == (members@[j as int].key@, members@[j as int].name@));
                assert(found@.map_values(|p: (String, String)| (p.0@, p.1@)) =~= before.push((members@[j as int].key@, rm@)));
                assert(ms.take(j + 1).map_values(|m: (Seq<char>, Seq<char>)| (m.0, rm@)) =~= ms.take(j as int).map_values(
                    |m: (Seq<char>, Seq<char>)| (m.0, rm@),
                ).push((ms[j as int].0, rm@)));
                j += 1;
            }
            proof {
                assert(ms.take(j as int) =~= ms);
                assert(texts(raw_models@.take(i + 1)).drop_last() =~= texts(raw_models@.take(i as int)));
                assert(texts(raw_models@.take(i + 1)).last() == rm@);
            }
            i += 1;
        }
        assert(raw_models@.take(i as int) =~= raw_models@);
        let ghost fv = found@.map_values(|p: (String, String)| (p.0@, p.1@));
        assert(fv == pairs);
        let mut member_keys: Vec<String> = Vec::new();
        let mut k: usize = 0;
        while k < found.len()
            invariant
                k <= found@.len(),
                fv == found@.map_values(|p: (String, String)| (p.0@, p.1@)),
                texts(member_keys@) == fv.take(k as int).map_values(|p: (Seq<char>, Seq<char>)| p.0),
                member_keys@.len() == k,
            decreases found.len() - k,
        {
            let ghost before = texts(member_keys@);
            member_keys.push(found[k].0.clone());
            assert(texts(member_keys@) =~= before.push(fv[k as int].0));
            assert(fv.take(k + 1).map_values(|p: (Seq<char>, Seq<char>)| p.0) =~= fv.take(k as int).map_values(
                |p: (Seq<char>, Seq<char>)| p.0,
            ).push(fv[k as int].0));
            k += 1;
        }
        assert(fv.take(k as int) =~= fv);
        let keys = distinct_sorted(&member_keys);
        let ghost ks = keys_of(tally(pairs.map_values(|p: (Seq<char>, Seq<char>)| p.0)));
        let mut r: Vec<AbsorbedMember> = Vec::new();
        let mut q: usize = 0;
        while q < keys.len()
            invariant
                q <= keys@.len(),
                tallies.wf(),
                texts(keys@) == ks,
                fv == found@.map_values(|p: (String, String)| (p.0@, p.1@)),
                fv == pairs,
                r@.len() == q,
                forall|x: int|
                    0 <= x < q ==> member_figures(
                        #[trigger] r@[x],
                        tallies.tallies(),
                        tallies.count_executions,
                        ks[x],
                        effort_display(ks[x]),
                    ) && texts(r@[x].scopes@) == holders(pairs, ks[x]),
            decreases keys.len() - q,
        {
            let key = &keys[q];
            let mut scopes: Vec<String> = Vec::new();
            let mut y: usize = 0;
            while y < found.len()
                invariant
                    y <= found@.len(),
                    fv == found@.map_values(|p: (String, String)| (p.0@, p.1@)),
                    texts(scopes@) == holders(fv.take(y as int), key@),
                decreases found.len() - y,
            {
                let ghost before = texts(scopes@);
                assert(fv.take(y + 1).drop_last() =~= fv.take(y as int));
                assert(fv.take(y + 1).last() == (found@[y as int].0@, found@[y as int].1@));
                if str_eq(found[y].0.as_str(), key.as_str()) {
                    scopes.push(found[y].1.clone());
                    assert(texts(scopes@) =~= before.push(found@[y as int].1@));
                }
                y += 1;
            }
            assert(fv.take(y as int) =~= fv);
            let base = tallies.member(&Named { key: key.clone(), name: String::new() });
            let name = match effort_of_key(key.as_str()) {
                Some(e) => effort_name(Some(e.as_str())),
                None => effort_name(None),
            };
            let m = AbsorbedMember { name, scopes, ..base };
            proof {
                assert(ks[q as int] == key@);
            }
            r.push(m);
            q += 1;
        }
        r
    }
}

// ───────────────────────────── couple members ─────────────────────────────

/// One stored couple member of a raw scope: its raw key and name, its key
/// after the global steps, and the scope.
pub struct CoupleMemberView {
    pub key: Seq<char>,
    pub name: Seq<char>,
    pub resolved: Seq<char>,
    pub scope: Seq<char>,
}

/// The couple rows of raw scope `scope` whose member and absorbent both
/// resolve, the absorbent to `absorbent`, in row order.
pub open spec fn couple_members_in(rows: Seq<AbsorptionRow>, all: Seq<AbsorptionRow>, scope: Seq<char>, absorbent: Seq<char>) -> Seq<
    CoupleMemberView,
>
    decreases rows.len(),
{
    if rows.len() == 0 {
        Seq::empty()
    } else {
        let rest = couple_members_in(rows.drop_last(), all, scope, absorbent);
        let r = rows.last();
        if in_scope(r, COUPLE@, Some(scope)) && global_couple_key(all, r.member@) is Some && global_couple_key(
            all,
            r.absorbent@,
        ) == Some(absorbent) {
            rest.push(
                CoupleMemberView {
                    key: r.member@,
                    name: r.member_name@,
                    resolved: global_couple_key(all, r.member@)->0,
                    scope,
                },
            )
        } else {
            rest
        }
    }
}

/// The couple members of each raw scope, scope after scope.
pub open spec fn couple_members(rows: Seq<AbsorptionRow>, scopes: Seq<Seq<char>>, absorbent: Seq<char>) -> Seq<CoupleMemberView>
    decreases scopes.len(),
{
    if scopes.len() == 0 {
        Seq::empty()
    } else {
        couple_members(rows, scopes.drop_last(), absorbent) + couple_members_in(rows, rows, scopes.last(), absorbent)
    }
}

/// The first couple member with raw key `key`.
pub open spec fn first_member(ms: Seq<CoupleMemberView>, key: Seq<char>) -> CoupleMemberView
    decreases ms.len(),
{
    if ms.len() == 0 {
        CoupleMemberView { key, name: Seq::empty(), resolved: Seq::empty(), scope: Seq::empty() }
    } else if ms[0].key == key {
        ms[0]
    } else {
        first_member(ms.drop_first(), key)
    }
}

/// The scopes holding raw key `key`, in order.
pub open spec fn scopes_holding(ms: Seq<CoupleMemberView>, key: Seq<char>) -> Seq<Seq<char>>
    decreases ms.len(),
{
    if ms.len() == 0 {
        Seq::empty()
    } else if ms.last().key == key {
        scopes_holding(ms.drop_last(), key).push(ms.last().scope)
    } else {
        scopes_holding(ms.drop_last(), key)
    }
}

/// The raw keys of couple members.
pub open spec fn member_keys(ms: Seq<CoupleMemberView>) -> Seq<Seq<char>> {
    ms.map_values(|m: CoupleMemberView| m.key)
}

/// The couple members of raw scope `scope` absorbed by `absorbent`.
fn couple_members_of(
    rows: &[AbsorptionRow],
    scope: &str,
    absorbent: &str,
    out: &mut Vec<(Named, String, String)>,
)
    ensures
        final(out)@.map_values(|x: (Named, String, String)| CoupleMemberView { key: x.0.key@, name: x.0.name@, resolved: x.1@, scope: x.2@ })
            == old(out)@.map_values(|x: (Named, String, String)| CoupleMemberView { key: x.0.key@, name: x.0.name@, resolved: x.1@, scope: x.2@ })
            + couple_members_in(rows@, rows@, scope@, absorbent@),
{
    let g = crate::absorption::GlobalAbsorptions { rows };
    let ghost start = out@.map_values(|x: (Named, String, String)| CoupleMemberView { key: x.0.key@, name: x.0.name@, resolved: x.1@, scope: x.2@ });
    let mut i: usize = 0;
    while i < rows.len()
        invariant
            i <= rows@.len(),
            g.rows@ == rows@,
            out@.map_values(|x: (Named, String, String)| CoupleMemberView { key: x.0.key@, name: x.0.name@, resolved: x.1@, scope: x.2@ })
                == start + couple_members_in(rows@.take(i as int), rows@, scope@, absorbent@),
        decreases rows.len() - i,
    {
        let row = &rows[i];
        let ghost before = out@.map_values(|x: (Named, String, String)| CoupleMemberView { key: x.0.key@, name: x.0.name@, resolved: x.1@, scope: x.2@ });
        assert(rows@.take(i + 1).drop_last() =~= rows@.take(i as int));
        assert(rows@.take(i + 1).last() == *row);
        if str_eq(row.dimension.as_str(), COUPLE) && str_eq(row.scope.as_str(), scope) {
            let member = g.couple_key(row.member.as_str());
            let holder = g.couple_key(row.absorbent.as_str());
            match (member, holder) {
                (Some(m), Some(a)) => {
                    if str_eq(a.as_str(), absorbent) {
                        out.push((Named { key: row.member.clone(), name: row.member_name.clone() }, m, scope.to_owned()));
                        assert(out@.map_values(|x: (Named, String, String)| CoupleMemberView { key: x.0.key@, name: x.0.name@, resolved: x.1@, scope: x.2@ })
                            =~= before.push(CoupleMemberView { key: row.member@, name: row.member_name@, resolved: global_couple_key(rows@, row.member@)->0, scope: scope@ }));
                    }
                },
                _ => {},
            }
        }
        i += 1;
    }
    assert(rows@.take(i as int) =~= rows@);
}

impl AbsorptionResolver {
    /// The members of couple `absorbent` of a Node row that counts the raw
    /// `(Pipeline, Node)` scopes `scopes`, by raw key, each with the scopes
    /// that hold it; a member's figures are those of its globally resolved
    /// couple.
    pub fn absorbed_couples(&self, scopes: &Vec<String>, absorbent: &str, tallies: &PipelineTallies) -> (r: Vec<
        AbsorbedMember,
    >)
        requires
            tallies.wf(),
        ensures
            ({
                let ms = couple_members(self.rows(), texts(scopes@), absorbent@);
                let keys = keys_of(tally(member_keys(ms)));
                &&& r@.len() == keys.len()
                &&& forall|i: int|
                    0 <= i < r@.len() ==> (#[trigger] r@[i]).key@ == keys[i] && r@[i].name@ == first_member(ms, keys[i]).name
                        && tally_figures(r@[i], tallies.tallies(), tallies.count_executions, first_member(ms, keys[i]).resolved)
                        && texts(r@[i].scopes@) == scopes_holding(ms, keys[i])
            }),
    {
        let g = self.global();
        let rows = g.rows;
        let ghost ms = couple_members(self.rows(), texts(scopes@), absorbent@);
        let mut found: Vec<(Named, String, String)> = Vec::new();
        let mut i: usize = 0;
        while i < scopes.len()
            invariant
                i <= scopes@.len(),
                rows@ == self.rows(),
                ms == couple_members(self.rows(), texts(scopes@), absorbent@),
                found@.map_values(|x: (Named, String, String)| CoupleMemberView { key: x.0.key@, name: x.0.name@, resolved: x.1@, scope: x.2@ })
                    == couple_members(self.rows(), texts(scopes@.take(i as int)), absorbent@),
            decreases scopes.len() - i,
        {
            couple_members_of(rows, scopes[i].as_str(), absorbent, &mut found);
            assert(texts(scopes@.take(i + 1)).drop_last() =~= texts(scopes@.take(i as int)));
            assert(texts(scopes@.take(i + 1)).last() == scopes@[i as int]@);
            i += 1;
        }
        assert(scopes@.take(i as int) =~= scopes@);
        let ghost fv = found@.map_values(|x: (Named, String, String)| CoupleMemberView { key: x.0.key@, name: x.0.name@, resolved: x.1@, scope: x.2@ });
        assert(fv == ms);
        let mut raw_keys: Vec<String> = Vec::new();
        let mut k: usize = 0;
        while k < found.len()
            invariant
                k <= found@.len(),
                fv == found@.map_values(|x: (Named, String, String)| CoupleMemberView { key: x.0.key@, name: x.0.name@, resolved: x.1@, scope: x.2@ }),
                texts(raw_keys@) == member_keys(fv.take(k as int)),
            decreases found.len() - k,
        {
            let ghost before = texts(raw_keys@);
            raw_keys.push(found[k].0.key.clone());
            assert(texts(raw_keys@) =~= before.push(fv[k as int].key));
            assert(member_keys(fv.take(k + 1)) =~= member_keys(fv.take(k as int)).push(fv[k as int].key));
            k += 1;
        }
        assert(fv.take(k as int) =~= fv);
        let keys = distinct_sorted(&raw_keys);
        let ghost ks = keys_of(tally(member_keys(ms)));
        let mut r: Vec<AbsorbedMember> = Vec::new();
        let mut q: usize = 0;
        while q < keys.len()
            invariant
                q <= keys@.len(),
                tallies.wf(),
                texts(keys@) == ks,
                ks == keys_of(tally(member_keys(ms))),
                fv == found@.map_values(|x: (Named, String, String)| CoupleMemberView { key: x.0.key@, name: x.0.name@, resolved: x.1@, scope: x.2@ }),
                fv == ms,
                r@.len() == q,
                forall|x: int|
                    0 <= x < q ==> (#[trigger] r@[x]).key@ == ks[x] && r@[x].name@ == first_member(ms, ks[x]).name
                        && tally_figures(r@[x], tallies.tallies(), tallies.count_executions, first_member(ms, ks[x]).resolved)
                        && texts(r@[x].scopes@) == scopes_holding(ms, ks[x]),
            decreases keys.len() - q,
        {
            let key = &keys[q];
            let mut held: Vec<String> = Vec::new();
            let mut first: Option<usize> = None;
            let mut y: usize = 0;
            while y < found.len()
                invariant
                    y <= found@.len(),
                    fv == found@.map_values(|x: (Named, String, String)| CoupleMemberView { key: x.0.key@, name: x.0.name@, resolved: x.1@, scope: x.2@ }),
                    texts(held@) == scopes_holding(fv.take(y as int), key@),
                    match first {
                        Some(f) => f < y && first_member(fv, key@) == fv[f as int],
                        None => forall|z: int| 0 <= z < y ==> fv[z].key != key@,
                    },
                decreases found.len() - y,
            {
                let ghost before = texts(held@);
                assert(fv.take(y + 1).drop_last() =~= fv.take(y as int));
                assert(fv.take(y + 1).last() == fv[y as int]);
                if str_eq(found[y].0.key.as_str(), key.as_str()) {
                    held.push(found[y].2.clone());
                    assert(texts(held@) =~= before.push(fv[y as int].scope));
                    if first.is_none() {
                        proof {
                            lemma_first_member_at(fv, key@, y as int);
                        }
                        first = Some(y);
                    }
                }
                y += 1;
            }
            assert(fv.take(y as int) =~= fv);
            proof {
                assert(texts(keys@)[q as int] == keys@[q as int]@);
                assert(ks[q as int] == key@);
                assert(ks.len() == keys@.len());
                lemma_key_occurs_in(member_keys(ms), q as int);
            }
            let f = match first {
                Some(f) => f,
                None => {
                    proof {
                        assert(member_keys(ms).contains(key@));
                        let z = choose|z: int| 0 <= z < member_keys(ms).len() && member_keys(ms)[z] == key@;
                        assert(member_keys(ms)[z] == ms[z].key);
                        assert(fv[z].key == key@);
                    }
                    0
                },
            };
            let base = tallies.member(&Named { key: found[f].1.clone(), name: String::new() });
            let m = AbsorbedMember {
                key: key.clone(),
                name: found[f].0.name.clone(),
                runs: base.runs,
                executions: base.executions,
                last_run: base.last_run,
                provenance: base.provenance,
                scopes: held,
            };
            r.push(m);
            q += 1;
        }
        r
    }
}

/// The first member of a key found at `y`, no earlier one having it.
proof fn lemma_first_member_at(ms: Seq<CoupleMemberView>, key: Seq<char>, y: int)
    requires
        0 <= y < ms.len(),
        ms[y].key == key,
        forall|z: int| 0 <= z < y ==> ms[z].key != key,
    ensures
        first_member(ms, key) == ms[y],
    decreases y,
{
    if y > 0 {
        let rest = ms.drop_first();
        assert forall|z: int| 0 <= z < y - 1 implies rest[z].key != key by {
            assert(rest[z] == ms[z + 1]);
        }
        assert(rest[y - 1] == ms[y]);
        lemma_first_member_at(rest, key, y - 1);
    }
}

/// A key of a tally occurs among the keys tallied.
proof fn lemma_key_occurs_in(x: Seq<Seq<char>>, i: int)
    requires
        0 <= i < keys_of(tally(x)).len(),
    ensures
        x.contains(keys_of(tally(x))[i]),
{
    let t = tally(x);
    crate::session_tally::law_tally_counts_each_key(x, t[i].0);
    assert(crate::session_tally::has_key(t, t[i].0));
}

} // verus!
