//! The model × effort identity a session file's observation is attributed
//! to, and how often each bucket's identity was read from the source.
//!
//! Source first: where the harness's session source names the model(s) it
//! ran on, those are the identities, each marked observed. A source that
//! carries the effort too gives the effort as it reads (an absent one is
//! "not set", never refilled from the request); a source that names only the
//! model keeps the requested effort, marked requested. A main session whose
//! source says nothing falls back to the startup event's requested identity,
//! and one with no requested model either yields no identity at all. A
//! subagent has no startup event: only its observed identities count.
use vstd::prelude::*;
use crate::absorption_tallies::{provenance, provenance_of, StatsProvenance};

verus! {

broadcast use vstd::string::group_string_axioms;

/// What a harness's session source reports of the identity it ran under.
#[derive(Debug, Clone, Copy, PartialEq, Eq, Structural)]
pub enum IdentitySource {
    /// The model only.
    Model,
    /// The model and the effort.
    ModelAndEffort,
}

/// One identity as a session source reports it.
#[derive(Debug, Clone, PartialEq, Eq)]
pub struct ObservedIdentity {
    pub model: String,
    pub effort: Option<String>,
}

/// The identity an observation is attributed to, with where each half of it
/// was read from. `effort_observed` is `None` where no effort applies.
#[derive(Debug, Clone, PartialEq, Eq)]
pub struct ModelIdentity {
    pub model: String,
    pub effort: Option<String>,
    pub model_observed: bool,
    pub effort_observed: Option<bool>,
}

/// The value of an [`ObservedIdentity`].
pub struct ObservedView {
    pub model: Seq<char>,
    pub effort: Option<Seq<char>>,
}

/// The value of a [`ModelIdentity`].
pub struct IdentityView {
    pub model: Seq<char>,
    pub effort: Option<Seq<char>>,
    pub model_observed: bool,
    pub effort_observed: Option<bool>,
}

/// The view of an optional string.
pub open spec fn opt_view(s: Option<String>) -> Option<Seq<char>> {
    match s {
        Some(v) => Some(v@),
        None => None,
    }
}

/// The view of an optional string slice.
pub open spec fn opt_str_view(s: Option<&str>) -> Option<Seq<char>> {
    match s {
        Some(v) => Some(v@),
        None => None,
    }
}

impl View for ObservedIdentity {
    type V = ObservedView;

    open spec fn view(&self) -> ObservedView {
        ObservedView { model: self.model@, effort: opt_view(self.effort) }
    }
}

impl View for ModelIdentity {
    type V = IdentityView;

    open spec fn view(&self) -> IdentityView {
        IdentityView {
            model: self.model@,
            effort: opt_view(self.effort),
            model_observed: self.model_observed,
            effort_observed: self.effort_observed,
        }
    }
}

/// The identity an observed report is attributed to: the effort as the
/// source reads it where it carries one, else the requested effort.
pub open spec fn attributed(source: IdentitySource, o: ObservedView, requested_effort: Option<Seq<char>>) -> IdentityView {
    match source {
        IdentitySource::ModelAndEffort => IdentityView {
            model: o.model,
            effort: o.effort,
            model_observed: true,
            effort_observed: Some(o.effort is Some),
        },
        IdentitySource::Model => IdentityView {
            model: o.model,
            effort: requested_effort,
            model_observed: true,
            effort_observed: if requested_effort is Some { Some(false) } else { None },
        },
    }
}

/// The startup event's requested identity, marked requested.
pub open spec fn requested_identity(model: Seq<char>, requested_effort: Option<Seq<char>>) -> IdentityView {
    IdentityView {
        model,
        effort: requested_effort,
        model_observed: false,
        effort_observed: if requested_effort is Some { Some(false) } else { None },
    }
}

/// The observed identities, each attributed under the source.
pub open spec fn attributed_all(
    source: IdentitySource,
    observed: Seq<ObservedView>,
    requested_effort: Option<Seq<char>>,
) -> Seq<IdentityView> {
    Seq::new(observed.len(), |i: int| attributed(source, observed[i], requested_effort))
}

/// The identities a main session's observation goes to. `observed` is what
/// the source reported from the session file (nothing where the file could
/// not be read); it counts only where the harness has a source at all.
pub open spec fn main_identities(
    source: Option<IdentitySource>,
    observed: Seq<ObservedView>,
    requested_model: Option<Seq<char>>,
    requested_effort: Option<Seq<char>>,
) -> Seq<IdentityView> {
    match source {
        Some(src) if observed.len() > 0 => attributed_all(src, observed, requested_effort),
        _ => match requested_model {
            Some(m) => seq![requested_identity(m, requested_effort)],
            None => Seq::empty(),
        },
    }
}

/// The identities a subagent file's observation goes to: only what its
/// source reports, with no requested effort to keep.
pub open spec fn subagent_identities_spec(source: Option<IdentitySource>, observed: Seq<ObservedView>) -> Seq<IdentityView> {
    match source {
        Some(src) => attributed_all(src, observed, None),
        None => Seq::empty(),
    }
}

fn copy_opt(s: &Option<String>) -> (r: Option<String>)
    ensures
        opt_view(r) == opt_view(*s),
{
    match s {
        Some(v) => Some(v.clone()),
        None => None,
    }
}

fn owned_opt(s: Option<&str>) -> (r: Option<String>)
    ensures
        opt_view(r) == opt_str_view(s),
{
    match s {
        Some(v) => Some(v.to_string()),
        None => None,
    }
}

/// The identity one report is attributed to.
fn attribute(source: IdentitySource, o: &ObservedIdentity, requested_effort: &Option<String>) -> (r: ModelIdentity)
    ensures
        r@ == attributed(source, o@, opt_view(*requested_effort)),
{
    match source {
        IdentitySource::ModelAndEffort => {
            let seen = o.effort.is_some();
            ModelIdentity {
                model: o.model.clone(),
                effort: copy_opt(&o.effort),
                model_observed: true,
                effort_observed: Some(seen),
            }
        },
        IdentitySource::Model => ModelIdentity {
            model: o.model.clone(),
            effort: copy_opt(requested_effort),
            model_observed: true,
            effort_observed: if requested_effort.is_some() { Some(false) } else { None },
        },
    }
}

/// Every report, attributed in order.
fn attribute_all(source: IdentitySource, observed: &Vec<ObservedIdentity>, requested_effort: &Option<String>) -> (r: Vec<ModelIdentity>)
    ensures
        r@.len() == observed@.len(),
        forall|i: int| 0 <= i < r@.len() ==> #[trigger] r@[i]@ == attributed(source, observed@[i]@, opt_view(*requested_effort)),
{
    let mut out: Vec<ModelIdentity> = Vec::new();
    let mut i: usize = 0;
    while i < observed.len()
        invariant
            i <= observed@.len(),
            out@.len() == i,
            forall|j: int| 0 <= j < i ==> #[trigger] out@[j]@ == attributed(source, observed@[j]@, opt_view(*requested_effort)),
        decreases observed.len() - i,
    {
        let a = attribute(source, &observed[i], requested_effort);
        out.push(a);
        i += 1;
    }
    out
}

/// The views of a vector of identities.
pub open spec fn identity_views(v: Seq<ModelIdentity>) -> Seq<IdentityView> {
    Seq::new(v.len(), |i: int| v[i]@)
}

/// The views of a vector of reports.
pub open spec fn observed_views(v: Seq<ObservedIdentity>) -> Seq<ObservedView> {
    Seq::new(v.len(), |i: int| v[i]@)
}

/// The model × effort identities one main session's observation is
/// attributed to: the source's reports where the harness has a source and it
/// named something, else the requested identity, else none.
pub fn main_session_identities(
    source: Option<IdentitySource>,
    observed: &Vec<ObservedIdentity>,
    requested_model: Option<&str>,
    requested_effort: Option<&str>,
) -> (r: Vec<ModelIdentity>)
    ensures
        identity_views(r@) =~= main_identities(
            source,
            observed_views(observed@),
            opt_str_view(requested_model),
            opt_str_view(requested_effort),
        ),
{
    let effort = owned_opt(requested_effort);
    match source {
        Some(src) => {
            if observed.len() > 0 {
                let r = attribute_all(src, observed, &effort);
                return r;
            }
        },
        None => {},
    }
    match requested_model {
        Some(m) => {
            let seen = if effort.is_some() { Some(false) } else { None };
            let id = ModelIdentity { model: m.to_string(), effort, model_observed: false, effort_observed: seen };
            let r = vec![id];
            r
        },
        None => Vec::new(),
    }
}

/// The identities a subagent file's observation is attributed to: only the
/// ones its source reports.
pub fn subagent_identities(source: Option<IdentitySource>, observed: &Vec<ObservedIdentity>) -> (r: Vec<ModelIdentity>)
    ensures
        identity_views(r@) =~= subagent_identities_spec(source, observed_views(observed@)),
{
    match source {
        Some(src) => attribute_all(src, observed, &None),
        None => Vec::new(),
    }
}

// ───────────────────────────── provenance ─────────────────────────────

/// How often a bucket's model and effort were read from the source or only
/// requested, over the observations that landed in it.
#[derive(Debug, Clone, Copy, PartialEq, Eq, Structural)]
pub struct ProvenanceCounts {
    pub model_observed: u64,
    pub model_requested: u64,
    pub effort_observed: u64,
    pub effort_requested: u64,
}

/// The counts after one more observation under `id`.
pub open spec fn counted(c: ProvenanceCounts, id: IdentityView) -> ProvenanceCounts {
    ProvenanceCounts {
        model_observed: if id.model_observed { (c.model_observed + 1) as u64 } else { c.model_observed },
        model_requested: if id.model_observed { c.model_requested } else { (c.model_requested + 1) as u64 },
        effort_observed: if id.effort_observed == Some(true) { (c.effort_observed + 1) as u64 } else { c.effort_observed },
        effort_requested: if id.effort_observed == Some(false) { (c.effort_requested + 1) as u64 } else { c.effort_requested },
    }
}

/// The sum of the counts of `s`, field by field.
pub open spec fn summed(s: Seq<ProvenanceCounts>) -> (int, int, int, int)
    decreases s.len(),
{
    if s.len() == 0 {
        (0, 0, 0, 0)
    } else {
        let (mo, mr, eo, er) = summed(s.drop_last());
        let c = s.last();
        (mo + c.model_observed, mr + c.model_requested, eo + c.effort_observed, er + c.effort_requested)
    }
}

impl ProvenanceCounts {
    /// No observation yet.
    pub fn new() -> (c: ProvenanceCounts)
        ensures
            c == (ProvenanceCounts { model_observed: 0, model_requested: 0, effort_observed: 0, effort_requested: 0 }),
    {
        ProvenanceCounts { model_observed: 0, model_requested: 0, effort_observed: 0, effort_requested: 0 }
    }

    /// Counts one observation attributed to `identity`.
    pub fn observe(&mut self, identity: &ModelIdentity)
        requires
            old(self).model_observed < u64::MAX,
            old(self).model_requested < u64::MAX,
            old(self).effort_observed < u64::MAX,
            old(self).effort_requested < u64::MAX,
        ensures
            *final(self) == counted(*old(self), identity@),
    {
        if identity.model_observed {
            self.model_observed = self.model_observed + 1;
        } else {
            self.model_requested = self.model_requested + 1;
        }
        match identity.effort_observed {
            Some(true) => self.effort_observed = self.effort_observed + 1,
            Some(false) => self.effort_requested = self.effort_requested + 1,
            None => {},
        }
    }
}

/// The observed/requested totals over a set of buckets, the provenance a
/// level row reports.
pub fn provenance_totals(buckets: &Vec<ProvenanceCounts>) -> (t: ProvenanceCounts)
    requires
        summed(buckets@).0 <= u64::MAX,
        summed(buckets@).1 <= u64::MAX,
        summed(buckets@).2 <= u64::MAX,
        summed(buckets@).3 <= u64::MAX,
    ensures
        (t.model_observed as int, t.model_requested as int, t.effort_observed as int, t.effort_requested as int)
            == summed(buckets@),
{
    let mut t = ProvenanceCounts::new();
    let mut i: usize = 0;
    while i < buckets.len()
        invariant
            i <= buckets@.len(),
            summed(buckets@).0 <= u64::MAX,
            summed(buckets@).1 <= u64::MAX,
            summed(buckets@).2 <= u64::MAX,
            summed(buckets@).3 <= u64::MAX,
            (t.model_observed as int, t.model_requested as int, t.effort_observed as int, t.effort_requested as int)
                == summed(buckets@.take(i as int)),
        decreases buckets.len() - i,
    {
        proof {
            assert(buckets@.take(i + 1).drop_last() =~= buckets@.take(i as int));
            lemma_summed_prefix(buckets@, i + 1);
        }
        let c = buckets[i];
        t.model_observed = t.model_observed + c.model_observed;
        t.model_requested = t.model_requested + c.model_requested;
        t.effort_observed = t.effort_observed + c.effort_observed;
        t.effort_requested = t.effort_requested + c.effort_requested;
        i += 1;
    }
    assert(buckets@.take(buckets@.len() as int) =~= buckets@);
    t
}

/// A prefix's sums are no more than the whole's.
proof fn lemma_summed_prefix(s: Seq<ProvenanceCounts>, k: int)
    requires
        0 <= k <= s.len(),
    ensures
        summed(s.take(k)).0 <= summed(s).0,
        summed(s.take(k)).1 <= summed(s).1,
        summed(s.take(k)).2 <= summed(s).2,
        summed(s.take(k)).3 <= summed(s).3,
        summed(s.take(k)).0 >= 0 && summed(s.take(k)).1 >= 0 && summed(s.take(k)).2 >= 0 && summed(s.take(k)).3 >= 0,
    decreases s.len(),
{
    if s.len() == 0 {
        assert(s.take(k) =~= s);
    } else if k == s.len() {
        assert(s.take(k) =~= s);
        lemma_summed_prefix(s.drop_last(), s.len() - 1);
        assert(s.drop_last().take(s.len() - 1) =~= s.drop_last());
    } else {
        lemma_summed_prefix(s.drop_last(), k);
        assert(s.drop_last().take(k) =~= s.take(k));
    }
}

/// The provenance a model × effort bucket reports: the model's always, the
/// effort's where the bucket names one.
pub fn pair_provenance(counts: &ProvenanceCounts, effort: &Option<String>) -> (r: (StatsProvenance, Option<StatsProvenance>))
    requires
        counts.model_observed + counts.model_requested > 0,
        effort is Some ==> counts.effort_observed + counts.effort_requested > 0,
    ensures
        r.0 == provenance_of(counts.model_observed as nat, counts.model_requested as nat),
        r.1 == (if effort is Some {
            Some(provenance_of(counts.effort_observed as nat, counts.effort_requested as nat))
        } else {
            None
        }),
{
    let model = provenance(counts.model_observed, counts.model_requested);
    let effort_prov = match effort {
        Some(_) => Some(provenance(counts.effort_observed, counts.effort_requested)),
        None => None,
    };
    (model, effort_prov)
}

// ───────────────────────────── laws ─────────────────────────────

/// An attributed identity that names an effort always says where that effort
/// was read from, so a bucket with an effort has an effort provenance.
pub proof fn law_a_named_effort_has_a_provenance(
    source: IdentitySource,
    o: ObservedView,
    requested_effort: Option<Seq<char>>,
)
    ensures
        attributed(source, o, requested_effort).effort is Some ==> attributed(source, o, requested_effort).effort_observed is Some,
        attributed(source, o, requested_effort).model_observed,
{
}

/// A main session whose source speaks is attributed only to what it read;
/// one whose source is mute falls back to the request, and invents nothing
/// without a requested model.
pub proof fn law_source_first_then_request(
    source: Option<IdentitySource>,
    observed: Seq<ObservedView>,
    requested_model: Option<Seq<char>>,
    requested_effort: Option<Seq<char>>,
)
    ensures
        source is Some && observed.len() > 0 ==> {
            let r = main_identities(source, observed, requested_model, requested_effort);
            r.len() == observed.len() && forall|i: int| 0 <= i < r.len() ==> #[trigger] r[i].model_observed
                && r[i].model == observed[i].model
        },
        (source is None || observed.len() == 0) && requested_model is None ==> main_identities(
            source,
            observed,
            requested_model,
            requested_effort,
        ).len() == 0,
        (source is None || observed.len() == 0) && requested_model is Some ==> main_identities(
            source,
            observed,
            requested_model,
            requested_effort,
        ) == seq![requested_identity(requested_model.unwrap(), requested_effort)],
{
}

/// Every observation counted in a bucket raises exactly one of its model
/// counters, and at most one of its effort counters.
pub proof fn law_each_observation_counts_once(c: ProvenanceCounts, id: IdentityView)
    requires
        c.model_observed < u64::MAX,
        c.model_requested < u64::MAX,
        c.effort_observed < u64::MAX,
        c.effort_requested < u64::MAX,
    ensures
        counted(c, id).model_observed + counted(c, id).model_requested == c.model_observed + c.model_requested + 1,
        counted(c, id).effort_observed + counted(c, id).effort_requested == c.effort_observed + c.effort_requested + (
        if id.effort_observed is Some { 1int } else { 0int }),
{
    match id.effort_observed {
        Some(b) => if b {
            assert(id.effort_observed == Some(true));
        } else {
            assert(id.effort_observed == Some(false));
        },
        None => {},
    }
}

} // verus!
