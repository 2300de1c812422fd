//! Which session of a shared transcript directory an infrastructure role
//! (the Pipeline Manager, a Merge resolver) ran in.
//!
//! The role records no session id of its own, so its session is found by
//! exclusion: among the `.jsonl` session files of the directory it ran in,
//! the one no node of the Run claims. A directory where that cannot be told
//! apart (more than one unclaimed file, or a node sharing the directory with
//! no recorded session id) is ambiguous, and never attributed by path alone.
use vstd::prelude::*;
use crate::text::{before_suffix, chars_of, ends_with, has_suffix, str_eq, string_of_range};

verus! {

broadcast use vstd::string::group_string_axioms;

/// The session a role resolves to.
#[derive(Debug, PartialEq, Eq)]
pub enum InfraSession {
    /// Exactly one unclaimed session file, by its session id.
    One(String),
    /// No directory, or every session file in it belongs to a node: an
    /// ordinary absence.
    Absent,
    /// More than one unclaimed file, or a directory shared with a node of no
    /// recorded session id: nothing can safely be attributed.
    Ambiguous,
}

/// The value of an [`InfraSession`].
pub enum InfraSessionView {
    One(Seq<char>),
    Absent,
    Ambiguous,
}

impl View for InfraSession {
    type V = InfraSessionView;

    open spec fn view(&self) -> InfraSessionView {
        match self {
            InfraSession::One(s) => InfraSessionView::One(s@),
            InfraSession::Absent => InfraSessionView::Absent,
            InfraSession::Ambiguous => InfraSessionView::Ambiguous,
        }
    }
}

/// `.jsonl`.
pub open spec fn jsonl_suffix() -> Seq<char> {
    ".jsonl"@
}

/// The session id a directory entry names: the file stem of a name whose
/// extension is `jsonl`. As for a path, a name whose only dot leads it has
/// no extension, so `.jsonl` itself names no session.
pub open spec fn session_stem(name: Seq<char>) -> Option<Seq<char>> {
    if name.len() > jsonl_suffix().len() && has_suffix(name, jsonl_suffix()) {
        Some(before_suffix(name, jsonl_suffix()))
    } else {
        None
    }
}

/// The session ids of the directory no node claims, in listing order.
pub open spec fn unclaimed(names: Seq<Seq<char>>, claimed: Seq<Seq<char>>) -> Seq<Seq<char>>
    decreases names.len(),
{
    if names.len() == 0 {
        Seq::empty()
    } else {
        let rest = unclaimed(names.drop_last(), claimed);
        match session_stem(names.last()) {
            Some(id) => if claimed.contains(id) { rest } else { rest.push(id) },
            None => rest,
        }
    }
}

/// The session a role resolves to, from the names its directory lists
/// (`None` when the directory cannot be listed), the session ids the Run's
/// nodes claim, and whether a node shares the directory with no recorded id.
pub open spec fn resolved(listing: Option<Seq<Seq<char>>>, claimed: Seq<Seq<char>>, directory_ambiguous: bool) -> InfraSessionView {
    if directory_ambiguous {
        InfraSessionView::Ambiguous
    } else {
        match listing {
            None => InfraSessionView::Absent,
            Some(names) => {
                let c = unclaimed(names, claimed);
                if c.len() == 0 {
                    InfraSessionView::Absent
                } else if c.len() == 1 {
                    InfraSessionView::One(c[0])
                } else {
                    InfraSessionView::Ambiguous
                }
            },
        }
    }
}

/// The views of a vector of strings.
pub open spec fn views(v: Seq<String>) -> Seq<Seq<char>> {
    Seq::new(v.len(), |i: int| v[i]@)
}

/// Whether `id` is among `claimed`.
fn is_claimed(claimed: &Vec<String>, id: &str) -> (r: bool)
    ensures
        r == views(claimed@).contains(id@),
{
    let mut i: usize = 0;
    while i < claimed.len()
        invariant
            i <= claimed@.len(),
            forall|j: int| 0 <= j < i ==> claimed@[j]@ != id@,
        decreases claimed.len() - i,
    {
        if str_eq(claimed[i].as_str(), id) {
            assert(views(claimed@)[i as int] == id@);
            return true;
        }
        i += 1;
    }
    proof {
        if views(claimed@).contains(id@) {
            let k = choose|k: int| 0 <= k < views(claimed@).len() && views(claimed@)[k] == id@;
            assert(claimed@[k]@ == id@);
        }
    }
    false
}

/// The session id a directory entry names, if it is a session file.
pub fn session_stem_of(name: &str) -> (r: Option<String>)
    ensures
        match r {
            Some(id) => session_stem(name@) == Some(id@),
            None => session_stem(name@) is None,
        },
{
    let s = chars_of(name);
    let suffix = chars_of(".jsonl");
    proof {
        reveal_strlit(".jsonl");
    }
    if s.len() > suffix.len() && ends_with(&s, &suffix) {
        Some(string_of_range(&s, 0, s.len() - suffix.len()))
    } else {
        None
    }
}

/// The one unclaimed session of a role's directory, or why there is none.
pub fn resolve_infra_session(listing: Option<&Vec<String>>, claimed: &Vec<String>, directory_ambiguous: bool) -> (r: InfraSession)
    ensures
        r@ == resolved(
            match listing {
                Some(v) => Some(views(v@)),
                None => None,
            },
            views(claimed@),
            directory_ambiguous,
        ),
{
    if directory_ambiguous {
        return InfraSession::Ambiguous;
    }
    let names = match listing {
        Some(v) => v,
        None => {
            return InfraSession::Absent;
        },
    };
    let mut candidates: Vec<String> = Vec::new();
    let mut i: usize = 0;
    while i < names.len()
        invariant
            i <= names@.len(),
            views(candidates@) == unclaimed(views(names@).take(i as int), views(claimed@)),
        decreases names.len() - i,
    {
        proof {
            assert(views(names@).take(i + 1).drop_last() =~= views(names@).take(i as int));
            assert(views(names@).take(i + 1).last() == names@[i as int]@);
        }
        match session_stem_of(names[i].as_str()) {
            Some(id) => {
                if !is_claimed(claimed, id.as_str()) {
                    let ghost before = candidates@;
                    candidates.push(id);
                    proof {
                        assert(views(candidates@) =~= views(before).push(candidates@.last()@));
                    }
                }
            },
            None => {},
        }
        i += 1;
    }
    proof {
        assert(views(names@).take(names@.len() as int) =~= views(names@));
    }
    let n = candidates.len();
    if n == 0 {
        InfraSession::Absent
    } else if n == 1 {
        let id = candidates.pop().unwrap();
        proof {
            assert(views(candidates@.push(id))[0] == id@);
        }
        InfraSession::One(id)
    } else {
        InfraSession::Ambiguous
    }
}

/// Why a role's session has no observation, where it resolved to none.
pub open spec fn absence_reason_spec(s: InfraSessionView) -> Option<Seq<char>> {
    match s {
        InfraSessionView::Ambiguous => Some("ambiguous session identity in a directory shared with a Node"@),
        InfraSessionView::Absent => Some("no attributable session for this infrastructure role"@),
        InfraSessionView::One(_) => None,
    }
}

/// The absence a role reports when its session did not resolve to one file.
pub fn absence_reason(s: &InfraSession) -> (r: Option<&'static str>)
    ensures
        match r {
            Some(t) => absence_reason_spec(s@) == Some(t@),
            None => absence_reason_spec(s@) is None,
        },
{
    match s {
        InfraSession::Ambiguous => {
            let t = "ambiguous session identity in a directory shared with a Node";
            proof {
                reveal_strlit("ambiguous session identity in a directory shared with a Node");
            }
            Some(t)
        },
        InfraSession::Absent => {
            let t = "no attributable session for this infrastructure role";
            proof {
                reveal_strlit("no attributable session for this infrastructure role");
            }
            Some(t)
        },
        InfraSession::One(_) => None,
    }
}

// ───────────────────────────── laws ─────────────────────────────

/// A resolved session is a session file of the directory that no node
/// claims.
pub proof fn law_a_resolved_session_is_listed_and_unclaimed(names: Seq<Seq<char>>, claimed: Seq<Seq<char>>, id: Seq<char>)
    requires
        resolved(Some(names), claimed, false) == InfraSessionView::One(id),
    ensures
        !claimed.contains(id),
        exists|k: int| 0 <= k < names.len() && session_stem(#[trigger] names[k]) == Some(id),
{
    lemma_unclaimed_members(names, claimed);
    let c = unclaimed(names, claimed);
    assert(c.contains(c[0]));
}

/// What `unclaimed` keeps comes from the listing and is claimed by no node.
proof fn lemma_unclaimed_members(names: Seq<Seq<char>>, claimed: Seq<Seq<char>>)
    ensures
        forall|id: Seq<char>| #[trigger] unclaimed(names, claimed).contains(id) ==> !claimed.contains(id) && exists|k: int|
            0 <= k < names.len() && session_stem(#[trigger] names[k]) == Some(id),
    decreases names.len(),
{
    if names.len() > 0 {
        lemma_unclaimed_members(names.drop_last(), claimed);
        assert forall|id: Seq<char>| #[trigger] unclaimed(names, claimed).contains(id) implies !claimed.contains(id)
            && exists|k: int| 0 <= k < names.len() && session_stem(#[trigger] names[k]) == Some(id) by {
            let rest = unclaimed(names.drop_last(), claimed);
            if rest.contains(id) {
                let k = choose|k: int| 0 <= k < names.drop_last().len() && session_stem(#[trigger] names.drop_last()[k]) == Some(id);
                assert(names[k] == names.drop_last()[k]);
            } else {
                assert(session_stem(names[names.len() - 1]) == Some(id));
            }
        }
    }
}

/// An ambiguous directory is never attributed, whatever it lists.
pub proof fn law_an_ambiguous_directory_is_never_attributed(listing: Option<Seq<Seq<char>>>, claimed: Seq<Seq<char>>)
    ensures
        resolved(listing, claimed, true) == InfraSessionView::Ambiguous,
{
}

} // verus!
