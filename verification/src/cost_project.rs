//! The project a Run's cost lands under.
//!
//! A Run is placed by the repository it targeted, read from its
//! `run_started` payload; a Run recorded before that field existed carries
//! none and is placed under the daemon's own root, so there is no
//! "Unassigned" project. A declared project that lists the root among its
//! members names the Run's project; an undeclared root is a project of its
//! own, named by its last path component.
use vstd::prelude::*;
use crate::json::{get_str, get_string, JsonValue};
use crate::search_path::normal_parts;
use crate::text::{chars_of, same_text, split_exec, split_on, str_eq, string_of};

verus! {

broadcast use vstd::string::group_string_axioms;

/// A declared project: its identity, its display name, and the repository
/// roots it gathers.
#[derive(Debug, Clone, PartialEq, Eq)]
pub struct Project {
    pub id: String,
    pub name: String,
    pub members: Vec<String>,
}

/// The root a Run's cost is placed under: its `target_repo` where the
/// payload names one as a string, else the daemon's root.
pub open spec fn project_root(payload: JsonValue, daemon_root: Seq<char>) -> Seq<char> {
    match get_str(payload, "target_repo"@) {
        Some(r) => r,
        None => daemon_root,
    }
}

/// The root a Run's cost is placed under.
pub fn cost_project_root(payload: &JsonValue, daemon_root: &str) -> (r: String)
    ensures
        r@ == project_root(*payload, daemon_root@),
{
    match get_string(payload, "target_repo") {
        Some(root) => root.clone(),
        None => daemon_root.to_string(),
    }
}

/// The last component of a path, as `Path::file_name` reads it: its last
/// normal part (empty pieces and `.` are no parts), none for a path that
/// has no normal part or ends in `..`.
pub open spec fn file_name_spec(path: Seq<char>) -> Option<Seq<char>> {
    let parts = normal_parts(split_on(path, '/'));
    if parts.len() == 0 || parts.last() == seq!['.', '.'] {
        None
    } else {
        Some(parts.last())
    }
}

/// Whether a piece of a path is a normal part.
fn is_part(p: &Vec<char>) -> (r: bool)
    ensures
        r == (p@.len() > 0 && p@ != seq!['.']),
{
    if p.len() == 0 {
        false
    } else if p.len() == 1 && p[0] == '.' {
        assert(p@ =~= seq!['.']);
        false
    } else {
        proof {
            if p@ == seq!['.'] {
                assert(p@.len() == 1 && p@[0] == '.');
            }
        }
        true
    }
}

/// The last component of a path.
pub fn file_name(path: &str) -> (r: Option<String>)
    ensures
        match r {
            Some(n) => file_name_spec(path@) == Some(n@),
            None => file_name_spec(path@) is None,
        },
{
    let pieces = split_exec(&chars_of(path), '/');
    let ghost whole = split_on(path@, '/');
    let mut last: Option<usize> = None;
    let mut i: usize = 0;
    while i < pieces.len()
        invariant
            i <= pieces@.len(),
            pieces@.len() == whole.len(),
            whole == split_on(path@, '/'),
            forall|j: int| 0 <= j < pieces@.len() ==> #[trigger] pieces@[j]@ == whole[j],
            match last {
                Some(k) => k < i && normal_parts(whole.take(i as int)).len() > 0
                    && pieces@[k as int]@ == normal_parts(whole.take(i as int)).last(),
                None => normal_parts(whole.take(i as int)).len() == 0,
            },
        decreases pieces.len() - i,
    {
        proof {
            assert(whole.take(i + 1).drop_last() =~= whole.take(i as int));
            assert(whole.take(i + 1).last() == whole[i as int]);
        }
        if is_part(&pieces[i]) {
            last = Some(i);
        }
        i += 1;
    }
    proof {
        assert(whole.take(whole.len() as int) =~= whole);
    }
    match last {
        None => None,
        Some(k) => {
            let dots = chars_of("..");
            proof {
                reveal_strlit("..");
                assert(dots@ =~= seq!['.', '.']);
            }
            if same_text(&pieces[k], &dots) {
                None
            } else {
                Some(string_of(&pieces[k]))
            }
        },
    }
}

/// The views of a vector of strings.
pub open spec fn views(v: Seq<String>) -> Seq<Seq<char>> {
    Seq::new(v.len(), |i: int| v[i]@)
}

/// A project gathers the root.
pub open spec fn gathers(p: Project, root: Seq<char>) -> bool {
    views(p.members@).contains(root)
}

/// The identity and display name of the project a root belongs to: the
/// first declared project that gathers it, else the root itself, named by
/// its last component where it has a non-empty one.
pub open spec fn identity_of(root: Seq<char>, projects: Seq<Project>) -> (Seq<char>, Seq<char>) {
    if exists|k: int| 0 <= k < projects.len() && gathers(#[trigger] projects[k], root) {
        let k = choose|k: int|
            0 <= k < projects.len() && gathers(#[trigger] projects[k], root) && forall|j: int|
                0 <= j < k ==> !gathers(#[trigger] projects[j], root);
        (projects[k].id@, projects[k].name@)
    } else {
        match file_name_spec(root) {
            Some(n) if n.len() > 0 => (root, n),
            _ => (root, root),
        }
    }
}

/// Whether a project gathers the root.
fn gathers_exec(p: &Project, root: &str) -> (r: bool)
    ensures
        r == gathers(*p, root@),
{
    let mut i: usize = 0;
    while i < p.members.len()
        invariant
            i <= p.members@.len(),
            forall|j: int| 0 <= j < i ==> p.members@[j]@ != root@,
        decreases p.members.len() - i,
    {
        if str_eq(p.members[i].as_str(), root) {
            assert(views(p.members@)[i as int] == root@);
            return true;
        }
        i += 1;
    }
    proof {
        if views(p.members@).contains(root@) {
            let k = choose|k: int| 0 <= k < views(p.members@).len() && views(p.members@)[k] == root@;
            assert(p.members@[k]@ == root@);
        }
    }
    false
}

/// The project a Run's cost is placed under: `(id, name)`.
pub fn project_identity(payload: &JsonValue, daemon_root: &str, projects: &Vec<Project>) -> (r: (String, String))
    ensures
        (r.0@, r.1@) == identity_of(project_root(*payload, daemon_root@), projects@),
{
    let root = cost_project_root(payload, daemon_root);
    let ghost rv = root@;
    let mut k: usize = 0;
    while k < projects.len()
        invariant
            k <= projects@.len(),
            rv == root@,
            rv == project_root(*payload, daemon_root@),
            forall|j: int| 0 <= j < k ==> !gathers(#[trigger] projects@[j], rv),
        decreases projects.len() - k,
    {
        if gathers_exec(&projects[k], root.as_str()) {
            proof {
                assert(gathers(projects@[k as int], rv));
                assert(exists|w: int|
                    0 <= w < projects@.len() && gathers(#[trigger] projects@[w], rv) && forall|j: int|
                        0 <= j < w ==> !gathers(#[trigger] projects@[j], rv));
                let w = choose|w: int|
                    0 <= w < projects@.len() && gathers(#[trigger] projects@[w], rv) && forall|j: int|
                        0 <= j < w ==> !gathers(#[trigger] projects@[j], rv);
                if w < k {
                    assert(!gathers(projects@[w], rv));
                } else if w > k {
                    assert(!gathers(projects@[k as int], rv));
                }
                assert(w == k);
            }
            let id = projects[k].id.clone();
            let name = projects[k].name.clone();
            assert(id@ == projects@[k as int].id@ && name@ == projects@[k as int].name@);
            return (id, name);
        }
        k += 1;
    }
    match file_name(root.as_str()) {
        Some(n) => {
            if chars_of(n.as_str()).len() > 0 {
                (root, n)
            } else {
                let again = root.clone();
                (root, again)
            }
        },
        None => {
            let again = root.clone();
            (root, again)
        },
    }
}

} // verus!
