//! Where a NodeRun works: its own per-iteration checkout for a
//! code-mutating node, the Run's shared worktree otherwise. Paths are Unix
//! path texts, joined as `PathBuf::push` joins them.
use vstd::prelude::*;
use crate::text::{chars_of, int_text, push_all, push_i64, push_str, str_eq, string_of};

verus! {

broadcast use vstd::string::group_string_axioms;

/// `base` joined with `comp`: an absolute `comp` replaces `base`; otherwise
/// a `/` separates them unless `base` is empty or already ends with one.
pub open spec fn joined(base: Seq<char>, comp: Seq<char>) -> Seq<char> {
    if comp.len() > 0 && comp[0] == '/' {
        comp
    } else if base.len() == 0 || base.last() == '/' {
        base + comp
    } else {
        base + "/"@ + comp
    }
}

/// The working directory of a node's iteration.
pub open spec fn working_dir_spec(repo_root: Seq<char>, run_id: Seq<char>, node_id: Seq<char>, iter: int, node_type: Seq<char>) -> Seq<char> {
    let runs = joined(joined(joined(repo_root, ".pdo"@), "runs"@), run_id);
    if node_type == "code-mutating"@ {
        joined(joined(joined(runs, "nodes"@), node_id), "iter-"@ + int_text(iter))
    } else {
        joined(runs, "worktree"@)
    }
}

/// Joins `comp` onto the path in `out`.
fn push_component(out: &mut Vec<char>, comp: &[char])
    ensures
        final(out)@ == joined(old(out)@, comp@),
{
    if comp.len() > 0 && comp[0] == '/' {
        out.clear();
        push_all(out, comp);
        assert(out@ =~= comp@);
    } else {
        let ghost o = out@;
        if out.len() > 0 && out[out.len() - 1] != '/' {
            assert(o.last() != '/');
            push_str(out, "/");
            push_all(out, comp);
            assert(out@ =~= o + "/"@ + comp@);
        } else {
            push_all(out, comp);
            assert(out@ =~= o + comp@);
        }
    }
}

/// `base` joined with `comp`.
pub fn path_join(base: &str, comp: &str) -> (r: String)
    ensures
        r@ == joined(base@, comp@),
{
    let mut out = chars_of(base);
    push_component(&mut out, &chars_of(comp));
    string_of(&out)
}

/// Resolve the working directory of a NodeRun: a `code-mutating` node works
/// in `<root>/.pdo/runs/<run>/nodes/<node>/iter-<n>`, any other node in the
/// Run's worktree `<root>/.pdo/runs/<run>/worktree`.
pub fn working_dir_for_node(repo_root: &str, run_id: &str, node_id: &str, iter: i64, node_type: &str) -> (r: String)
    ensures
        r@ == working_dir_spec(repo_root@, run_id@, node_id@, iter as int, node_type@),
{
    let mut out = chars_of(repo_root);
    push_component(&mut out, &chars_of(".pdo"));
    push_component(&mut out, &chars_of("runs"));
    push_component(&mut out, &chars_of(run_id));
    if str_eq(node_type, "code-mutating") {
        push_component(&mut out, &chars_of("nodes"));
        push_component(&mut out, &chars_of(node_id));
        let mut it: Vec<char> = Vec::new();
        push_str(&mut it, "iter-");
        push_i64(&mut it, iter);
        push_component(&mut out, &it);
    } else {
        push_component(&mut out, &chars_of("worktree"));
    }
    string_of(&out)
}

} // verus!
