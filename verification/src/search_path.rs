//! Merging two `PATH` lists: the interactive one first, then the process
//! one, each directory once, empty entries dropped, order kept.
//!
//! Two entries name the same directory when `Path` equality says so: it
//! compares components, so `/usr//bin/` and `/usr/bin` are one directory,
//! and so are `a/./b` and `a/b`; a leading `.` stays a component of its own.
use vstd::prelude::*;
use crate::text::{chars_of, same_text, split_exec, split_on, string_of};

verus! {

/// The non-empty pieces among `s`, in order.
pub open spec fn nonempty_pieces(s: Seq<Seq<char>>) -> Seq<Seq<char>>
    decreases s.len(),
{
    if s.len() == 0 {
        Seq::empty()
    } else if s.last().len() > 0 {
        nonempty_pieces(s.drop_last()).push(s.last())
    } else {
        nonempty_pieces(s.drop_last())
    }
}

/// The entries of a `PATH` list: the pieces between its `:` separators,
/// the empty ones dropped.
pub open spec fn path_entries(s: Seq<char>) -> Seq<Seq<char>> {
    nonempty_pieces(split_on(s, ':'))
}

/// The normal parts of a path: its `/`-separated pieces but the empty ones
/// and the `.` ones.
pub open spec fn normal_parts(s: Seq<Seq<char>>) -> Seq<Seq<char>>
    decreases s.len(),
{
    if s.len() == 0 {
        Seq::empty()
    } else if s.last().len() > 0 && s.last() != seq!['.'] {
        normal_parts(s.drop_last()).push(s.last())
    } else {
        normal_parts(s.drop_last())
    }
}

/// What `Path` equality compares of a path: `/` for a root, `.` for a
/// leading current directory, then its normal parts.
pub open spec fn path_key(s: Seq<char>) -> Seq<Seq<char>> {
    let pieces = split_on(s, '/');
    let head = if s.len() > 0 && s[0] == '/' {
        seq![seq!['/']]
    } else if pieces[0] == seq!['.'] {
        seq![seq!['.']]
    } else {
        Seq::empty()
    };
    head + normal_parts(pieces)
}

/// No entry before the `i`-th names the same directory.
pub open spec fn first_of_its_directory(s: Seq<Seq<char>>, i: int) -> bool {
    forall|j: int| 0 <= j < i ==> path_key(#[trigger] s[j]) != path_key(s[i])
}

/// The first `n` entries, each directory at its first entry only.
pub open spec fn distinct_dirs(s: Seq<Seq<char>>, n: int) -> Seq<Seq<char>>
    decreases n,
{
    if n <= 0 {
        Seq::empty()
    } else if first_of_its_directory(s, n - 1) {
        distinct_dirs(s, n - 1).push(s[n - 1])
    } else {
        distinct_dirs(s, n - 1)
    }
}

/// Entries joined by `:`.
pub open spec fn joined_path(s: Seq<Seq<char>>) -> Seq<char>
    decreases s.len(),
{
    if s.len() == 0 {
        Seq::empty()
    } else if s.len() == 1 {
        s[0]
    } else {
        joined_path(s.drop_last()) + seq![':'] + s.last()
    }
}

/// The union of two `PATH` lists, `first` taking precedence.
pub open spec fn union_paths_spec(first: Seq<char>, second: Seq<char>) -> Seq<char> {
    let all = path_entries(first) + path_entries(second);
    joined_path(distinct_dirs(all, all.len() as int))
}

/// The non-empty pieces of `s` split on `sep`, appended to `out`.
fn push_entries(out: &mut Vec<Vec<char>>, s: &str)
    ensures
        texts_of(final(out)@) == texts_of(old(out)@) + path_entries(s@),
{
    let pieces = split_exec(&chars_of(s), ':');
    let ghost sp = split_on(s@, ':');
    let ghost start = texts_of(out@);
    let mut i: usize = 0;
    while i < pieces.len()
        invariant
            i <= pieces@.len(),
            pieces@.len() == sp.len(),
            forall|j: int| 0 <= j < pieces@.len() ==> #[trigger] pieces@[j]@ == sp[j],
            texts_of(out@) == start + nonempty_pieces(sp.take(i as int)),
        decreases pieces.len() - i,
    {
        let ghost before = texts_of(out@);
        assert(sp.take(i + 1).drop_last() =~= sp.take(i as int));
        assert(sp.take(i + 1).last() == pieces@[i as int]@);
        if pieces[i].len() > 0 {
            out.push(copy_chars(&pieces[i]));
            assert(texts_of(out@) =~= before.push(pieces@[i as int]@));
        }
        i += 1;
    }
    assert(sp.take(i as int) =~= sp);
}

/// The texts of character vectors.
pub open spec fn texts_of(v: Seq<Vec<char>>) -> Seq<Seq<char>> {
    v.map_values(|x: Vec<char>| x@)
}

/// A copy of characters.
fn copy_chars(v: &Vec<char>) -> (r: Vec<char>)
    ensures
        r@ == v@,
{
    let mut r: Vec<char> = Vec::new();
    let mut i: usize = 0;
    while i < v.len()
        invariant
            i <= v@.len(),
            r@ == v@.take(i as int),
        decreases v.len() - i,
    {
        r.push(v[i]);
        assert(r@ =~= v@.take(i + 1));
        i += 1;
    }
    assert(v@.take(i as int) =~= v@);
    r
}

/// Splitting gives at least one piece.
proof fn lemma_split_has_a_piece(s: Seq<char>, sep: char)
    ensures
        split_on(s, sep).len() >= 1,
{
}

/// What `Path` equality compares of an entry.
fn path_key_exec(s: &Vec<char>) -> (r: Vec<Vec<char>>)
    ensures
        texts_of(r@) == path_key(s@),
{
    let pieces = split_exec(s, '/');
    let ghost sp = split_on(s@, '/');
    proof {
        lemma_split_has_a_piece(s@, '/');
    }
    let ghost spec_head = if s@.len() > 0 && s@[0] == '/' {
        seq![seq!['/']]
    } else if sp[0] == seq!['.'] {
        seq![seq!['.']]
    } else {
        Seq::<Seq<char>>::empty()
    };
    let mut r: Vec<Vec<char>> = Vec::new();
    if s.len() > 0 && s[0] == '/' {
        let mut root: Vec<char> = Vec::new();
        root.push('/');
        r.push(root);
        assert(texts_of(r@) =~= spec_head);
    } else if pieces[0].len() == 1 && pieces[0][0] == '.' {
        assert(pieces@[0]@ =~= seq!['.']);
        let mut cur: Vec<char> = Vec::new();
        cur.push('.');
        r.push(cur);
        assert(texts_of(r@) =~= spec_head);
    } else {
        assert(pieces@[0]@ != seq!['.']) by {
            if pieces@[0]@ == seq!['.'] {
                assert(pieces@[0]@.len() == 1 && pieces@[0]@[0] == '.');
            }
        }
        assert(texts_of(r@) =~= spec_head);
    }
    let ghost head = texts_of(r@);
    let mut i: usize = 0;
    while i < pieces.len()
        invariant
            i <= pieces@.len(),
            pieces@.len() == sp.len(),
            forall|j: int| 0 <= j < pieces@.len() ==> #[trigger] pieces@[j]@ == sp[j],
            texts_of(r@) == head + normal_parts(sp.take(i as int)),
        decreases pieces.len() - i,
    {
        let ghost before = texts_of(r@);
        assert(sp.take(i + 1).drop_last() =~= sp.take(i as int));
        assert(sp.take(i + 1).last() == pieces@[i as int]@);
        let p = &pieces[i];
        let dot = p.len() == 1 && p[0] == '.';
        assert(dot == (p@ == seq!['.'])) by {
            if p@ == seq!['.'] {
                assert(p@.len() == 1 && p@[0] == '.');
            }
            if dot {
                assert(p@ =~= seq!['.']);
            }
        }
        if p.len() > 0 && !dot {
            r.push(copy_chars(p));
            assert(texts_of(r@) =~= before.push(p@));
        }
        i += 1;
    }
    assert(sp.take(i as int) =~= sp);
    assert(texts_of(r@) =~= path_key(s@));
    r
}

/// Whether two keys are equal.
fn same_key(a: &Vec<Vec<char>>, b: &Vec<Vec<char>>) -> (r: bool)
    ensures
        r == (texts_of(a@) == texts_of(b@)),
{
    if a.len() != b.len() {
        assert(texts_of(a@).len() != texts_of(b@).len());
        return false;
    }
    let mut i: usize = 0;
    while i < a.len()
        invariant
            i <= a@.len(),
            a@.len() == b@.len(),
            forall|j: int| 0 <= j < i ==> a@[j]@ == b@[j]@,
        decreases a.len() - i,
    {
        if !same_text(&a[i], &b[i]) {
            assert(texts_of(a@)[i as int] != texts_of(b@)[i as int]);
            return false;
        }
        i += 1;
    }
    assert(texts_of(a@) =~= texts_of(b@));
    true
}

/// Union two `PATH` lists, `first` taking precedence, dropping duplicate
/// directories and empty entries while preserving order.
pub fn union_paths(first: &str, second: &str) -> (r: String)
    ensures
        r@ == union_paths_spec(first@, second@),
{
    let mut all: Vec<Vec<char>> = Vec::new();
    push_entries(&mut all, first);
    push_entries(&mut all, second);
    let ghost s = texts_of(all@);
    assert(s =~= path_entries(first@) + path_entries(second@));
    let mut keys: Vec<Vec<Vec<char>>> = Vec::new();
    let mut k: usize = 0;
    while k < all.len()
        invariant
            k <= all@.len(),
            s == texts_of(all@),
            keys@.len() == k,
            forall|j: int| 0 <= j < k ==> texts_of(#[trigger] keys@[j]@) == path_key(s[j]),
        decreases all.len() - k,
    {
        keys.push(path_key_exec(&all[k]));
        k += 1;
    }
    let mut out: Vec<char> = Vec::new();
    let mut kept: usize = 0;
    let ghost mut parts: Seq<Seq<char>> = Seq::empty();
    let mut i: usize = 0;
    while i < all.len()
        invariant
            i <= all@.len(),
            s == texts_of(all@),
            keys@.len() == all@.len(),
            forall|j: int| 0 <= j < all@.len() ==> texts_of(#[trigger] keys@[j]@) == path_key(s[j]),
            parts == distinct_dirs(s, i as int),
            out@ == joined_path(parts),
            kept as int == parts.len(),
            kept <= i,
        decreases all.len() - i,
    {
        let mut seen = false;
        let mut j: usize = 0;
        while j < i
            invariant
                j <= i < all@.len(),
                s == texts_of(all@),
                keys@.len() == all@.len(),
                forall|q: int| 0 <= q < all@.len() ==> texts_of(#[trigger] keys@[q]@) == path_key(s[q]),
                !seen <==> forall|q: int| 0 <= q < j ==> path_key(#[trigger] s[q]) != path_key(s[i as int]),
            decreases i - j,
        {
            if same_key(&keys[j], &keys[i]) {
                seen = true;
            }
            proof {
                assert(texts_of(keys@[j as int]@) == path_key(s[j as int]));
                assert(texts_of(keys@[i as int]@) == path_key(s[i as int]));
            }
            j += 1;
        }
        if !seen {
            let ghost before = parts;
            if kept > 0 {
                out.push(':');
            }
            let e = &all[i];
            let mut c: usize = 0;
            let ghost base = out@;
            while c < e.len()
                invariant
                    c <= e@.len(),
                    out@ == base + e@.take(c as int),
                decreases e.len() - c,
            {
                out.push(e[c]);
                assert(out@ =~= base + e@.take(c + 1));
                c += 1;
            }
            assert(e@.take(c as int) =~= e@);
            proof {
                parts = before.push(s[i as int]);
                assert(s[i as int] == e@);
                if before.len() == 0 {
                    assert(out@ =~= e@);
                    assert(joined_path(parts) == parts[0]);
                } else {
                    assert(parts.drop_last() =~= before);
                    assert(out@ =~= joined_path(before) + seq![':'] + e@);
                }
            }
            kept += 1;
        }
        i += 1;
    }
    string_of(&out)
}

} // verus!
