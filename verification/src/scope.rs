//! Allow-lists of directories. A path is judged by where it really lies, so that a `..`
//! cannot lead out of what an operator listed; nothing is permitted by default.

use vstd::prelude::*;
use vstd::string::*;

use crate::path::{below, join_name, parts, parts_of};
use crate::text::{same, starts_with, strs};

verus! {

/// A path lies at or below another, part by part.
pub open spec fn inside(path: Seq<char>, root: Seq<char>) -> bool {
    &&& "/"@.is_prefix_of(path) == "/"@.is_prefix_of(root)
    &&& parts_of(root).is_prefix_of(parts_of(path))
}

/// A path lies at or below one of some directories.
pub open spec fn inside_any(path: Seq<char>, roots: Seq<Seq<char>>) -> bool {
    exists|i: int| 0 <= i < roots.len() && inside(path, #[trigger] roots[i])
}

/// Does a path lie at or below another?
pub fn lies_inside(path: &str, root: &str) -> (r: bool)
    ensures
        r == inside(path@, root@),
{
    let p = parts(path);
    let q = parts(root);
    if starts_with(path, "/") != starts_with(root, "/") || q.len() > p.len() {
        return false;
    }
    let ghost ps = strs(p@);
    let ghost qs = strs(q@);
    let mut i: usize = 0;
    while i < q.len()
        invariant
            i <= q.len() <= p.len(),
            ps == strs(p@),
            qs == strs(q@),
            qs == parts_of(root@),
            ps == parts_of(path@),
            forall|k: int| 0 <= k < i ==> #[trigger] ps[k] == qs[k],
        decreases q.len() - i,
    {
        assert(ps[i as int] == p@[i as int]@ && qs[i as int] == q@[i as int]@);
        if !same(p[i].as_str(), q[i].as_str()) {
            assert(!qs.is_prefix_of(ps)) by {
                if qs.is_prefix_of(ps) {
                    assert(ps.subrange(0, qs.len() as int)[i as int] == qs[i as int]);
                }
            }
            return false;
        }
        i = i + 1;
    }
    assert(ps.subrange(0, qs.len() as int) =~= qs);
    true
}

/// Is a path inside something that an operator listed? Both are as the file system
/// resolves them; a path that it cannot resolve is not permitted.
pub fn permits(resolved: Option<&String>, allowed: &Vec<String>) -> (r: bool)
    ensures
        r == (match resolved {
            Some(p) => inside_any(p@, strs(allowed@)),
            None => false,
        }),
{
    match resolved {
        None => false,
        Some(p) => {
            let mut i: usize = 0;
            while i < allowed.len()
                invariant
                    i <= allowed.len(),
                    resolved == Some(p),
                    forall|k: int| 0 <= k < i ==> !inside(p@, #[trigger] strs(allowed@)[k]),
                decreases allowed.len() - i,
            {
                assert(strs(allowed@)[i as int] == allowed@[i as int]@);
                if lies_inside(p.as_str(), allowed[i].as_str()) {
                    assert(inside(p@, strs(allowed@)[i as int]));
                    return true;
                }
                i = i + 1;
            }
            false
        },
    }
}

/// Where a file of this name lies, when its directory is permitted. The file itself need
/// not be there: that it is missing is another answer.
pub fn permits_file(dir: Option<&String>, name: &str, allowed: &Vec<String>) -> (r: Option<
    String,
>)
    ensures
        r is Some <==> (match dir {
            Some(d) => inside_any(d@, strs(allowed@)),
            None => false,
        }),
        r matches Some(t) ==> t@ == below(dir->0@, name@),
{
    if permits(dir, allowed) {
        match dir {
            Some(d) => Some(join_name(d.as_str(), name)),
            None => None,
        }
    } else {
        None
    }
}

/// Nothing is permitted by default.
pub proof fn law_nothing_is_permitted_by_default(path: Seq<char>)
    ensures
        !inside_any(path, Seq::<Seq<char>>::empty()),
{
}

/// What lies inside something permitted is permitted.
pub proof fn law_inside_is_transitive(path: Seq<char>, mid: Seq<char>, roots: Seq<Seq<char>>)
    requires
        inside(path, mid),
        inside_any(mid, roots),
    ensures
        inside_any(path, roots),
{
    let i = choose|i: int| 0 <= i < roots.len() && inside(mid, #[trigger] roots[i]);
    let a = parts_of(roots[i]);
    let b = parts_of(mid);
    let c = parts_of(path);
    assert(c.subrange(0, a.len() as int) =~= b.subrange(0, a.len() as int));
    assert(inside(path, roots[i]));
}

/// What lies above a listed directory is not inside it.
pub proof fn law_nothing_above_is_permitted(path: Seq<char>, root: Seq<char>)
    requires
        parts_of(path).len() < parts_of(root).len(),
    ensures
        !inside(path, root),
{
}

/// A path lies inside a root exactly where both start from the same place and the path goes on
/// where the root ends.
pub proof fn law_what_lies_inside(path: Seq<char>, root: Seq<char>, roots: Seq<Seq<char>>)
    ensures
        inside(path, root) <==> ("/"@.is_prefix_of(path) <==> "/"@.is_prefix_of(root)) && parts_of(
            root,
        ).len() <= parts_of(path).len() && parts_of(path).take(parts_of(root).len() as int)
            == parts_of(root),
        inside(root, root),
        inside_any(path, roots.push(root)) <==> inside_any(path, roots) || inside(path, root),
{
    let (p, r) = (parts_of(path), parts_of(root));
    if r.len() <= p.len() {
        assert(p.subrange(0, r.len() as int) =~= p.take(r.len() as int));
    }
    assert(r.subrange(0, r.len() as int) =~= r);
    let all = roots.push(root);
    if inside_any(path, roots) {
        let i = choose|i: int| 0 <= i < roots.len() && inside(path, #[trigger] roots[i]);
        assert(inside(path, all[i]));
    }
    if inside(path, root) {
        assert(inside(path, all[roots.len() as int]));
    }
    if inside_any(path, all) {
        let i = choose|i: int| 0 <= i < all.len() && inside(path, #[trigger] all[i]);
        if i < roots.len() {
            assert(inside(path, roots[i]));
        }
    }
}

} // verus!
