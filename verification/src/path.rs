//! Paths as text, their parts set apart by `/`.

use vstd::prelude::*;
use vstd::string::*;

use crate::text::{chars_of, is_char, join, join_of, last_before, lemma_split_joined, lemma_split_plain, rsplit_once, rsplit_once_of, same, slice_text, split, split_of, split_where, starts_with, strs};

verus! {

/// Is this part of a path a name or a step up, and not nothing or `.`?
pub open spec fn counts() -> spec_fn(Seq<char>) -> bool {
    |p: Seq<char>| p.len() > 0 && p != "."@
}

/// The parts of a path that count: a doubled slash and a `.` do not.
pub open spec fn parts_of(path: Seq<char>) -> Seq<Seq<char>> {
    split_of(path, '/').filter(counts())
}

/// The last part of a path, where it is a name.
pub open spec fn file_name_of(path: Seq<char>) -> Option<Seq<char>> {
    let parts = parts_of(path);
    if parts.len() == 0 || parts.last() == ".."@ {
        None
    } else {
        Some(parts.last())
    }
}

/// What stands behind the last dot of a path's name, where something stands before it.
pub open spec fn extension_of(path: Seq<char>) -> Option<Seq<char>> {
    match file_name_of(path) {
        None => None,
        Some(name) => match rsplit_once_of(name, '.') {
            Some((stem, ext)) => if stem.len() > 0 {
                Some(ext)
            } else {
                None
            },
            None => None,
        },
    }
}

/// A path's name without its extension.
pub open spec fn stem_of(path: Seq<char>) -> Option<Seq<char>> {
    match file_name_of(path) {
        None => None,
        Some(name) => match rsplit_once_of(name, '.') {
            Some((stem, ext)) => if stem.len() > 0 {
                Some(stem)
            } else {
                Some(name)
            },
            None => Some(name),
        },
    }
}

/// The parts of a path that count.
pub fn parts(path: &str) -> (out: Vec<String>)
    ensures
        strs(out@) == parts_of(path@),
{
    let all = split(path, '/');
    let ghost want = strs(all@);
    let mut out: Vec<String> = Vec::new();
    let mut i: usize = 0;
    assert(strs(out@) =~= want.take(0).filter(counts())) by {
        reveal(Seq::filter);
    }
    while i < all.len()
        invariant
            i <= all.len(),
            want == strs(all@),
            strs(out@) == want.take(i as int).filter(counts()),
        decreases all.len() - i,
    {
        let p = &all[i];
        proof {
            assert(want.take(i + 1) =~= want.take(i as int).push(p@));
            reveal(Seq::filter);
            assert(want.take(i as int).push(p@).drop_last() =~= want.take(i as int));
        }
        let ghost o = out@;
        if !p.as_str().is_empty() && !same(p.as_str(), ".") {
            out.push(p.clone());
            assert(strs(out@) =~= strs(o).push(p@));
        }
        i = i + 1;
    }
    assert(want.take(i as int) =~= want);
    out
}

/// The last part of a path, where it is a name.
pub fn file_name(path: &str) -> (out: Option<String>)
    ensures
        (match out {
            Some(n) => Some(n@),
            None => None,
        }) == file_name_of(path@),
{
    let ps = parts(path);
    if ps.len() == 0 {
        return None;
    }
    let last = &ps[ps.len() - 1];
    assert(last@ == strs(ps@).last());
    if same(last.as_str(), "..") {
        None
    } else {
        Some(last.clone())
    }
}

/// What stands behind the last dot of a path's name.
pub fn extension(path: &str) -> (out: Option<String>)
    ensures
        (match out {
            Some(e) => Some(e@),
            None => None,
        }) == extension_of(path@),
{
    match file_name(path) {
        None => None,
        Some(name) => match rsplit_once(name.as_str(), '.') {
            Some((stem, ext)) => if stem.as_str().is_empty() {
                None
            } else {
                Some(ext)
            },
            None => None,
        },
    }
}

/// A path's name without its extension.
pub fn stem(path: &str) -> (out: Option<String>)
    ensures
        (match out {
            Some(e) => Some(e@),
            None => None,
        }) == stem_of(path@),
{
    match file_name(path) {
        None => None,
        Some(name) => match rsplit_once(name.as_str(), '.') {
            Some((stem, ext)) => if stem.as_str().is_empty() {
                Some(name)
            } else {
                Some(stem)
            },
            None => Some(name),
        },
    }
}

// -------------------------------------------------------------- components --

/// What tells a path from another: whether it begins at the root, and its parts. A slash
/// at the end, a doubled one and a `.` behind something do not count; a `.` that the path
/// begins with does.
pub open spec fn components_of(path: Seq<char>) -> (bool, Seq<Seq<char>>) {
    if split_of(path, '/')[0] == "."@ {
        (false, seq!["."@] + parts_of(path))
    } else {
        (path.len() > 0 && path[0] == '/', parts_of(path))
    }
}

/// The shortest text of a path: its components with one slash between neighbours.
pub open spec fn tidy_of(path: Seq<char>) -> Seq<char> {
    let (root, parts) = components_of(path);
    (if root {
        "/"@
    } else {
        ""@
    }) + join_of(parts, "/"@)
}

/// The shortest text of a path.
pub fn tidy(path: &str) -> (out: String)
    ensures
        out@ == tidy_of(path@),
{
    let all = split(path, '/');
    let named = parts(path);
    proof {
        lemma_split_fields(path@, '/');
        assert(strs(all@)[0] == all@[0]@);
        reveal_strlit("/");
        reveal_strlit("");
    }
    if same(all[0].as_str(), ".") {
        let mut ps: Vec<String> = Vec::new();
        ps.push(".".to_string());
        let mut i: usize = 0;
        assert(strs(ps@) =~= seq!["."@] + strs(named@).take(0));
        while i < named.len()
            invariant
                i <= named.len(),
                strs(ps@) == seq!["."@] + strs(named@).take(i as int),
            decreases named.len() - i,
        {
            let ghost o = strs(ps@);
            ps.push(named[i].clone());
            assert(strs(ps@) =~= o.push(strs(named@)[i as int]));
            assert(strs(ps@) =~= seq!["."@] + strs(named@).take(i + 1));
            i = i + 1;
        }
        assert(strs(named@).take(i as int) =~= strs(named@));
        let out = join(&ps, "/");
        assert(out@ =~= ""@ + out@);
        out
    } else if starts_with(path, "/") {
        assert(path@[0] == path@.take(1)[0]);
        "/".to_string().concat(join(&named, "/").as_str())
    } else {
        assert(path@.len() > 0 ==> path@[0] != '/') by {
            if path@.len() > 0 && path@[0] == '/' {
                assert("/"@ =~= path@.take(1));
            }
        }
        let out = join(&named, "/");
        assert(out@ =~= ""@ + out@);
        out
    }
}

/// There is a field, and no field holds the separator.
proof fn lemma_split_fields(s: Seq<char>, c: char)
    ensures
        split_of(s, c).len() > 0,
        forall|i: int, j: int|
            0 <= i < split_of(s, c).len() && 0 <= j < split_of(s, c)[i].len() ==> #[trigger] split_of(
                s,
                c,
            )[i][j] != c,
    decreases s.len(),
{
    if s.len() > 0 {
        let t = s.drop_last();
        lemma_split_fields(t, c);
        let before = split_of(t, c);
        let all = split_of(s, c);
        assert forall|i: int, j: int| 0 <= i < all.len() && 0 <= j < all[i].len() implies #[trigger] all[i][j]
            != c by {
            if i < before.len() && j < before[i].len() {
                assert(before[i][j] != c);
            }
        }
    }
}

/// What a filter lets through passes its test, and was there before.
proof fn lemma_filter_member<A>(s: Seq<A>, pred: spec_fn(A) -> bool, i: int)
    requires
        0 <= i < s.filter(pred).len(),
    ensures
        pred(s.filter(pred)[i]),
        s.contains(s.filter(pred)[i]),
    decreases s.len(),
{
    reveal(Seq::filter);
    if s.len() > 0 {
        let t = s.drop_last();
        if i < t.filter(pred).len() {
            lemma_filter_member(t, pred, i);
            let k = choose|k: int| 0 <= k < t.len() && t[k] == t.filter(pred)[i];
            assert(s[k] == t[k]);
        } else {
            assert(s[s.len() - 1] == s.last());
        }
    }
}

/// Can these be the parts of a path?
spec fn plain_parts(ps: Seq<Seq<char>>) -> bool {
    forall|i: int|
        0 <= i < ps.len() ==> (#[trigger] ps[i]).len() > 0 && forall|j: int|
            0 <= j < ps[i].len() ==> #[trigger] ps[i][j] != '/'
}

proof fn lemma_components_are_plain(path: Seq<char>)
    ensures
        plain_parts(components_of(path).1),
{
    let fields = split_of(path, '/');
    let ps = parts_of(path);
    lemma_split_fields(path, '/');
    reveal_strlit(".");
    assert(plain_parts(ps)) by {
        assert forall|i: int| 0 <= i < ps.len() implies (#[trigger] ps[i]).len() > 0 && forall|j: int|
            0 <= j < ps[i].len() ==> #[trigger] ps[i][j] != '/' by {
            lemma_filter_member(fields, counts(), i);
            let k = choose|k: int| 0 <= k < fields.len() && fields[k] == ps[i];
            assert forall|j: int| 0 <= j < ps[i].len() implies #[trigger] ps[i][j] != '/' by {
                assert(fields[k][j] != '/');
            }
        }
    }
    let all = seq!["."@] + ps;
    assert forall|i: int| 0 <= i < all.len() implies (#[trigger] all[i]).len() > 0 && forall|j: int|
        0 <= j < all[i].len() ==> #[trigger] all[i][j] != '/' by {
        if i > 0 {
            assert(all[i] == ps[i - 1]);
        }
    }
}

/// Parts that were joined come apart again.
proof fn lemma_parts_come_apart(ps: Seq<Seq<char>>)
    requires
        plain_parts(ps),
        ps.len() > 0,
    ensures
        split_of(join_of(ps, "/"@), '/') == ps,
        join_of(ps, "/"@).len() > 0,
        join_of(ps, "/"@)[0] != '/',
    decreases ps.len(),
{
    let last = ps.last();
    assert(last == ps[ps.len() - 1]);
    lemma_split_plain(last, is_char('/'));
    if ps.len() == 1 {
        assert(ps[0][0] != '/');
        assert(ps =~= seq![last]);
    } else {
        let front = ps.drop_last();
        assert forall|i: int| 0 <= i < front.len() implies (#[trigger] front[i]).len() > 0
            && forall|j: int| 0 <= j < front[i].len() ==> #[trigger] front[i][j] != '/' by {
            assert(front[i] == ps[i]);
        }
        lemma_parts_come_apart(front);
        reveal_strlit("/");
        let head = join_of(front, "/"@);
        lemma_split_joined(head, '/', last, is_char('/'));
        assert(head + "/"@ + last =~= head.push('/') + last);
        assert(front + seq![last] =~= ps);
    }
}

proof fn lemma_tidy_tells(a: Seq<char>, b: Seq<char>)
    requires
        tidy_of(a) == tidy_of(b),
    ensures
        components_of(a) == components_of(b),
{
    let (x, ps) = components_of(a);
    let (y, qs) = components_of(b);
    lemma_components_are_plain(a);
    lemma_components_are_plain(b);
    if ps.len() > 0 {
        lemma_parts_come_apart(ps);
    }
    if qs.len() > 0 {
        lemma_parts_come_apart(qs);
    }
    reveal_strlit("/");
    reveal_strlit("");
    let s = join_of(ps, "/"@);
    let t = join_of(qs, "/"@);
    let text = tidy_of(a);
    assert(x <==> text.len() > 0 && text[0] == '/');
    assert(y <==> text.len() > 0 && text[0] == '/');
    assert(s =~= text.skip(if x { 1 } else { 0 }));
    assert(t =~= text.skip(if x { 1 } else { 0 }));
    assert(ps =~= qs);
}

/// Two texts have one shortest text exactly where their components agree: `x`, `x/` and
/// `x/.` are one path, `./x` and `/x` are others.
pub proof fn law_a_path_is_its_components(a: Seq<char>, b: Seq<char>)
    ensures
        tidy_of(a) == tidy_of(b) <==> components_of(a) == components_of(b),
{
    if tidy_of(a) == tidy_of(b) {
        lemma_tidy_tells(a, b);
    }
}

// ------------------------------------------------------------------- names --

/// A path without the slashes and the `.` behind its last name.
pub open spec fn bare_of(path: Seq<char>) -> Seq<char>
    decreases path.len(),
{
    let n = path.len();
    if n > 0 && (path[n - 1] == '/' || n > 1 && path[n - 1] == '.' && path[n - 2] == '/') {
        bare_of(path.drop_last())
    } else {
        path
    }
}

/// Where the last name of a path begins, in its bare text.
pub open spec fn name_at(bare: Seq<char>) -> int {
    last_before(bare, '/', bare.len() as int) + 1
}

/// The last name of a path, where it has one.
pub open spec fn last_name(path: Seq<char>) -> Option<Seq<char>> {
    let b = bare_of(path);
    let name = b.skip(name_at(b));
    if name.len() == 0 || name == "."@ || name == ".."@ {
        None
    } else {
        Some(name)
    }
}

/// A name without its extension, and the extension.
pub open spec fn name_parts(name: Seq<char>) -> (Seq<char>, Option<Seq<char>>) {
    match rsplit_once_of(name, '.') {
        Some((stem, ext)) => if stem.len() > 0 {
            (stem, Some(ext))
        } else {
            (name, None)
        },
        None => (name, None),
    }
}

/// A path with another extension; one without a name stays as it is.
pub open spec fn with_extension_of(path: Seq<char>, ext: Seq<char>) -> Seq<char> {
    let b = bare_of(path);
    match last_name(path) {
        Some(name) => b.take(name_at(b)) + name_parts(name).0 + "."@ + ext,
        None => path,
    }
}

/// What a path's last name stands in.
pub open spec fn parent_of(path: Seq<char>) -> Seq<char> {
    let b = bare_of(path);
    let dir = b.take(name_at(b));
    if dir.len() > 0 && bare_of(dir).len() == 0 {
        "/"@
    } else {
        bare_of(dir)
    }
}

/// A name below a directory.
pub open spec fn below(dir: Seq<char>, name: Seq<char>) -> Seq<char> {
    if dir.len() == 0 || dir.last() == '/' {
        dir + name
    } else {
        dir + "/"@ + name
    }
}

fn bare(path: &str) -> (out: Vec<char>)
    ensures
        out@ == bare_of(path@),
{
    let cs = chars_of(path);
    let mut n: usize = cs.len();
    assert(cs@.take(n as int) =~= cs@);
    while n > 0 && (cs[n - 1] == '/' || n > 1 && cs[n - 1] == '.' && cs[n - 2] == '/')
        invariant
            n <= cs.len(),
            cs@ == path@,
            bare_of(cs@.take(n as int)) == bare_of(path@),
        decreases n,
    {
        assert(cs@.take(n as int).drop_last() =~= cs@.take(n - 1));
        n = n - 1;
    }
    let mut out: Vec<char> = Vec::new();
    let mut i: usize = 0;
    while i < n
        invariant
            i <= n <= cs.len(),
            out@ =~= cs@.take(i as int),
        decreases n - i,
    {
        out.push(cs[i]);
        i = i + 1;
    }
    out
}

fn name_start(b: &Vec<char>) -> (at: usize)
    ensures
        at == name_at(b@),
        at <= b@.len(),
{
    let mut n: usize = b.len();
    while n > 0 && b[n - 1] != '/'
        invariant
            n <= b.len(),
            last_before(b@, '/', n as int) == last_before(b@, '/', b@.len() as int),
        decreases n,
    {
        n = n - 1;
    }
    n
}

/// The last name of a path, where it has one.
pub fn name(path: &str) -> (out: Option<String>)
    ensures
        (match out {
            Some(n) => Some(n@),
            None => None,
        }) == last_name(path@),
{
    let b = bare(path);
    let at = name_start(&b);
    let total = b.len();
    let name = slice_text(&b, at, total);
    assert(name@ =~= b@.skip(at as int));
    if name.as_str().is_empty() || same(name.as_str(), ".") || same(name.as_str(), "..") {
        None
    } else {
        Some(name)
    }
}

/// A name without its extension, and the extension.
pub fn split_name(name: &str) -> (r: (String, Option<String>))
    ensures
        (
            r.0@,
            match r.1 {
                Some(e) => Some(e@),
                None => None,
            },
        ) == name_parts(name@),
{
    match rsplit_once(name, '.') {
        Some((stem, ext)) => if !stem.as_str().is_empty() {
            (stem, Some(ext))
        } else {
            (name.to_string(), None)
        },
        None => (name.to_string(), None),
    }
}

/// A path with another extension.
pub fn with_extension(path: &str, ext: &str) -> (out: String)
    ensures
        out@ == with_extension_of(path@, ext@),
{
    match name(path) {
        None => path.to_string(),
        Some(n) => {
            let b = bare(path);
            let at = name_start(&b);
            let dir = slice_text(&b, 0, at);
            assert(dir@ =~= b@.take(at as int));
            dir.concat(split_name(n.as_str()).0.as_str()).concat(".").concat(ext)
        },
    }
}

/// What a path's last name stands in.
pub fn parent(path: &str) -> (out: String)
    ensures
        out@ == parent_of(path@),
{
    let b = bare(path);
    let at = name_start(&b);
    let dir = slice_text(&b, 0, at);
    assert(dir@ =~= b@.take(at as int));
    let d = bare(dir.as_str());
    let total = d.len();
    if !dir.as_str().is_empty() && total == 0 {
        "/".to_string()
    } else {
        let out = slice_text(&d, 0, total);
        assert(out@ =~= d@);
        out
    }
}

/// A name below a directory.
pub fn join_name(dir: &str, name: &str) -> (out: String)
    ensures
        out@ == below(dir@, name@),
{
    let cs = chars_of(dir);
    if cs.len() == 0 || cs[cs.len() - 1] == '/' {
        dir.to_string().concat(name)
    } else {
        dir.to_string().concat("/").concat(name)
    }
}

/// The name of a path is its last part; a new extension replaces the old one and leaves the rest.
pub proof fn law_what_a_new_extension_replaces(path: Seq<char>, ext: Seq<char>)
    ensures
        last_name(path) is None ==> with_extension_of(path, ext) == path,
        last_name(path) is Some ==> ("."@ + ext).is_suffix_of(with_extension_of(path, ext)),
        last_name(path) matches Some(name) ==> (bare_of(path).take(name_at(bare_of(path)))
            + name_parts(name).0).is_prefix_of(with_extension_of(path, ext)),
        file_name_of(path) matches Some(name) ==> parts_of(path).len() > 0 && name
            == parts_of(path).last() && name != ".."@,
        file_name_of(path) is None <==> parts_of(path).len() == 0 || parts_of(path).last() == ".."@,
{
    let b = bare_of(path);
    if let Some(name) = last_name(path) {
        let head = b.take(name_at(b)) + name_parts(name).0;
        let t = with_extension_of(path, ext);
        let e = "."@ + ext;
        assert(t =~= head + e);
        assert(t.subrange(0, head.len() as int) =~= head);
        assert(t.subrange(t.len() - e.len(), t.len() as int) =~= e);
    }
}

/// A name is its stem, a point and its extension; one that has no point, or begins with its only
/// point, has no extension.
pub proof fn law_a_name_comes_apart(name: Seq<char>)
    ensures
        name_parts(name).1 is None ==> name_parts(name).0 == name,
        name_parts(name).1 matches Some(ext) ==> name == name_parts(name).0.push('.') + ext
            && !ext.contains('.') && name_parts(name).0.len() > 0,
{
    crate::text::lemma_last(name, '.', name.len() as int);
    if let Some(ext) = name_parts(name).1 {
        assert(name =~= name_parts(name).0.push('.') + ext);
        if ext.contains('.') {
            let k = choose|k: int| 0 <= k < ext.len() && ext[k] == '.';
            assert(name[name_parts(name).0.len() + 1 + k] == '.');
        }
    }
}

} // verus!
