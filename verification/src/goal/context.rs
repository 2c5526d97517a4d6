//! What a branch or a part is shown: its writable files, its read-only context,
//! and what the pool already has.

use vstd::prelude::*;
use vstd::string::*;

use crate::goal::spec::PartSpec;
use crate::number::{dec, dec_of};
use crate::text::{contains, ends_with, holds, is_among, join, join_of, lemma_assoc, lemma_holds_end, lemma_holds_itself, lemma_holds_longer, lines, lines_of, starts_with, strs, trim, trim_of, trim_start, trim_start_of};

verus! {

/// A file as it is shown to a branch.
#[derive(Debug, PartialEq, Eq)]
pub struct Shown {
    pub path: String,
    pub content: String,
}

/// What a shown file says.
pub struct ShownView {
    pub path: Seq<char>,
    pub content: Seq<char>,
}

impl View for Shown {
    type V = ShownView;

    open spec fn view(&self) -> ShownView {
        ShownView { path: self.path@, content: self.content@ }
    }
}

/// The views of a list of shown files.
pub open spec fn shown_views(v: Seq<Shown>) -> Seq<ShownView> {
    v.map_values(|s: Shown| s@)
}

/// A line that holds more than a comment.
pub open spec fn is_code(line: Seq<char>) -> bool {
    !"//"@.is_prefix_of(trim_start_of(line))
}

/// Interface text without its comment lines; any other file as it is.
pub open spec fn leaned(path: Seq<char>, content: Seq<char>) -> Seq<char> {
    if ".wit"@.is_suffix_of(path) {
        join_of(lines_of(content).filter(|l: Seq<char>| is_code(l)), "\n"@)
    } else {
        content
    }
}

/// Context as a part should see it: a `.wit` loses its comment lines, which the
/// contract repeats, and any other file stays whole.
pub fn lean_context(path: &str, content: String) -> (out: String)
    ensures
        out@ == leaned(path@, content@),
{
    if !ends_with(path, ".wit") {
        return content;
    }
    let all = lines(content.as_str());
    let ghost ls = strs(all@);
    let ghost code = |l: Seq<char>| is_code(l);
    let mut kept: Vec<String> = Vec::new();
    let mut i: usize = 0;
    assert(ls.take(0).filter(code) =~= Seq::<Seq<char>>::empty()) by {
        reveal(Seq::filter);
    }
    assert(strs(kept@) =~= Seq::<Seq<char>>::empty());
    while i < all.len()
        invariant
            i <= all.len(),
            ls == strs(all@),
            code == (|l: Seq<char>| is_code(l)),
            strs(kept@) == ls.take(i as int).filter(code),
        decreases all.len() - i,
    {
        let bare = trim_start(all[i].as_str());
        proof {
            assert(ls.take(i + 1) =~= ls.take(i as int).push(ls[i as int]));
            ls.take(i as int).lemma_filter_push(ls[i as int], code);
        }
        if !starts_with(bare.as_str(), "//") {
            let line = all[i].clone();
            let ghost o = kept@;
            kept.push(line);
            assert(strs(kept@) =~= strs(o).push(line@));
        }
        i = i + 1;
    }
    assert(ls.take(i as int) =~= ls);
    join(&kept, "\n")
}

/// The first of the two lists that names a path decides how it is shown: each path
/// once, and with its comments where the branch may write it.
pub open spec fn wanted(writable: Seq<Seq<char>>, readonly: Seq<Seq<char>>) -> Seq<(Seq<char>, bool)>
    decreases writable.len() + readonly.len(),
{
    if readonly.len() > 0 {
        let before = wanted(writable, readonly.drop_last());
        let p = readonly.last();
        if writable.contains(p) || readonly.drop_last().contains(p) {
            before
        } else {
            before.push((p, true))
        }
    } else if writable.len() > 0 {
        let before = wanted(writable.drop_last(), readonly);
        let p = writable.last();
        if writable.drop_last().contains(p) {
            before
        } else {
            before.push((p, false))
        }
    } else {
        Seq::empty()
    }
}

/// The views of a list of wanted paths.
pub open spec fn wanted_views(v: Seq<(String, bool)>) -> Seq<(Seq<char>, bool)> {
    v.map_values(|w: (String, bool)| (w.0@, w.1))
}

fn push_fresh(seen: &mut Vec<String>, out: &mut Vec<(String, bool)>, path: &String, strip: bool)
    ensures
        strs(final(seen)@) == strs(old(seen)@).push(path@),
        wanted_views(final(out)@) == if strs(old(seen)@).contains(path@) {
            wanted_views(old(out)@)
        } else {
            wanted_views(old(out)@).push((path@, strip))
        },
{
    if !is_among(seen, path.as_str()) {
        let ghost o = out@;
        out.push((path.clone(), strip));
        assert(wanted_views(out@) =~= wanted_views(o).push((path@, strip)));
    }
    let ghost s = seen@;
    seen.push(path.clone());
    assert(strs(seen@) =~= strs(s).push(path@));
}

/// The paths a branch is shown, in order, each with whether it is read-only.
pub fn wanted_paths(writable: &Vec<String>, readonly: &Vec<String>) -> (out: Vec<(String, bool)>)
    ensures
        wanted_views(out@) == wanted(strs(writable@), strs(readonly@)),
{
    let ghost ws = strs(writable@);
    let ghost rs = strs(readonly@);
    let ghost none = Seq::<Seq<char>>::empty();
    let mut seen: Vec<String> = Vec::new();
    let mut out: Vec<(String, bool)> = Vec::new();
    let mut i: usize = 0;
    assert(strs(seen@) =~= ws.take(0));
    assert(wanted_views(out@) =~= wanted(ws.take(0), none));
    while i < writable.len()
        invariant
            i <= writable.len(),
            ws == strs(writable@),
            none == Seq::<Seq<char>>::empty(),
            strs(seen@) == ws.take(i as int),
            wanted_views(out@) == wanted(ws.take(i as int), none),
        decreases writable.len() - i,
    {
        proof {
            assert(ws.take(i + 1).drop_last() =~= ws.take(i as int));
            assert(ws.take(i as int).push(ws[i as int]) =~= ws.take(i + 1));
        }
        push_fresh(&mut seen, &mut out, &writable[i], false);
        i = i + 1;
    }
    assert(ws.take(i as int) =~= ws);
    assert(rs.take(0) =~= none);
    let mut j: usize = 0;
    assert(strs(seen@) =~= ws + rs.take(0));
    while j < readonly.len()
        invariant
            j <= readonly.len(),
            ws == strs(writable@),
            rs == strs(readonly@),
            strs(seen@) == ws + rs.take(j as int),
            wanted_views(out@) == wanted(ws, rs.take(j as int)),
        decreases readonly.len() - j,
    {
        let ghost p = rs[j as int];
        proof {
            let rt = rs.take(j as int);
            assert(rs.take(j + 1).drop_last() =~= rt);
            assert((ws + rt).push(p) =~= ws + rs.take(j + 1));
            assert((ws + rt).contains(p) <==> ws.contains(p) || rt.contains(p)) by {
                vstd::seq_lib::lemma_seq_concat_contains_all_elements(ws, rt, p);
            }
        }
        push_fresh(&mut seen, &mut out, &readonly[j], true);
        j = j + 1;
    }
    assert(rs.take(j as int) =~= rs);
    out
}

/// The files that could be read, each as its place in the lists says; a file that
/// could not be read is left out.
pub open spec fn shown_of(want: Seq<(Seq<char>, bool)>, read: Seq<Option<Seq<char>>>) -> Seq<ShownView>
    decreases want.len(),
{
    if want.len() == 0 || read.len() != want.len() {
        Seq::empty()
    } else {
        let before = shown_of(want.drop_last(), read.drop_last());
        match read.last() {
            Some(c) => before.push(
                ShownView {
                    path: want.last().0,
                    content: if want.last().1 {
                        leaned(want.last().0, c)
                    } else {
                        c
                    },
                },
            ),
            None => before,
        }
    }
}

/// The views of a list of optional texts.
pub open spec fn opt_texts(v: Seq<Option<String>>) -> Seq<Option<Seq<char>>> {
    v.map_values(|o: Option<String>| crate::goal::spec::opt_text(o))
}

/// What a branch is shown, from what was read at each wanted path.
pub fn branch_context(want: &Vec<(String, bool)>, read: Vec<Option<String>>) -> (out: Vec<Shown>)
    requires
        want.len() == read.len(),
    ensures
        shown_views(out@) == shown_of(wanted_views(want@), opt_texts(read@)),
{
    let ghost ws = wanted_views(want@);
    let ghost rs = opt_texts(read@);
    let mut out: Vec<Shown> = Vec::new();
    let mut i: usize = 0;
    assert(shown_views(out@) =~= shown_of(ws.take(0), rs.take(0)));
    while i < want.len()
        invariant
            i <= want.len(),
            want.len() == read.len(),
            ws == wanted_views(want@),
            rs == opt_texts(read@),
            shown_views(out@) == shown_of(ws.take(i as int), rs.take(i as int)),
        decreases want.len() - i,
    {
        proof {
            assert(ws.take(i + 1).drop_last() =~= ws.take(i as int));
            assert(rs.take(i + 1).drop_last() =~= rs.take(i as int));
            assert(rs[i as int] == crate::goal::spec::opt_text(read[i as int]));
        }
        match &read[i] {
            Some(c) => {
                let content = if want[i].1 {
                    lean_context(want[i].0.as_str(), c.clone())
                } else {
                    c.clone()
                };
                let s = Shown { path: want[i].0.clone(), content };
                let ghost o = out@;
                out.push(s);
                assert(shown_views(out@) =~= shown_views(o).push(s@));
            },
            None => {},
        }
        i = i + 1;
    }
    assert(ws.take(i as int) =~= ws);
    assert(rs.take(i as int) =~= rs);
    out
}

/// What a part is shown: its own files, and last what the pool already has.
pub fn part_context(own: Vec<Shown>, pool: Option<Shown>) -> (out: Vec<Shown>)
    ensures
        pool is None ==> shown_views(out@) == shown_views(own@),
        pool matches Some(p) ==> shown_views(out@) == shown_views(own@).push(p@),
{
    let mut out = own;
    match pool {
        Some(p) => {
            let ghost o = out@;
            out.push(p);
            assert(shown_views(out@) =~= shown_views(o).push(p@));
        },
        None => {},
    }
    out
}

/// A path that a branch may write is shown with its comments, whatever else names
/// it; one it may only read is shown as [`leaned`] says. No path is shown twice.
pub proof fn law_a_path_is_shown_once_and_writable_wins(
    writable: Seq<Seq<char>>,
    readonly: Seq<Seq<char>>,
)
    ensures
        forall|i: int|
            0 <= i < wanted(writable, readonly).len() ==> {
                let w = #[trigger] wanted(writable, readonly)[i];
                w.1 <==> !writable.contains(w.0)
            },
        forall|i: int, j: int|
            0 <= i < j < wanted(writable, readonly).len() ==> wanted(writable, readonly)[i].0
                != wanted(writable, readonly)[j].0,
        forall|p: Seq<char>|
            #![trigger writable.contains(p)]
            #![trigger readonly.contains(p)]
            writable.contains(p) || readonly.contains(p) <==> exists|i: int|
                0 <= i < wanted(writable, readonly).len() && (#[trigger] wanted(
                    writable,
                    readonly,
                )[i]).0 == p,
    decreases writable.len() + readonly.len(),
{
    let all = wanted(writable, readonly);
    if readonly.len() > 0 {
        let r = readonly.drop_last();
        let p = readonly.last();
        law_a_path_is_shown_once_and_writable_wins(writable, r);
        let before = wanted(writable, r);
        assert forall|q: Seq<char>| readonly.contains(q) <==> r.contains(q) || q == p by {
            if readonly.contains(q) && q != p {
                let k = choose|k: int| 0 <= k < readonly.len() && readonly[k] == q;
                assert(r[k] == q);
            }
            if r.contains(q) {
                let k = choose|k: int| 0 <= k < r.len() && r[k] == q;
                assert(readonly[k] == q);
            }
            if q == p {
                assert(readonly[readonly.len() - 1] == q);
            }
        }
        assert(before.push((p, true)).drop_last() =~= before);
        lemma_named_extended(before, all, p, writable, r);
    } else if writable.len() > 0 {
        let w = writable.drop_last();
        let p = writable.last();
        law_a_path_is_shown_once_and_writable_wins(w, readonly);
        let before = wanted(w, readonly);
        assert forall|q: Seq<char>| writable.contains(q) <==> w.contains(q) || q == p by {
            if writable.contains(q) && q != p {
                let k = choose|k: int| 0 <= k < writable.len() && writable[k] == q;
                assert(w[k] == q);
            }
            if w.contains(q) {
                let k = choose|k: int| 0 <= k < w.len() && w[k] == q;
                assert(writable[k] == q);
            }
            if q == p {
                assert(writable[writable.len() - 1] == q);
            }
        }
        assert forall|i: int| 0 <= i < before.len() implies w.contains((#[trigger] before[i]).0) by {
            assert(w.contains(before[i].0) || readonly.contains(before[i].0));
        }
        assert(before.push((p, false)).drop_last() =~= before);
        lemma_named_extended(before, all, p, w, readonly);
    }
}

proof fn lemma_named_extended(
    before: Seq<(Seq<char>, bool)>,
    all: Seq<(Seq<char>, bool)>,
    p: Seq<char>,
    a: Seq<Seq<char>>,
    b: Seq<Seq<char>>,
)
    requires
        all == before || (all.len() == before.len() + 1 && all.drop_last() == before
            && all.last().0 == p),
        all == before ==> a.contains(p) || b.contains(p),
        all != before ==> !a.contains(p) && !b.contains(p),
        forall|q: Seq<char>|
            #![trigger a.contains(q)]
            #![trigger b.contains(q)]
            a.contains(q) || b.contains(q) <==> exists|i: int|
                0 <= i < before.len() && (#[trigger] before[i]).0 == q,
    ensures
        forall|q: Seq<char>|
            #![trigger a.contains(q)]
            #![trigger b.contains(q)]
            a.contains(q) || b.contains(q) || q == p <==> exists|i: int|
                0 <= i < all.len() && (#[trigger] all[i]).0 == q,
{
    assert forall|q: Seq<char>|
        #![trigger a.contains(q)]
        #![trigger b.contains(q)]
        a.contains(q) || b.contains(q) || q == p <==> exists|i: int|
            0 <= i < all.len() && (#[trigger] all[i]).0 == q by {
        if a.contains(q) || b.contains(q) {
            let i = choose|i: int| 0 <= i < before.len() && (#[trigger] before[i]).0 == q;
            assert(all[i].0 == q);
        } else if q == p {
            assert(all[all.len() - 1].0 == q);
        }
        if exists|i: int| 0 <= i < all.len() && (#[trigger] all[i]).0 == q {
            let i = choose|i: int| 0 <= i < all.len() && (#[trigger] all[i]).0 == q;
            if i < before.len() {
                assert(before[i].0 == q);
            }
        }
    }
}

/// The first line of a failure, or the whole of it, without white space at either
/// end.
pub open spec fn first_line_of(s: Seq<char>) -> Seq<char> {
    if lines_of(s).len() > 0 {
        trim_of(lines_of(s)[0])
    } else {
        trim_of(s)
    }
}

/// The first line of a multi-line failure, for a one-line report.
pub fn first_line(s: &str) -> (out: String)
    ensures
        out@ == first_line_of(s@),
{
    let all = lines(s);
    if all.len() > 0 {
        assert(strs(all@)[0] == all[0]@);
        trim(all[0].as_str())
    } else {
        trim(s)
    }
}

/// The failure names a file that the part writes, or the part itself.
pub open spec fn owns(failure: Seq<char>, p: PartSpec) -> bool {
    holds(failure, p.name@) || exists|i: int|
        0 <= i < p.writable@.len() && holds(failure, (#[trigger] p.writable@[i])@)
}

/// The names of the parts that a join failure is about; none where the join itself
/// owns it.
pub fn join_failure_owners(failure: &str, parts: &Vec<PartSpec>) -> (out: Vec<String>)
    ensures
        strs(out@) == parts@.filter(|p: PartSpec| owns(failure@, p)).map_values(
            |p: PartSpec| p.name@,
        ),
{
    let ghost pred = |p: PartSpec| owns(failure@, p);
    let ghost name = |p: PartSpec| p.name@;
    let mut out: Vec<String> = Vec::new();
    let mut i: usize = 0;
    assert(strs(out@) =~= parts@.take(0).filter(pred).map_values(name)) by {
        reveal(Seq::filter);
    }
    while i < parts.len()
        invariant
            i <= parts.len(),
            pred == (|p: PartSpec| owns(failure@, p)),
            name == (|p: PartSpec| p.name@),
            strs(out@) == parts@.take(i as int).filter(pred).map_values(name),
        decreases parts.len() - i,
    {
        let p = &parts[i];
        let mut named = contains(failure, p.name.as_str());
        let mut k: usize = 0;
        while k < p.writable.len()
            invariant
                k <= p.writable.len(),
                named <==> (holds(failure@, p.name@) || exists|m: int|
                    0 <= m < k && holds(failure@, (#[trigger] p.writable@[m])@)),
            decreases p.writable.len() - k,
        {
            if contains(failure, p.writable[k].as_str()) {
                assert(holds(failure@, p.writable@[k as int]@));
                named = true;
            }
            k = k + 1;
        }
        proof {
            assert(parts@.take(i + 1) =~= parts@.take(i as int).push(*p));
            parts@.take(i as int).lemma_filter_push(*p, pred);
        }
        if named {
            let ghost kept = parts@.take(i as int).filter(pred);
            let ghost o = out@;
            out.push(p.name.clone());
            assert(strs(out@) =~= strs(o).push(p.name@));
            assert(kept.push(*p).map_values(name) =~= kept.map_values(name).push(p.name@));
        }
        i = i + 1;
    }
    assert(parts@.take(i as int) =~= parts@);
    out
}

// -------------------------------------------------------------- the pool ----

/// A component that the pool already has.
#[derive(Debug, PartialEq, Eq)]
pub struct Capability {
    pub name: String,
    /// How many applications carry it.
    pub apps: u64,
    pub exports: Vec<String>,
    pub description: String,
}

/// One capability as a line of the pool's list.
pub open spec fn capability_line(c: Capability) -> Seq<char> {
    "- `"@ + c.name@ + "` (in "@ + dec_of(c.apps as nat) + " app(s)) exports "@ + join_of(
        strs(c.exports@),
        ", "@,
    ) + " — "@ + c.description@
}

fn capability_text(c: &Capability) -> (out: String)
    ensures
        out@ == capability_line(*c),
{
    let apps = dec(c.apps);
    let exports = join(&c.exports, ", ");
    "- `".to_string().concat(c.name.as_str()).concat("` (in ").concat(apps.as_str()).concat(
        " app(s)) exports ",
    ).concat(exports.as_str()).concat(" — ").concat(c.description.as_str())
}

/// The page that tells a branch what the pool already has.
pub open spec fn pool_page(reuse: Seq<Capability>) -> Seq<char> {
    "# Capabilities this repository already has\n\nSearched for this goal. Composing one of these is cheaper than writing it, and the"@
        + " gate reads what a candidate actually called.\n\n"@ + join_of(reuse.map_values(|c: Capability| capability_line(c)), "\n"@) + "\n"@
}

/// What the pool already has, as prose in every branch's context; nothing where the
/// search found nothing.
pub fn pool_context(reuse: &Vec<Capability>) -> (out: Option<Shown>)
    ensures
        out is None <==> reuse@.len() == 0,
        out matches Some(s) ==> s@ == (ShownView {
            path: "POOL.md"@,
            content: pool_page(reuse@),
        }),
{
    if reuse.len() == 0 {
        return None;
    }
    let ghost want = reuse@.map_values(|c: Capability| capability_line(c));
    let mut listed: Vec<String> = Vec::new();
    let mut i: usize = 0;
    assert(strs(listed@) =~= want.take(0));
    while i < reuse.len()
        invariant
            i <= reuse.len(),
            want == reuse@.map_values(|c: Capability| capability_line(c)),
            strs(listed@) == want.take(i as int),
        decreases reuse.len() - i,
    {
        let line = capability_text(&reuse[i]);
        let ghost o = listed@;
        listed.push(line);
        proof {
            assert(strs(listed@) =~= strs(o).push(line@));
            assert(want.take(i + 1) =~= want.take(i as int).push(line@));
        }
        i = i + 1;
    }
    assert(want.take(i as int) =~= want);
    let body = join(&listed, "\n");
    let content =
        "# Capabilities this repository already has\n\nSearched for this goal. Composing one of these is cheaper than writing it, and the".to_string().concat(
    " gate reads what a candidate actually called.\n\n").concat(body.as_str()).concat("\n");
    Some(Shown { path: "POOL.md".to_string(), content })
}

/// A file is shown exactly where it was wanted and could be read: a file that may be written
/// as it is, any other leaned.
pub proof fn law_what_is_shown(
    want: Seq<(Seq<char>, bool)>,
    read: Seq<Option<Seq<char>>>,
    s: ShownView,
)
    requires
        want.len() == read.len(),
    ensures
        shown_of(want, read).contains(s) <==> exists|i: int|
            0 <= i < want.len() && (#[trigger] want[i]).0 == s.path && read[i] is Some && s.content
                == (if want[i].1 {
                leaned(s.path, read[i]->0)
            } else {
                read[i]->0
            }),
    decreases want.len(),
{
    if want.len() > 0 {
        let (ws, rs) = (want.drop_last(), read.drop_last());
        law_what_is_shown(ws, rs, s);
        let (earlier, now) = (shown_of(ws, rs), shown_of(want, read));
        let n = want.len() - 1;
        assert(want[n] == want.last() && read[n] == read.last());
        assert forall|i: int| 0 <= i < ws.len() implies #[trigger] ws[i] == want[i] && rs[i]
            == read[i] by {}
        if earlier.contains(s) {
            let k = choose|k: int| 0 <= k < earlier.len() && earlier[k] == s;
            assert(now[k] == s);
            let i = choose|i: int|
                0 <= i < ws.len() && (#[trigger] ws[i]).0 == s.path && rs[i] is Some && s.content
                    == (if ws[i].1 {
                    leaned(s.path, rs[i]->0)
                } else {
                    rs[i]->0
                });
            assert(want[i].0 == s.path);
        }
        if now.contains(s) && !earlier.contains(s) {
            let k = choose|k: int| 0 <= k < now.len() && now[k] == s;
            if k < earlier.len() {
                assert(earlier[k] == s);
            }
            assert(want[n].0 == s.path);
        }
        if exists|i: int|
            0 <= i < want.len() && (#[trigger] want[i]).0 == s.path && read[i] is Some && s.content
                == (if want[i].1 {
                leaned(s.path, read[i]->0)
            } else {
                read[i]->0
            }) {
            let i = choose|i: int|
                0 <= i < want.len() && (#[trigger] want[i]).0 == s.path && read[i] is Some
                    && s.content == (if want[i].1 {
                    leaned(s.path, read[i]->0)
                } else {
                    read[i]->0
                });
            if i < n {
                assert(ws[i].0 == s.path);
            } else {
                assert(now[earlier.len() as int] == s);
            }
        }
    }
}

/// Only an interface definition is leaned, and it loses nothing but lines that are comments.
pub proof fn law_only_comments_are_leaned_away(path: Seq<char>, content: Seq<char>)
    ensures
        !".wit"@.is_suffix_of(path) ==> leaned(path, content) == content,
        ".wit"@.is_suffix_of(path) ==> leaned(path, content) == join_of(
            lines_of(content).filter(|l: Seq<char>| !"//"@.is_prefix_of(trim_start_of(l))),
            "\n"@,
        ),
{
    assert((|l: Seq<char>| is_code(l)) =~= (|l: Seq<char>| !"//"@.is_prefix_of(trim_start_of(l))));
}

/// A capability is told by its name, how many apps carry it, what it exports and what it says of
/// itself.
pub proof fn law_a_capability_is_told_whole(c: Capability)
    ensures
        holds(capability_line(c), "- `"@ + c.name@ + "` (in "@),
        holds(capability_line(c), "` (in "@ + dec_of(c.apps as nat) + " app(s)) exports "@),
        holds(capability_line(c), " app(s)) exports "@ + join_of(strs(c.exports@), ", "@) + " — "@),
        holds(capability_line(c), " — "@ + c.description@),
{
    let c0 = "- `"@;
    let c1 = c.name@;
    let c2 = "` (in "@;
    let c3 = dec_of(c.apps as nat);
    let c4 = " app(s)) exports "@;
    let c5 = join_of(strs(c.exports@), ", "@);
    let c6 = " — "@;
    let c7 = c.description@;
    let s0 = c0;
    let s1 = s0 + c1;
    let s2 = s1 + c2;
    let s3 = s2 + c3;
    let s4 = s3 + c4;
    let s5 = s4 + c5;
    let s6 = s5 + c6;
    let s7 = s6 + c7;
    lemma_holds_itself(s2);
    lemma_holds_longer(s2, s2, c3);
    lemma_holds_longer(s3, s2, c4);
    lemma_holds_longer(s4, s2, c5);
    lemma_holds_longer(s5, s2, c6);
    lemma_holds_longer(s6, s2, c7);
    lemma_assoc(s1, c2, c3);
    lemma_assoc(s1, c2 + c3, c4);
    lemma_holds_end(s1, c2 + c3 + c4);
    lemma_holds_longer(s4, c2 + c3 + c4, c5);
    lemma_holds_longer(s5, c2 + c3 + c4, c6);
    lemma_holds_longer(s6, c2 + c3 + c4, c7);
    lemma_assoc(s3, c4, c5);
    lemma_assoc(s3, c4 + c5, c6);
    lemma_holds_end(s3, c4 + c5 + c6);
    lemma_holds_longer(s6, c4 + c5 + c6, c7);
    lemma_assoc(s5, c6, c7);
    lemma_holds_end(s5, c6 + c7);
}

/// A failure's first line is the first line of its text, without the space around it.
pub proof fn law_the_first_line_of_a_failure(s: Seq<char>)
    ensures
        lines_of(s).len() > 0 ==> first_line_of(s) == trim_of(lines_of(s)[0]),
        lines_of(s).len() == 0 ==> first_line_of(s) == trim_of(s),
{
}

/// A shown file is seen by its path and its content, a list of them one by one.
pub proof fn law_a_shown_file_is_seen_whole(ss: Seq<Shown>, i: int)
    requires
        0 <= i < ss.len(),
    ensures
        shown_views(ss).len() == ss.len(),
        shown_views(ss)[i].path == ss[i].path@,
        shown_views(ss)[i].content == ss[i].content@,
{
}

} // verus!
