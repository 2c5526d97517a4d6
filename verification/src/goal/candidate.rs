//! The base tree that a candidate is judged against, what a candidate wrote, and
//! whether its checks can judge at all.

use vstd::prelude::*;
use vstd::string::*;

use crate::goal::context::{Shown, ShownView, first_line, first_line_of, opt_texts, shown_views};
use crate::goal::spec::{CheckSpec, GoalSpec, checks_from};
use crate::json::{Json, Tree, trees};
use crate::order::{increasing, sorted_set};
use crate::text::{after_prefix, before_char, before_char_of, contains, ends_with, holds, is_among, lines, lines_of, starts_with, strip_prefix, strs};

verus! {

// ----------------------------------------------------------- the base tree --

/// The path is under one of the prefixes, or there are none.
pub open spec fn in_scope(path: Seq<char>, base_paths: Seq<Seq<char>>) -> bool {
    base_paths.len() == 0 || exists|i: int|
        0 <= i < base_paths.len() && (#[trigger] base_paths[i]).is_prefix_of(path)
}

/// Is a listed file part of the base tree?
pub fn ships(path: &str, base_paths: &Vec<String>) -> (r: bool)
    ensures
        r == in_scope(path@, strs(base_paths@)),
{
    if base_paths.len() == 0 {
        return true;
    }
    let ghost bs = strs(base_paths@);
    let mut i: usize = 0;
    while i < base_paths.len()
        invariant
            i <= base_paths.len(),
            bs == strs(base_paths@),
            forall|k: int| 0 <= k < i ==> !(#[trigger] bs[k]).is_prefix_of(path@),
        decreases base_paths.len() - i,
    {
        if starts_with(path, base_paths[i].as_str()) {
            assert(bs[i as int].is_prefix_of(path@));
            return true;
        }
        i = i + 1;
    }
    false
}

/// The listed files that are part of the base tree, in the order in which they are
/// listed.
pub open spec fn shipped_paths(listing: Seq<char>, base_paths: Seq<Seq<char>>) -> Seq<Seq<char>> {
    lines_of(listing).filter(|p: Seq<char>| in_scope(p, base_paths))
}

/// The listed files that are part of the base tree.
pub fn shipped_list(listing: &str, base_paths: &Vec<String>) -> (out: Vec<String>)
    ensures
        strs(out@) == shipped_paths(listing@, strs(base_paths@)),
{
    let ls = lines(listing);
    let ghost all = strs(ls@);
    let ghost bs = strs(base_paths@);
    let ghost keep = |p: Seq<char>| in_scope(p, bs);
    let mut out: Vec<String> = Vec::new();
    let mut i: usize = 0;
    assert(strs(out@) =~= all.take(0).filter(keep)) by {
        reveal(Seq::filter);
    }
    while i < ls.len()
        invariant
            i <= ls.len(),
            all == strs(ls@),
            bs == strs(base_paths@),
            keep == (|p: Seq<char>| in_scope(p, bs)),
            strs(out@) == all.take(i as int).filter(keep),
        decreases ls.len() - i,
    {
        proof {
            assert(all.take(i + 1).drop_last() =~= all.take(i as int));
            assert(all.take(i + 1).last() == ls@[i as int]@);
            reveal(Seq::filter);
        }
        if ships(ls[i].as_str(), base_paths) {
            let ghost o = out@;
            out.push(ls[i].clone());
            assert(strs(out@) =~= strs(o).push(ls@[i as int]@));
        }
        i = i + 1;
    }
    assert(all.take(i as int) =~= all);
    out
}

/// Why a base tree cannot be shipped.
#[derive(Debug, Clone, Copy, PartialEq, Eq, Structural)]
pub enum TreeRefusal {
    /// No listed file is under the goal's paths.
    Nothing,
    /// It is larger than a run can ship.
    TooLarge,
}

/// The files that could be read as text; a stray binary is no input of a check.
pub open spec fn readable(paths: Seq<Seq<char>>, read: Seq<Option<Seq<char>>>) -> Seq<ShownView>
    decreases paths.len(),
{
    if paths.len() == 0 || read.len() == 0 {
        Seq::empty()
    } else {
        let earlier = readable(paths.drop_last(), read.drop_last());
        match read.last() {
            Some(c) => earlier.push(ShownView { path: paths.last(), content: c }),
            None => earlier,
        }
    }
}

/// The bytes of some files.
pub open spec fn size_of(files: Seq<ShownView>) -> nat
    decreases files.len(),
{
    if files.len() == 0 {
        0
    } else {
        size_of(files.drop_last()) + vstd::utf8::encode_utf8(files.last().content).len()
    }
}

/// The base tree, from what was read at each of its paths; or why it cannot be shipped.
pub fn base_tree(paths: &Vec<String>, read: Vec<Option<String>>, ceiling: usize) -> (r: Result<
    Vec<Shown>,
    TreeRefusal,
>)
    requires
        paths@.len() == read@.len(),
    ensures
        ({
            let files = readable(strs(paths@), opt_texts(read@));
            match r {
                Ok(t) => shown_views(t@) == files && files.len() > 0 && size_of(files) <= ceiling,
                Err(TreeRefusal::Nothing) => files.len() == 0,
                Err(TreeRefusal::TooLarge) => files.len() > 0 && size_of(files) > ceiling,
            }
        }),
{
    let ghost ps = strs(paths@);
    let ghost rs = opt_texts(read@);
    let mut out: Vec<Shown> = Vec::new();
    let mut bytes: u128 = 0;
    let mut i: usize = 0;
    assert(shown_views(out@) =~= readable(ps.take(0), rs.take(0)));
    while i < paths.len()
        invariant
            i <= paths.len(),
            paths@.len() == read@.len(),
            ps == strs(paths@),
            rs == opt_texts(read@),
            shown_views(out@) == readable(ps.take(i as int), rs.take(i as int)),
            bytes == size_of(shown_views(out@)),
            bytes <= i * 0xffff_ffff_ffff_ffff,
        decreases paths.len() - i,
    {
        proof {
            assert(ps.take(i + 1).drop_last() =~= ps.take(i as int));
            assert(rs.take(i + 1).drop_last() =~= rs.take(i as int));
            assert(ps.take(i + 1).last() == paths@[i as int]@);
            assert(rs.take(i + 1).last() == crate::goal::spec::opt_text(read@[i as int]));
        }
        match &read[i] {
            Some(c) => {
                bytes = bytes + c.as_str().as_bytes().len() as u128;
                let s = Shown { path: paths[i].clone(), content: c.clone() };
                let ghost o = out@;
                out.push(s);
                assert(shown_views(out@) =~= shown_views(o).push(s@));
                assert(shown_views(out@).drop_last() =~= shown_views(o));
            },
            None => {},
        }
        i = i + 1;
    }
    assert(ps.take(i as int) =~= ps);
    assert(rs.take(i as int) =~= rs);
    if out.len() == 0 {
        return Err(TreeRefusal::Nothing);
    }
    if bytes > ceiling as u128 {
        return Err(TreeRefusal::TooLarge);
    }
    Ok(out)
}

// ------------------------------------------------------------ capabilities --

/// The component that a path is in: `components/<name>/…` and nothing else.
pub open spec fn component_in(path: Seq<char>) -> Option<Seq<char>> {
    match after_prefix(path, "components/"@) {
        Some(rest) => if before_char_of(rest, '/').len() > 0 {
            Some(before_char_of(rest, '/'))
        } else {
            None
        },
        None => None,
    }
}

/// The text under `key` of each item of a list, where it has one.
pub open spec fn fields_of(files: Tree, key: Seq<char>) -> Seq<Option<Seq<char>>> {
    match files {
        Tree::List(v) => v.map_values(|f: Tree| f.text_field(key)),
        _ => Seq::empty(),
    }
}

/// The paths of the files name the component.
pub open spec fn builds(files: Tree, name: Seq<char>) -> bool {
    exists|i: int|
        0 <= i < fields_of(files, "path"@).len() && (#[trigger] fields_of(files, "path"@)[i])
            is Some && component_in(fields_of(files, "path"@)[i]->0) == Some(name)
}

/// The components that a run created: each that a written path is in, once and in
/// order. Derived from the paths, not from what the candidate says of itself.
pub fn new_capabilities(files: &Json) -> (out: Vec<(String, String)>)
    ensures
        increasing(out@.map_values(|c: (String, String)| c.0@)),
        forall|n: Seq<char>|
            out@.map_values(|c: (String, String)| c.0@).contains(n) <==> #[trigger] builds(
                files@,
                n,
            ),
        forall|i: int|
            0 <= i < out.len() ==> (#[trigger] out[i]).1@ == "components/"@ + out[i].0@,
{
    let mut names: Vec<String> = Vec::new();
    let ghost fs = fields_of(files@, "path"@);
    match files.list() {
        Some(items) => {
            let mut i: usize = 0;
            assert(fs.len() == items.len());
            while i < items.len()
                invariant
                    i <= items.len(),
                    fs.len() == items.len(),
                    files@ is List,
                    fs == fields_of(files@, "path"@),
                    files@.list() is Some,
                    files@.list()->0.len() == items.len(),
                    forall|k: int| 0 <= k < items.len() ==> files@.list()->0[k] == (#[trigger] items[k])@,
                    forall|n: Seq<char>|
                        #![trigger strs(names@).contains(n)]
                        strs(names@).contains(n) <==> exists|k: int|
                            0 <= k < i && (#[trigger] fs[k]) is Some && component_in(fs[k]->0)
                                == Some(n),
                decreases items.len() - i,
            {
                let ghost o = names@;
                let ghost mut added: Option<Seq<char>> = None;
                assert(fs[i as int] == items[i as int]@.text_field("path"@));
                match items[i].text_field("path") {
                    Some(p) => {
                        match strip_prefix(p.as_str(), "components/") {
                            Some(rest) => {
                                let name = before_char(rest.as_str(), '/');
                                if !name.as_str().is_empty() {
                                    proof {
                                        added = Some(name@);
                                    }
                                    names.push(name);
                                    assert(strs(names@) =~= strs(o).push(name@));
                                }
                            },
                            None => {},
                        }
                    },
                    None => {},
                }
                proof {
                    let here = if fs[i as int] is Some {
                        component_in(fs[i as int]->0)
                    } else {
                        None
                    };
                    assert(here == added);
                    assert forall|n: Seq<char>|
                        #![trigger strs(names@).contains(n)]
                        strs(names@).contains(n) <==> exists|k: int|
                            0 <= k < i + 1 && (#[trigger] fs[k]) is Some && component_in(
                                fs[k]->0,
                            ) == Some(n) by {
                        if added is Some {
                            vstd::seq_lib::lemma_seq_contains_after_push(strs(o), added->0, n);
                        }
                        if strs(o).contains(n) {
                            let k = choose|k: int|
                                0 <= k < i && (#[trigger] fs[k]) is Some && component_in(fs[k]->0)
                                    == Some(n);
                            assert(fs[k] is Some);
                        }
                        if added == Some(n) {
                            assert(fs[i as int] is Some);
                        }
                        if exists|k: int|
                            0 <= k < i + 1 && (#[trigger] fs[k]) is Some && component_in(fs[k]->0)
                                == Some(n) {
                            let k = choose|k: int|
                                0 <= k < i + 1 && (#[trigger] fs[k]) is Some && component_in(
                                    fs[k]->0,
                                ) == Some(n);
                            if k < i {
                                assert(strs(o).contains(n));
                            }
                        }
                    }
                }
                i = i + 1;
            }
        },
        None => {
            assert(fs.len() == 0) by {
                assert(files@.list() is None);
            }
            assert(strs(names@) =~= Seq::<Seq<char>>::empty());
        },
    }
    assert forall|n: Seq<char>| strs(names@).contains(n) <==> #[trigger] builds(files@, n) by {}
    let each = sorted_set(&names);
    let mut out: Vec<(String, String)> = Vec::new();
    let mut j: usize = 0;
    while j < each.len()
        invariant
            j <= each.len(),
            out.len() == j,
            forall|k: int| 0 <= k < j ==> (#[trigger] out[k]).0@ == each[k]@,
            forall|k: int| 0 <= k < j ==> (#[trigger] out[k]).1@ == "components/"@ + out[k].0@,
        decreases each.len() - j,
    {
        let dir = "components/".to_string().concat(each[j].as_str());
        out.push((each[j].clone(), dir));
        j = j + 1;
    }
    assert(out@.map_values(|c: (String, String)| c.0@) =~= strs(each@));
    out
}

// ------------------------------------------------------- what is written out --

/// A path that stays inside the directory it is written under.
pub open spec fn stays_inside(path: Seq<char>) -> bool {
    !holds(path, ".."@) && !"/"@.is_prefix_of(path)
}

/// May a candidate's file be written out?
pub fn may_write_out(path: &str) -> (r: bool)
    ensures
        r == stays_inside(path@),
{
    !contains(path, "..") && !starts_with(path, "/")
}

/// A file of a candidate, where it names both its path and its content and stays inside.
pub open spec fn written_file(f: Tree) -> Option<ShownView> {
    match (f.text_field("path"@), f.text_field("content"@)) {
        (Some(path), Some(content)) => if stays_inside(path) {
            Some(ShownView { path, content })
        } else {
            None
        },
        _ => None,
    }
}

/// The files of a candidate that are written out, in order.
pub open spec fn written_files(files: Seq<Tree>) -> Seq<ShownView>
    decreases files.len(),
{
    if files.len() == 0 {
        Seq::empty()
    } else {
        match written_file(files.last()) {
            Some(f) => written_files(files.drop_last()).push(f),
            None => written_files(files.drop_last()),
        }
    }
}

/// The files of a candidate that are written out: one whose path would lead out of the
/// directory is left out.
pub fn write_candidate(files: &Json) -> (out: Vec<Shown>)
    ensures
        shown_views(out@) == (match files@.list() {
            Some(l) => written_files(l),
            None => Seq::empty(),
        }),
{
    let mut out: Vec<Shown> = Vec::new();
    match files.list() {
        None => {
            assert(shown_views(out@) =~= Seq::empty());
        },
        Some(l) => {
            let ghost ts = trees(l@);
            let mut i: usize = 0;
            assert(ts.take(0) =~= Seq::empty());
            assert(shown_views(out@) =~= written_files(ts.take(0)));
            while i < l.len()
                invariant
                    i <= l.len(),
                    ts == trees(l@),
                    shown_views(out@) == written_files(ts.take(i as int)),
                decreases l.len() - i,
            {
                assert(ts.take(i + 1).drop_last() =~= ts.take(i as int));
                assert(ts.take(i + 1).last() == l@[i as int]@);
                match (l[i].text_field("path"), l[i].text_field("content")) {
                    (Some(path), Some(content)) => {
                        if may_write_out(path.as_str()) {
                            let s = Shown { path: path.clone(), content: content.clone() };
                            let ghost o = out@;
                            out.push(s);
                            assert(shown_views(out@) =~= shown_views(o).push(s@));
                        }
                    },
                    _ => {},
                }
                i = i + 1;
            }
            assert(ts.take(i as int) =~= ts);
        },
    }
    out
}

/// Nothing that is written out leads out of the directory.
pub proof fn law_what_is_written_stays_inside(files: Seq<Tree>, i: int)
    requires
        0 <= i < written_files(files).len(),
    ensures
        stays_inside(written_files(files)[i].path),
    decreases files.len(),
{
    if files.len() > 0 {
        let earlier = written_files(files.drop_last());
        if i < earlier.len() {
            law_what_is_written_stays_inside(files.drop_last(), i);
        }
    }
}

// ------------------------------------------------------- checks that can run --

/// An argument that can only be a script of the repository.
pub open spec fn repo_script(arg: Seq<char>) -> bool {
    &&& !"-"@.is_prefix_of(arg)
    &&& holds(arg, "/"@)
    &&& !holds(arg, "://"@)
    &&& ".sh"@.is_suffix_of(arg) || ".py"@.is_suffix_of(arg) || ".mjs"@.is_suffix_of(arg)
        || ".js"@.is_suffix_of(arg)
}

/// Is the argument a script of the repository?
pub fn is_repo_script(arg: &str) -> (r: bool)
    ensures
        r == repo_script(arg@),
{
    !starts_with(arg, "-") && contains(arg, "/") && !contains(arg, "://") && (ends_with(arg, ".sh")
        || ends_with(arg, ".py") || ends_with(arg, ".mjs") || ends_with(arg, ".js"))
}

/// What is said of a check whose script was not shipped.
pub open spec fn missing_line(id: Seq<char>, arg: Seq<char>, on_disk: bool) -> Seq<char> {
    "`"@ + id + "` runs `"@ + arg + "`, which is not in the tree: "@ + if on_disk {
        "it exists in the checkout but was not shipped — an UNTRACKED file is not in the base tree, and `base_paths` only ships tracked files. `git add` it"@
    } else {
        "no such file in the checkout either — check the path"@
    }
}

/// What is said of the first `n` arguments of a check.
pub open spec fn missing_args(
    c: CheckSpec,
    shipped: Seq<Seq<char>>,
    on_disk: Seq<Seq<char>>,
    n: int,
) -> Seq<Seq<char>>
    decreases n,
{
    if n <= 0 {
        Seq::empty()
    } else {
        let before = missing_args(c, shipped, on_disk, n - 1);
        let arg = c.command@[n - 1]@;
        if repo_script(arg) && !shipped.contains(arg) {
            before.push(missing_line(c.id@, arg, on_disk.contains(arg)))
        } else {
            before
        }
    }
}

/// What is said of the checks, in order.
pub open spec fn missing_of(
    cs: Seq<CheckSpec>,
    shipped: Seq<Seq<char>>,
    on_disk: Seq<Seq<char>>,
) -> Seq<Seq<char>>
    decreases cs.len(),
{
    if cs.len() == 0 {
        Seq::empty()
    } else {
        missing_of(cs.drop_last(), shipped, on_disk) + missing_args(
            cs.last(),
            shipped,
            on_disk,
            cs.last().command@.len() as int,
        )
    }
}

fn push_missing(out: &mut Vec<String>, cs: &Vec<CheckSpec>, shipped: &Vec<String>, on_disk: &Vec<String>)
    ensures
        strs(final(out)@) == strs(old(out)@) + missing_of(cs@, strs(shipped@), strs(on_disk@)),
{
    let ghost sh = strs(shipped@);
    let ghost di = strs(on_disk@);
    let ghost start = strs(out@);
    let mut i: usize = 0;
    assert(strs(out@) =~= start + missing_of(cs@.take(0), sh, di));
    while i < cs.len()
        invariant
            i <= cs.len(),
            sh == strs(shipped@),
            di == strs(on_disk@),
            strs(out@) == start + missing_of(cs@.take(i as int), sh, di),
        decreases cs.len() - i,
    {
        let c = &cs[i];
        let ghost before = strs(out@);
        let mut k: usize = 0;
        assert(strs(out@) =~= before + missing_args(*c, sh, di, 0));
        while k < c.command.len()
            invariant
                k <= c.command.len(),
                sh == strs(shipped@),
                di == strs(on_disk@),
                strs(out@) == before + missing_args(*c, sh, di, k as int),
            decreases c.command.len() - k,
        {
            let arg = c.command[k].as_str();
            if is_repo_script(arg) && !is_among(shipped, arg) {
                let head = "`".to_string().concat(c.id.as_str()).concat("` runs `").concat(
                    arg,
                ).concat("`, which is not in the tree: ");
                let line = if is_among(on_disk, arg) {
                    head.concat(
                        "it exists in the checkout but was not shipped — an UNTRACKED file is not in the base tree, and `base_paths` only ships tracked files. `git add` it",
                    )
                } else {
                    head.concat("no such file in the checkout either — check the path")
                };
                let ghost o = out@;
                out.push(line);
                proof {
                    assert(strs(out@) =~= strs(o).push(line@));
                    assert(strs(out@) =~= before + missing_args(*c, sh, di, k + 1));
                }
            }
            k = k + 1;
        }
        proof {
            assert(cs@.take(i + 1).drop_last() =~= cs@.take(i as int));
            assert(strs(out@) =~= start + missing_of(cs@.take(i + 1), sh, di));
        }
        i = i + 1;
    }
    assert(cs@.take(i as int) =~= cs@);
}

proof fn lemma_missing_split(
    a: Seq<CheckSpec>,
    b: Seq<CheckSpec>,
    shipped: Seq<Seq<char>>,
    on_disk: Seq<Seq<char>>,
)
    ensures
        missing_of(a + b, shipped, on_disk) == missing_of(a, shipped, on_disk) + missing_of(
            b,
            shipped,
            on_disk,
        ),
    decreases b.len(),
{
    if b.len() == 0 {
        assert(a + b =~= a);
        assert(missing_of(a, shipped, on_disk) + missing_of(b, shipped, on_disk) =~= missing_of(
            a,
            shipped,
            on_disk,
        ));
    } else {
        lemma_missing_split(a, b.drop_last(), shipped, on_disk);
        assert((a + b).drop_last() =~= a + b.drop_last());
        assert(missing_of(a + b, shipped, on_disk) =~= missing_of(a, shipped, on_disk)
            + missing_of(b, shipped, on_disk));
    }
}

/// The checks whose script is not in the shipped tree, each with what to do about
/// it: a missing script and work not done are one exit code, so this is asked before
/// anything is spent. `on_disk` lists what exists in the checkout.
pub fn gates_missing_from_the_tree(
    goal: &GoalSpec,
    shipped: &Vec<String>,
    on_disk: &Vec<String>,
) -> (out: Vec<String>)
    ensures
        strs(out@) == missing_of(goal.every_check(), strs(shipped@), strs(on_disk@)),
{
    let mut out: Vec<String> = Vec::new();
    assert(strs(out@) =~= Seq::<Seq<char>>::empty());
    push_missing(&mut out, &goal.checks, shipped, on_disk);
    let mut i: usize = 0;
    assert(strs(out@) =~= missing_of(
        checks_from(goal.checks@, goal.parts@.take(0)),
        strs(shipped@),
        strs(on_disk@),
    ));
    while i < goal.parts.len()
        invariant
            i <= goal.parts.len(),
            strs(out@) == missing_of(
                checks_from(goal.checks@, goal.parts@.take(i as int)),
                strs(shipped@),
                strs(on_disk@),
            ),
        decreases goal.parts.len() - i,
    {
        push_missing(&mut out, &goal.parts[i].checks, shipped, on_disk);
        proof {
            assert(goal.parts@.take(i + 1).drop_last() =~= goal.parts@.take(i as int));
            lemma_missing_split(
                checks_from(goal.checks@, goal.parts@.take(i as int)),
                goal.parts@[i as int].checks@,
                strs(shipped@),
                strs(on_disk@),
            );
        }
        i = i + 1;
    }
    assert(goal.parts@.take(i as int) =~= goal.parts@);
    out
}

/// Why checks cannot judge.
#[derive(Debug, Clone, Copy, PartialEq, Eq, Structural)]
pub enum Judgement {
    /// A script is not in the tree.
    ScriptMissing,
    /// Some check passes on the code as it stands and is not meant to.
    Vacuous,
    /// Every check fails on the base, so every check can judge.
    CanJudge,
    /// The checks could not be tried on the base: a guard that cannot run stops
    /// nothing.
    NotTried,
}

/// Can the checks judge anything? `refusals` counts the checks that pass on the base
/// without being excused; nothing where they could not be tried.
pub fn gate_can_judge(missing: usize, refusals: Option<usize>) -> (j: Judgement)
    ensures
        missing > 0 ==> j == Judgement::ScriptMissing,
        missing == 0 && refusals is None ==> j == Judgement::NotTried,
        missing == 0 && refusals is Some ==> j == if refusals->0 > 0 {
            Judgement::Vacuous
        } else {
            Judgement::CanJudge
        },
{
    if missing > 0 {
        return Judgement::ScriptMissing;
    }
    match refusals {
        None => Judgement::NotTried,
        Some(n) => {
            if n > 0 {
                Judgement::Vacuous
            } else {
                Judgement::CanJudge
            }
        },
    }
}

/// What trying the checks on the base tree showed: which of them pass and are meant to, and
/// why others that pass cannot judge.
#[derive(Debug, PartialEq, Eq)]
pub struct Criticism {
    pub excused: Vec<String>,
    pub refusals: Vec<String>,
}

/// Points of a list, a line each.
pub open spec fn points_of(items: Seq<Seq<char>>) -> Seq<Seq<char>> {
    items.map_values(|t: Seq<char>| "  · "@ + t)
}

/// What is said of checks that are meant to pass on the base.
pub open spec fn excuses_of(ids: Seq<Seq<char>>) -> Seq<Seq<char>> {
    ids.map_values(|id: Seq<char>| "gate: `"@ + id + "` passes on the base, and says it is meant to"@)
}

/// What is said before anything is spent, of the scripts that are missing and of what
/// trying the checks showed; with the reason where they could not be tried.
pub open spec fn judged_of(
    missing: Seq<Seq<char>>,
    tried: Result<(Seq<Seq<char>>, Seq<Seq<char>>), Seq<char>>,
) -> Seq<Seq<char>> {
    if missing.len() > 0 {
        seq!["\nREFUSED — a gate that cannot run cannot judge:\n"@] + points_of(missing) + seq![
            "\nNothing was spent. Every branch would have scored zero for this reason."@,
        ]
    } else {
        match tried {
            Err(e) => seq!["gate: could not be criticised ("@ + e + ") — running anyway"@],
            Ok((excused, refusals)) => excuses_of(excused) + (if refusals.len() > 0 {
                seq!["\nREFUSED — this gate cannot judge anything:\n"@] + points_of(refusals) + seq![
                    "\nNothing was spent. A gate that passes on the code as it stands \naccepts a candidate that changes nothing."@,
                ]
            } else {
                seq!["gate: every check fails on the base tree, so every check can judge"@]
            }),
        }
    }
}

/// A criticism as plain values.
pub open spec fn tried_view(tried: Result<Criticism, String>) -> Result<
    (Seq<Seq<char>>, Seq<Seq<char>>),
    Seq<char>,
> {
    match tried {
        Ok(c) => Ok((strs(c.excused@), strs(c.refusals@))),
        Err(e) => Err(e@),
    }
}

fn put_points(out: &mut Vec<String>, items: &Vec<String>)
    ensures
        strs(final(out)@) == strs(old(out)@) + points_of(strs(items@)),
{
    let ghost first = strs(out@);
    let ghost want = points_of(strs(items@));
    let mut i: usize = 0;
    assert(strs(out@) =~= first + want.take(0));
    while i < items.len()
        invariant
            i <= items.len(),
            want == points_of(strs(items@)),
            strs(out@) == first + want.take(i as int),
        decreases items.len() - i,
    {
        let ghost o = strs(out@);
        let l = "  · ".to_string().concat(items[i].as_str());
        out.push(l);
        assert(want[i as int] == l@);
        assert(strs(out@) =~= o.push(l@));
        assert(strs(out@) =~= first + want.take(i + 1));
        i = i + 1;
    }
    assert(want.take(i as int) =~= want);
}

fn excuses(ids: &Vec<String>) -> (out: Vec<String>)
    ensures
        strs(out@) == excuses_of(strs(ids@)),
{
    let ghost want = excuses_of(strs(ids@));
    let mut out: Vec<String> = Vec::new();
    let mut i: usize = 0;
    assert(strs(out@) =~= want.take(0));
    while i < ids.len()
        invariant
            i <= ids.len(),
            want == excuses_of(strs(ids@)),
            strs(out@) == want.take(i as int),
        decreases ids.len() - i,
    {
        let ghost o = strs(out@);
        let l = "gate: `".to_string().concat(ids[i].as_str()).concat(
            "` passes on the base, and says it is meant to",
        );
        out.push(l);
        assert(want[i as int] == l@);
        assert(strs(out@) =~= o.push(l@));
        assert(want.take(i + 1) =~= want.take(i as int).push(l@));
        i = i + 1;
    }
    assert(want.take(i as int) =~= want);
    out
}

fn put_line(out: &mut Vec<String>, line: &str)
    ensures
        strs(final(out)@) == strs(old(out)@) + seq![line@],
{
    let ghost o = strs(out@);
    out.push(line.to_string());
    assert(strs(out@) =~= o + seq![line@]);
}

/// What is said before anything is spent, and whether the checks can judge. Checks that
/// could not be tried stop nothing.
pub fn judged(missing: &Vec<String>, tried: &Result<Criticism, String>) -> (r: (Vec<String>, Judgement))
    ensures
        strs(r.0@) == judged_of(strs(missing@), tried_view(*tried)),
        r.1 == if missing@.len() > 0 {
            Judgement::ScriptMissing
        } else {
            match *tried {
                Err(_) => Judgement::NotTried,
                Ok(c) => if c.refusals@.len() > 0 {
                    Judgement::Vacuous
                } else {
                    Judgement::CanJudge
                },
            }
        },
{
    let mut out: Vec<String> = Vec::new();
    if missing.len() > 0 {
        put_line(&mut out, "\nREFUSED — a gate that cannot run cannot judge:\n");
        put_points(&mut out, missing);
        put_line(
            &mut out,
            "\nNothing was spent. Every branch would have scored zero for this reason.",
        );
        assert(strs(out@) =~= judged_of(strs(missing@), tried_view(*tried)));
        return (out, gate_can_judge(missing.len(), None));
    }
    match tried {
        Err(e) => {
            let l = "gate: could not be criticised (".to_string().concat(e.as_str()).concat(
                ") — running anyway",
            );
            out.push(l);
            assert(strs(out@) =~= seq![l@]);
            (out, gate_can_judge(0, None))
        },
        Ok(c) => {
            let mut out = excuses(&c.excused);
            let ghost first = strs(out@);
            if c.refusals.len() > 0 {
                put_line(&mut out, "\nREFUSED — this gate cannot judge anything:\n");
                put_points(&mut out, &c.refusals);
                put_line(
                    &mut out,
                    "\nNothing was spent. A gate that passes on the code as it stands \naccepts a candidate that changes nothing.",
                );
            } else {
                put_line(
                    &mut out,
                    "gate: every check fails on the base tree, so every check can judge",
                );
            }
            assert(strs(out@) =~= judged_of(strs(missing@), tried_view(*tried)));
            (out, gate_can_judge(0, Some(c.refusals.len())))
        },
    }
}

/// Why a check fails on the base, in at most a hundred and sixty bytes.
pub fn reason_line(reason: &str) -> (out: String)
    requires
        vstd::utf8::encode_utf8(first_line_of(reason@)).len() <= 160
            || vstd::utf8::is_char_boundary(
            vstd::utf8::encode_utf8(first_line_of(reason@)),
            160,
        ),
    ensures
        ({
            let b = vstd::utf8::encode_utf8(first_line_of(reason@));
            exists|t: Seq<char>|
                out@ == "  · "@ + t && #[trigger] vstd::utf8::encode_utf8(t) == (if b.len()
                    <= 160 {
                    b
                } else {
                    b.take(160)
                })
        }),
{
    let line = first_line(reason);
    if line.as_str().as_bytes().len() <= 160 {
        let ghost t = line@;
        assert(vstd::utf8::encode_utf8(t) == vstd::utf8::encode_utf8(first_line_of(reason@)));
        "  · ".to_string().concat(line.as_str())
    } else {
        let parts = line.as_str().split_at(160);
        let ghost t = parts.0@;
        assert(vstd::utf8::encode_utf8(t) == vstd::utf8::encode_utf8(first_line_of(reason@)).take(160));
        "  · ".to_string().concat(parts.0)
    }
}

/// Does the run go on?
pub fn goes_on(j: Judgement) -> (r: bool)
    ensures
        r <==> j == Judgement::CanJudge || j == Judgement::NotTried,
{
    match j {
        Judgement::CanJudge => true,
        Judgement::NotTried => true,
        _ => false,
    }
}

/// The ids of the checks that are meant to pass on the base, in order.
pub open spec fn excused_of(cs: Seq<CheckSpec>) -> Seq<Seq<char>>
    decreases cs.len(),
{
    if cs.len() == 0 {
        Seq::empty()
    } else {
        let before = excused_of(cs.drop_last());
        if cs.last().may_pass_base {
            before.push(cs.last().id@)
        } else {
            before
        }
    }
}

proof fn lemma_excused_split(a: Seq<CheckSpec>, b: Seq<CheckSpec>)
    ensures
        excused_of(a + b) == excused_of(a) + excused_of(b),
    decreases b.len(),
{
    if b.len() == 0 {
        assert(a + b =~= a);
        assert(excused_of(a) + excused_of(b) =~= excused_of(a));
    } else {
        lemma_excused_split(a, b.drop_last());
        assert((a + b).drop_last() =~= a + b.drop_last());
        assert(excused_of(a + b) =~= excused_of(a) + excused_of(b));
    }
}

fn push_excused(out: &mut Vec<String>, cs: &Vec<CheckSpec>)
    ensures
        strs(final(out)@) == strs(old(out)@) + excused_of(cs@),
{
    let ghost start = strs(out@);
    let mut i: usize = 0;
    assert(strs(out@) =~= start + excused_of(cs@.take(0)));
    while i < cs.len()
        invariant
            i <= cs.len(),
            strs(out@) == start + excused_of(cs@.take(i as int)),
        decreases cs.len() - i,
    {
        assert(cs@.take(i + 1).drop_last() =~= cs@.take(i as int));
        if cs[i].may_pass_base {
            let ghost o = out@;
            out.push(cs[i].id.clone());
            assert(strs(out@) =~= strs(o).push(cs[i as int].id@));
            assert(strs(out@) =~= start + excused_of(cs@.take(i + 1)));
        }
        i = i + 1;
    }
    assert(cs@.take(i as int) =~= cs@);
}

/// The ids of the checks that are meant to pass on the base: the goal's, then each
/// part's.
pub fn excused(goal: &GoalSpec) -> (out: Vec<String>)
    ensures
        strs(out@) == excused_of(goal.every_check()),
{
    let mut out: Vec<String> = Vec::new();
    assert(strs(out@) =~= Seq::<Seq<char>>::empty());
    push_excused(&mut out, &goal.checks);
    let mut i: usize = 0;
    assert(strs(out@) =~= excused_of(checks_from(goal.checks@, goal.parts@.take(0))));
    while i < goal.parts.len()
        invariant
            i <= goal.parts.len(),
            strs(out@) == excused_of(checks_from(goal.checks@, goal.parts@.take(i as int))),
        decreases goal.parts.len() - i,
    {
        push_excused(&mut out, &goal.parts[i].checks);
        proof {
            assert(goal.parts@.take(i + 1).drop_last() =~= goal.parts@.take(i as int));
            lemma_excused_split(
                checks_from(goal.checks@, goal.parts@.take(i as int)),
                goal.parts@[i as int].checks@,
            );
        }
        i = i + 1;
    }
    assert(goal.parts@.take(i as int) =~= goal.parts@);
    out
}

// --------------------------------------------------------------------- laws --

/// Where no base paths are named everything ships; otherwise what starts with one of them,
/// and nothing else.
pub proof fn law_what_ships(listing: Seq<char>, base_paths: Seq<Seq<char>>, p: Seq<char>)
    ensures
        shipped_paths(listing, base_paths).contains(p) <==> lines_of(listing).contains(p) && (
        base_paths.len() == 0 || exists|i: int|
            0 <= i < base_paths.len() && (#[trigger] base_paths[i]).is_prefix_of(p)),
{
    let ls = lines_of(listing);
    let ships = |q: Seq<char>| in_scope(q, base_paths);
    lemma_filter_holds(ls, ships, p);
}

proof fn lemma_filter_holds(s: Seq<Seq<char>>, keep: spec_fn(Seq<char>) -> bool, x: Seq<char>)
    ensures
        s.filter(keep).contains(x) <==> s.contains(x) && keep(x),
    decreases s.len(),
{
    reveal(Seq::filter);
    if s.len() > 0 {
        let p = s.drop_last();
        lemma_filter_holds(p, keep, x);
        let f = p.filter(keep);
        if p.contains(x) {
            let i = choose|i: int| 0 <= i < p.len() && p[i] == x;
            assert(s[i] == x);
        }
        if s.contains(x) && x != s.last() {
            let i = choose|i: int| 0 <= i < s.len() && s[i] == x;
            assert(p[i] == x);
        }
        assert(s[s.len() - 1] == s.last());
        if keep(s.last()) {
            assert(s.filter(keep) == f.push(s.last()));
            assert(f.push(s.last())[f.len() as int] == s.last());
            if f.contains(x) {
                let i = choose|i: int| 0 <= i < f.len() && f[i] == x;
                assert(f.push(s.last())[i] == x);
            }
            if f.push(s.last()).contains(x) && x != s.last() {
                let i = choose|i: int| 0 <= i < f.push(s.last()).len() && f.push(s.last())[i] == x;
                assert(f[i] == x);
            }
        }
    }
}

/// The base tree holds a file exactly where its path was listed and it could be read, with
/// what was read of it.
pub proof fn law_the_tree_holds_what_was_read(
    paths: Seq<Seq<char>>,
    read: Seq<Option<Seq<char>>>,
    f: ShownView,
)
    requires
        paths.len() == read.len(),
    ensures
        readable(paths, read).contains(f) <==> exists|i: int|
            0 <= i < paths.len() && #[trigger] paths[i] == f.path && read[i] == Some(f.content),
    decreases paths.len(),
{
    if paths.len() > 0 {
        let (ps, rs) = (paths.drop_last(), read.drop_last());
        law_the_tree_holds_what_was_read(ps, rs, f);
        let earlier = readable(ps, rs);
        let now = readable(paths, read);
        if earlier.contains(f) {
            let i = choose|i: int|
                0 <= i < ps.len() && #[trigger] ps[i] == f.path && rs[i] == Some(f.content);
            assert(paths[i] == f.path && read[i] == Some(f.content));
            let k = choose|k: int| 0 <= k < earlier.len() && earlier[k] == f;
            assert(now[k] == f);
        }
        if read.last() == Some(f.content) && paths.last() == f.path {
            assert(now[earlier.len() as int] == f);
            assert(paths[paths.len() - 1] == f.path && read[paths.len() - 1] == Some(f.content));
        }
        if exists|i: int|
            0 <= i < paths.len() && #[trigger] paths[i] == f.path && read[i] == Some(f.content) {
            let i = choose|i: int|
                0 <= i < paths.len() && #[trigger] paths[i] == f.path && read[i] == Some(f.content);
            if i < ps.len() {
                assert(ps[i] == f.path && rs[i] == Some(f.content));
            }
        }
        if now.contains(f) && !earlier.contains(f) {
            let k = choose|k: int| 0 <= k < now.len() && now[k] == f;
            if k < earlier.len() {
                assert(earlier[k] == f);
            }
            assert(paths[paths.len() - 1] == f.path && read[paths.len() - 1] == Some(f.content));
        }
    }
}

/// A file is written out exactly where it has a path and a content and its path stays inside
/// the tree, and then with those two.
pub proof fn law_which_file_is_written(f: Tree)
    ensures
        written_file(f) is Some <==> f.text_field("path"@) is Some && f.text_field("content"@)
            is Some && stays_inside(f.text_field("path"@)->0),
        written_file(f) is Some ==> f.text_field("path"@) == Some(written_file(f)->0.path)
            && f.text_field("content"@) == Some(written_file(f)->0.content),
{
}

/// A component is the directory under `components/`, and it is told by any path in it.
pub proof fn law_a_path_tells_its_component(name: Seq<char>, rest: Seq<char>)
    requires
        name.len() > 0,
        !name.contains('/'),
    ensures
        component_in("components/"@ + name + "/"@ + rest) == Some(name),
{
    let path = "components/"@ + name + "/"@ + rest;
    let p = "components/"@;
    reveal_strlit("/");
    assert("/"@.len() == 1);
    assert("/"@ =~= seq!['/']);
    assert(path =~= p + (name.push('/') + rest));
    assert(p.is_prefix_of(path)) by {
        assert(path.subrange(0, p.len() as int) =~= p);
    }
    assert(path.skip(p.len() as int) =~= name.push('/') + rest);
    crate::text::lemma_read_back(name, '/', rest);
}

/// Nothing is missing exactly where every script that a check runs out of the repository was
/// shipped.
pub proof fn law_nothing_is_missing_where_every_script_ships(
    cs: Seq<CheckSpec>,
    shipped: Seq<Seq<char>>,
    on_disk: Seq<Seq<char>>,
)
    ensures
        missing_of(cs, shipped, on_disk).len() == 0 <==> forall|i: int, k: int|
            0 <= i < cs.len() && 0 <= k < cs[i].command@.len() && repo_script(
                (#[trigger] cs[i].command@[k])@,
            ) ==> shipped.contains(cs[i].command@[k]@),
    decreases cs.len(),
{
    if cs.len() > 0 {
        let (p, c) = (cs.drop_last(), cs.last());
        law_nothing_is_missing_where_every_script_ships(p, shipped, on_disk);
        lemma_missing_args(c, shipped, on_disk, c.command@.len() as int);
        assert forall|i: int, k: int|
            0 <= i < p.len() && 0 <= k < p[i].command@.len() implies #[trigger] p[i].command@[k]
            == cs[i].command@[k] by {}
        if missing_of(cs, shipped, on_disk).len() == 0 {
            assert forall|i: int, k: int|
                0 <= i < cs.len() && 0 <= k < cs[i].command@.len() && repo_script(
                    (#[trigger] cs[i].command@[k])@,
                ) implies shipped.contains(cs[i].command@[k]@) by {
                if i < p.len() {
                    assert(p[i].command@[k] == cs[i].command@[k]);
                }
            }
        }
        if forall|i: int, k: int|
            0 <= i < cs.len() && 0 <= k < cs[i].command@.len() && repo_script(
                (#[trigger] cs[i].command@[k])@,
            ) ==> shipped.contains(cs[i].command@[k]@) {
            assert forall|i: int, k: int|
                0 <= i < p.len() && 0 <= k < p[i].command@.len() && repo_script(
                    (#[trigger] p[i].command@[k])@,
                ) implies shipped.contains(p[i].command@[k]@) by {
                assert(cs[i].command@[k] == p[i].command@[k]);
            }
            assert forall|k: int|
                0 <= k < c.command@.len() && repo_script(
                    (#[trigger] c.command@[k])@,
                ) implies shipped.contains(c.command@[k]@) by {
                assert(cs[cs.len() - 1].command@[k] == c.command@[k]);
            }
        }
    }
}

proof fn lemma_missing_args(
    c: CheckSpec,
    shipped: Seq<Seq<char>>,
    on_disk: Seq<Seq<char>>,
    n: int,
)
    requires
        0 <= n <= c.command@.len(),
    ensures
        missing_args(c, shipped, on_disk, n).len() == 0 <==> forall|k: int|
            0 <= k < n && repo_script((#[trigger] c.command@[k])@) ==> shipped.contains(
                c.command@[k]@,
            ),
    decreases n,
{
    if n > 0 {
        lemma_missing_args(c, shipped, on_disk, n - 1);
    }
}

/// A script of the repository is no option, is no URL, has a directory, and ends as a script
/// does.
pub proof fn law_what_a_script_is(arg: Seq<char>)
    ensures
        repo_script(arg) ==> !"-"@.is_prefix_of(arg) && holds(arg, "/"@) && !holds(arg, "://"@),
        repo_script(arg) <==> !"-"@.is_prefix_of(arg) && holds(arg, "/"@) && !holds(arg, "://"@) && (
        ".sh"@.is_suffix_of(arg) || ".py"@.is_suffix_of(arg) || ".mjs"@.is_suffix_of(arg)
            || ".js"@.is_suffix_of(arg)),
{
}

/// Excused are exactly the checks that say of themselves that they may pass on the base.
pub proof fn law_who_is_excused(cs: Seq<CheckSpec>, id: Seq<char>)
    ensures
        excused_of(cs).contains(id) <==> exists|i: int|
            0 <= i < cs.len() && (#[trigger] cs[i]).may_pass_base && cs[i].id@ == id,
    decreases cs.len(),
{
    if cs.len() > 0 {
        let p = cs.drop_last();
        law_who_is_excused(p, id);
        let (earlier, now) = (excused_of(p), excused_of(cs));
        if earlier.contains(id) {
            let k = choose|k: int| 0 <= k < earlier.len() && earlier[k] == id;
            assert(now[k] == id);
            let i = choose|i: int|
                0 <= i < p.len() && (#[trigger] p[i]).may_pass_base && p[i].id@ == id;
            assert(cs[i].may_pass_base && cs[i].id@ == id);
        }
        assert(cs[cs.len() - 1] == cs.last());
        if cs.last().may_pass_base && cs.last().id@ == id {
            assert(now[earlier.len() as int] == id);
        }
        if exists|i: int| 0 <= i < cs.len() && (#[trigger] cs[i]).may_pass_base && cs[i].id@ == id {
            let i = choose|i: int|
                0 <= i < cs.len() && (#[trigger] cs[i]).may_pass_base && cs[i].id@ == id;
            if i < p.len() {
                assert(p[i].may_pass_base && p[i].id@ == id);
            }
        }
        if now.contains(id) && !earlier.contains(id) {
            let k = choose|k: int| 0 <= k < now.len() && now[k] == id;
            if k < earlier.len() {
                assert(earlier[k] == id);
            }
        }
    }
}

/// A refused run names everything that was missing, or everything that the critic refused,
/// each on a line of its own.
pub proof fn law_a_refused_run_says_what_was_wrong(
    missing: Seq<Seq<char>>,
    tried: Result<(Seq<Seq<char>>, Seq<Seq<char>>), Seq<char>>,
    i: int,
)
    ensures
        0 <= i < missing.len() ==> judged_of(missing, tried).contains("  · "@ + missing[i]),
        missing.len() == 0 && tried is Ok && 0 <= i < tried->Ok_0.1.len() ==> judged_of(
            missing,
            tried,
        ).contains("  · "@ + tried->Ok_0.1[i]),
{
    let all = judged_of(missing, tried);
    if 0 <= i < missing.len() {
        assert(all[1 + i] == "  · "@ + missing[i]);
    } else if missing.len() == 0 && tried is Ok && 0 <= i < tried->Ok_0.1.len() {
        let n = excuses_of(tried->Ok_0.0).len();
        assert(all[n + 1 + i] == "  · "@ + tried->Ok_0.1[i]);
    }
}

/// A new capability is one that some file of the candidate lies in.
pub proof fn law_what_a_candidate_builds(files: Tree, name: Seq<char>)
    ensures
        builds(files, name) <==> exists|i: int|
            0 <= i < files.items().len() && (#[trigger] files.items()[i]).text_field("path"@) is Some
                && component_in(files.items()[i].text_field("path"@)->0) == Some(name),
{
    let fs = fields_of(files, "path"@);
    if builds(files, name) {
        let i = choose|i: int|
            0 <= i < fs.len() && (#[trigger] fs[i]) is Some && component_in(fs[i]->0) == Some(name);
        assert(fs[i] == files.items()[i].text_field("path"@));
    }
    if exists|i: int|
        0 <= i < files.items().len() && (#[trigger] files.items()[i]).text_field("path"@) is Some
            && component_in(files.items()[i].text_field("path"@)->0) == Some(name) {
        let i = choose|i: int|
            0 <= i < files.items().len() && (#[trigger] files.items()[i]).text_field("path"@) is Some
                && component_in(files.items()[i].text_field("path"@)->0) == Some(name);
        assert(fs[i] == files.items()[i].text_field("path"@));
    }
}

/// What is said of a missing script: which check runs it, which script it is, and whether it is
/// in the checkout and was only not shipped.
pub proof fn law_what_is_said_of_a_missing_script(id: Seq<char>, arg: Seq<char>, on_disk: bool)
    ensures
        ("`"@ + id + "` runs `"@ + arg + "`, which is not in the tree: "@).is_prefix_of(
            missing_line(id, arg, on_disk),
        ),
        missing_line(id, arg, true) != missing_line(id, arg, false),
{
    let t = missing_line(id, arg, on_disk);
    let head = "`"@ + id + "` runs `"@ + arg + "`, which is not in the tree: "@;
    assert(t.subrange(0, head.len() as int) =~= head);
    let a = "it exists in the checkout but was not shipped — an UNTRACKED file is not in the base tree, and `base_paths` only ships tracked files. `git add` it"@;
    let b = "no such file in the checkout either — check the path"@;
    reveal_strlit("it exists in the checkout but was not shipped — an UNTRACKED file is not in the base tree, and `base_paths` only ships tracked files. `git add` it");
    reveal_strlit("no such file in the checkout either — check the path");
    assert(a[0] == 'i');
    assert(b[0] == 'n');
    assert(missing_line(id, arg, true)[head.len() as int] == a[0]);
    assert(missing_line(id, arg, false)[head.len() as int] == b[0]);
}

} // verus!
