//! What a goal's app is made of, and how much of it the run had to write: what is asked
//! of the capability graph and what its rows say.

use vstd::prelude::*;
use vstd::string::*;

use crate::capgraph::{lit, rid, rid_of};
use crate::json::{Json, Tree, from_value, json_string, reply_of, said_in, tree_in, trees};
use crate::number::{dec, dec_of};
use crate::text::{contains, ends_with, holds, join, join_of, same, split, split_of, strs};

verus! {

// -------------------------------------------------------------------- rows --

/// The last of some trees.
pub open spec fn last_tree(v: Seq<Tree>) -> Option<Tree> {
    if v.len() == 0 {
        None
    } else {
        Some(v.last())
    }
}

/// The rows of a reply: the result of its last statement, where that is a list.
pub open spec fn rows_of(reply: Tree) -> Seq<Tree> {
    match last_tree(reply.items()) {
        None => Seq::empty(),
        Some(s) => match s.field("result"@) {
            None => Seq::empty(),
            Some(r) => r.items(),
        },
    }
}

/// The rows of a reply that was read.
pub fn rows(reply: Json) -> (out: Vec<Json>)
    ensures
        trees(out@) == rows_of(reply@),
{
    let mut statements = reply.into_items();
    let ghost all = trees(statements@);
    match statements.pop() {
        None => {
            assert(all.len() == 0);
            let none: Vec<Json> = Vec::new();
            assert(trees(none@) =~= Seq::<Tree>::empty());
            none
        },
        Some(last) => {
            assert(all.last() == last@);
            match last.into_field("result") {
                None => {
                    let none: Vec<Json> = Vec::new();
                    assert(trees(none@) =~= Seq::<Tree>::empty());
                    none
                },
                Some(r) => r.into_items(),
            }
        },
    }
}

/// The rows of a reply as it came; none where it is no JSON.
pub fn rows_in(text: &str) -> (out: Vec<Json>)
    ensures
        trees(out@) == rows_of(said_in(text@)),
{
    rows(reply_of(text))
}

/// The texts among some trees.
pub open spec fn texts_among(v: Seq<Tree>) -> Seq<Seq<char>>
    decreases v.len(),
{
    if v.len() == 0 {
        Seq::empty()
    } else {
        match v.last().text() {
            Some(t) => texts_among(v.drop_last()).push(t),
            None => texts_among(v.drop_last()),
        }
    }
}

/// The texts in a list of the first row; none where there is no row or no such list.
pub open spec fn first_texts(rows: Seq<Tree>, field: Seq<char>) -> Seq<Seq<char>> {
    if rows.len() == 0 {
        Seq::empty()
    } else {
        match rows[0].field(field) {
            None => Seq::empty(),
            Some(v) => match v.list() {
                None => Seq::empty(),
                Some(l) => texts_among(l),
            },
        }
    }
}

/// The texts in a list of the first row.
pub fn first_array(rows: &Vec<Json>, field: &str) -> (out: Vec<String>)
    ensures
        strs(out@) == first_texts(trees(rows@), field@),
{
    let mut out: Vec<String> = Vec::new();
    assert(strs(out@) =~= Seq::<Seq<char>>::empty());
    if rows.len() == 0 {
        return out;
    }
    assert(trees(rows@)[0] == rows@[0]@);
    match rows[0].field(field) {
        None => out,
        Some(v) => match v.list() {
            None => out,
            Some(l) => {
                let ghost ts = trees(l@);
                let mut i: usize = 0;
                assert(ts.take(0) =~= Seq::empty());
                while i < l.len()
                    invariant
                        i <= l.len(),
                        ts == trees(l@),
                        strs(out@) == texts_among(ts.take(i as int)),
                    decreases l.len() - i,
                {
                    assert(ts.take(i + 1).drop_last() =~= ts.take(i as int));
                    assert(ts.take(i + 1).last() == l@[i as int]@);
                    match l[i].text() {
                        Some(t) => {
                            let ghost o = out@;
                            out.push(t.clone());
                            assert(strs(out@) =~= strs(o).push(t@));
                        },
                        None => {},
                    }
                    i = i + 1;
                }
                assert(ts.take(i as int) =~= ts);
                out
            },
        },
    }
}

// ------------------------------------------------------------------ queries --

/// What is asked for the components that an app carries.
pub fn wired_query(crate_name: &str) -> (out: String)
    ensures
        out@ == "SELECT ->carries->artifact.name AS parts FROM app WHERE root = "@ + json_string(
            crate_name@,
        ) + ";"@,
{
    "SELECT ->carries->artifact.name AS parts FROM app WHERE root = ".to_string().concat(
        lit(crate_name).as_str(),
    ).concat(";")
}

/// What is asked for the interfaces that a component imports.
pub fn imports_query(crate_name: &str) -> (out: String)
    ensures
        out@ == "SELECT ->imports->interface.name AS imported FROM "@ + rid_of(
            "artifact"@,
            crate_name@,
        ) + ";"@,
{
    "SELECT ->imports->interface.name AS imported FROM ".to_string().concat(
        rid("artifact", crate_name).as_str(),
    ).concat(";")
}

/// A text that is not this one.
pub open spec fn other_than(t: Seq<char>) -> spec_fn(Seq<char>) -> bool {
    |s: Seq<char>| s != t
}

/// The components wired into an app, without its own.
pub fn wired_peers(rows: &Vec<Json>, crate_name: &str) -> (out: Vec<String>)
    ensures
        strs(out@) == first_texts(trees(rows@), "parts"@).filter(
            other_than(crate_name@),
        ),
{
    let all = first_array(rows, "parts");
    let ghost want = strs(all@);
    let mut out: Vec<String> = Vec::new();
    let mut i: usize = 0;
    assert(strs(out@) =~= want.take(0).filter(other_than(crate_name@))) by {
        reveal(Seq::filter);
    }
    while i < all.len()
        invariant
            i <= all.len(),
            want == strs(all@),
            strs(out@) == want.take(i as int).filter(other_than(crate_name@)),
        decreases all.len() - i,
    {
        proof {
            assert(want.take(i + 1).drop_last() =~= want.take(i as int));
            assert(want.take(i + 1).last() == all@[i as int]@);
            reveal(Seq::filter);
        }
        if !same(all[i].as_str(), crate_name) {
            let ghost o = out@;
            out.push(all[i].clone());
            assert(strs(out@) =~= strs(o).push(all@[i as int]@));
        }
        i = i + 1;
    }
    assert(want.take(i as int) =~= want);
    out
}

// ---------------------------------------------------------------- the goal --

/// What `toml::from_str` reads out of a text, as a document of `serde_json`; `None`
/// where it reports an error.
pub uninterp spec fn toml_in(text: Seq<char>) -> Option<serde_json::Value>;

/// `toml::from_str` into a `serde_json::Value`: a function of the text.
#[verifier::external_body]
fn read_toml(text: &str) -> (r: Option<serde_json::Value>)
    ensures
        r == toml_in(text@),
{
    toml::from_str::<serde_json::Value>(text).ok()
}

/// The texts of the `writable` lists of some parts that name Rust files.
pub open spec fn written_in(parts: Seq<Tree>) -> Seq<Seq<char>>
    decreases parts.len(),
{
    if parts.len() == 0 {
        Seq::empty()
    } else {
        written_in(parts.drop_last()) + match parts.last().field("writable"@) {
            None => Seq::empty(),
            Some(w) => match w.list() {
                None => Seq::empty(),
                Some(l) => texts_among(l).filter(rust_file()),
            },
        }
    }
}

/// A Rust file.
pub open spec fn rust_file() -> spec_fn(Seq<char>) -> bool {
    |s: Seq<char>| ".rs"@.is_suffix_of(s)
}

/// The Rust files that a goal's parts write.
pub open spec fn written_of(goal: Tree) -> Seq<Seq<char>> {
    match goal.field("part"@) {
        None => Seq::empty(),
        Some(p) => match p.list() {
            None => Seq::empty(),
            Some(l) => written_in(l),
        },
    }
}

/// The crate that a path under `components` lies in, where it lies inside one.
pub open spec fn crate_of(path: Seq<char>) -> Option<Seq<char>> {
    let parts = split_of(path, '/');
    if parts.len() > 2 && parts[0] == "components"@ {
        Some(parts[1])
    } else {
        None
    }
}

/// The crate of the first file from `i` on that lies in one.
pub open spec fn first_crate(files: Seq<Seq<char>>, i: int) -> Option<Seq<char>>
    decreases files.len() - i,
{
    if i < 0 || i >= files.len() {
        None
    } else {
        match crate_of(files[i]) {
            Some(c) => Some(c),
            None => first_crate(files, i + 1),
        }
    }
}

/// A goal that can be measured: what it is called, what it writes, and its crate.
#[derive(Debug, PartialEq, Eq)]
pub struct Measured {
    pub title: String,
    pub written: Vec<String>,
    pub crate_name: String,
}

/// The title of a goal, or its path.
pub open spec fn title_of(goal: Tree, path: Seq<char>) -> Seq<char> {
    match goal.text_field("title"@) {
        Some(t) => t,
        None => path,
    }
}

fn written_by(parts: &Vec<Json>) -> (out: Vec<String>)
    ensures
        strs(out@) == written_in(trees(parts@)),
{
    let ghost ts = trees(parts@);
    let mut out: Vec<String> = Vec::new();
    let mut i: usize = 0;
    assert(ts.take(0) =~= Seq::empty());
    assert(strs(out@) =~= written_in(ts.take(0)));
    while i < parts.len()
        invariant
            i <= parts.len(),
            ts == trees(parts@),
            strs(out@) == written_in(ts.take(i as int)),
        decreases parts.len() - i,
    {
        assert(ts.take(i + 1).drop_last() =~= ts.take(i as int));
        assert(ts.take(i + 1).last() == parts@[i as int]@);
        let ghost o = strs(out@);
        let files = match parts[i].field("writable") {
            None => None,
            Some(w) => w.list(),
        };
        match files {
            None => {
                assert(o + Seq::<Seq<char>>::empty() =~= o);
            },
            Some(l) => {
                let ghost ls = trees(l@);
                let mut k: usize = 0;
                assert(ls.take(0) =~= Seq::empty());
                assert(strs(out@) =~= o + texts_among(ls.take(0)).filter(rust_file())) by {
                    reveal(Seq::filter);
                }
                while k < l.len()
                    invariant
                        k <= l.len(),
                        ls == trees(l@),
                        strs(out@) == o + texts_among(ls.take(k as int)).filter(rust_file()),
                    decreases l.len() - k,
                {
                    let ghost before = texts_among(ls.take(k as int));
                    let ghost now = texts_among(ls.take(k + 1));
                    assert(ls.take(k + 1).drop_last() =~= ls.take(k as int));
                    assert(ls.take(k + 1).last() == l@[k as int]@);
                    match l[k].text() {
                        Some(t) => {
                            proof {
                                assert(now.drop_last() =~= before);
                                reveal(Seq::filter);
                            }
                            if ends_with(t.as_str(), ".rs") {
                                let ghost b = out@;
                                out.push(t.clone());
                                assert(strs(out@) =~= strs(b).push(t@));
                                assert(strs(out@) =~= o + now.filter(rust_file()));
                            }
                        },
                        None => {},
                    }
                    k = k + 1;
                }
                assert(ls.take(k as int) =~= ls);
            },
        }
        i = i + 1;
    }
    assert(ts.take(i as int) =~= ts);
    out
}

/// A goal that can be measured, from what its file says; none where it writes into no
/// crate.
pub open spec fn measured_of(goal: Tree) -> Option<Seq<char>> {
    first_crate(written_of(goal), 0)
}

/// A goal that can be measured, from what its file says.
pub fn measure(goal: &Json, path: &str) -> (r: Option<Measured>)
    ensures
        r is Some <==> measured_of(goal@) is Some,
        r matches Some(m) ==> m.title@ == title_of(goal@, path@) && strs(m.written@) == written_of(
            goal@,
        ) && measured_of(goal@) == Some(m.crate_name@),
{
    let parts = match goal.field("part") {
        None => None,
        Some(p) => p.list(),
    };
    let written = match parts {
        None => Vec::new(),
        Some(l) => written_by(l),
    };
    assert(strs(written@) =~= written_of(goal@));
    let mut i: usize = 0;
    while i < written.len()
        invariant
            i <= written.len(),
            strs(written@) == written_of(goal@),
            first_crate(written_of(goal@), i as int) == first_crate(written_of(goal@), 0),
        decreases written.len() - i,
    {
        let ps = split(written[i].as_str(), '/');
        assert(written_of(goal@)[i as int] == written@[i as int]@);
        if ps.len() > 2 {
            assert(strs(ps@)[0] == ps@[0]@ && strs(ps@)[1] == ps@[1]@);
            if same(ps[0].as_str(), "components") {
                let title = match goal.text_field("title") {
                    Some(t) => t.clone(),
                    None => path.to_string(),
                };
                return Some(Measured { title, written, crate_name: ps[1].clone() });
            }
        }
        i = i + 1;
    }
    None
}

/// A goal that can be measured, from the text of its file; none where that does not
/// read.
pub fn read_goal(text: &str, path: &str) -> (r: Option<Measured>)
    ensures
        r is Some <==> (toml_in(text@) matches Some(v) && measured_of(tree_in(v)) is Some),
        r matches Some(m) ==> m.title@ == title_of(tree_in(toml_in(text@)->Some_0), path@) && strs(
            m.written@,
        ) == written_of(tree_in(toml_in(text@)->Some_0)) && measured_of(
            tree_in(toml_in(text@)->Some_0),
        ) == Some(m.crate_name@),
{
    match read_toml(text) {
        None => None,
        Some(v) => {
            let goal = from_value(v);
            measure(&goal, path)
        },
    }
}

/// Is a file still the stub that it was given as?
pub fn is_stub(content: &str) -> (r: bool)
    ensures
        r == holds(content@, "501, \"not_implemented\""@),
{
    contains(content, "501, \"not_implemented\"")
}

/// What is said of a tree in which `stubs` files are still stubs. Its ratio would be
/// true and meaningless.
pub open spec fn skipped_of(m: Measured, stubs: nat, path: Seq<char>) -> Seq<Seq<char>> {
    seq![
        "\n=== "@ + m.title@,
        "    SKIPPED — "@ + dec_of(stubs) + " of "@ + dec_of(m.written@.len())
            + " written file(s) are still stubs in this tree.\n    Measure a landed branch instead: REUSE_ROOT=<worktree> comp-reuse-ratio "@
            + path,
    ]
}

/// What is said of a tree that holds stubs.
pub fn skipped(m: &Measured, stubs: u64, path: &str) -> (out: Vec<String>)
    ensures
        strs(out@) == skipped_of(*m, stubs as nat, path@),
{
    let mut out: Vec<String> = Vec::new();
    out.push("\n=== ".to_string().concat(m.title.as_str()));
    out.push(
        "    SKIPPED — ".to_string().concat(dec(stubs).as_str()).concat(" of ").concat(
            dec(m.written.len() as u64).as_str(),
        ).concat(
            " written file(s) are still stubs in this tree.\n    Measure a landed branch instead: REUSE_ROOT=<worktree> comp-reuse-ratio ",
        ).concat(path),
    );
    assert(strs(out@) =~= skipped_of(*m, stubs as nat, path@));
    out
}

/// What an app is made of: the components wired into it, and the interfaces that its
/// own component imports. `percent` is the share of the components that were not
/// written.
pub open spec fn report_of(
    m: Measured,
    wired: Seq<Seq<char>>,
    called: Seq<Seq<char>>,
    percent: Seq<char>,
) -> Seq<Seq<char>> {
    seq![
        "\n=== "@ + m.title@,
        "    crate: "@ + m.crate_name@,
        "  COMPOSITION  "@ + dec_of(wired.len()) + " component(s) wired in: "@ + join_of(
            wired,
            ", "@,
        ),
        "  COMPONENTS   reused "@ + dec_of(wired.len())
            + " component(s)  ·  written 1 component(s)"@,
        "               reuse ratio "@ + percent + "%  — "@ + dec_of(wired.len())
            + "x more existing components than authored"@,
        "  CAPABILITIES artifact imports "@ + dec_of(called.len()) + " interface(s): "@ + join_of(
            called,
            ", "@,
        ),
    ]
}

/// What an app is made of, line by line.
pub fn report(m: &Measured, wired: &Vec<String>, called: &Vec<String>, percent: &str) -> (out: Vec<
    String,
>)
    ensures
        strs(out@) == report_of(*m, strs(wired@), strs(called@), percent@),
{
    let n = dec(wired.len() as u64);
    let mut out: Vec<String> = Vec::new();
    out.push("\n=== ".to_string().concat(m.title.as_str()));
    out.push("    crate: ".to_string().concat(m.crate_name.as_str()));
    out.push(
        "  COMPOSITION  ".to_string().concat(n.as_str()).concat(" component(s) wired in: ").concat(
            join(wired, ", ").as_str(),
        ),
    );
    out.push(
        "  COMPONENTS   reused ".to_string().concat(n.as_str()).concat(
            " component(s)  ·  written 1 component(s)",
        ),
    );
    out.push(
        "               reuse ratio ".to_string().concat(percent).concat("%  — ").concat(
            n.as_str(),
        ).concat("x more existing components than authored"),
    );
    out.push(
        "  CAPABILITIES artifact imports ".to_string().concat(
            dec(called.len() as u64).as_str(),
        ).concat(" interface(s): ").concat(join(called, ", ").as_str()),
    );
    assert(strs(out@) =~= report_of(*m, strs(wired@), strs(called@), percent@));
    out
}

// --------------------------------------------------------------------- laws --

/// A file belongs to the crate whose directory under `components` it lies in.
pub proof fn law_which_crate_a_file_belongs_to(path: Seq<char>)
    ensures
        crate_of(path) is Some <==> split_of(path, '/').len() >= 3 && split_of(path, '/')[0]
            == "components"@,
        crate_of(path) is Some ==> crate_of(path) == Some(split_of(path, '/')[1]),
{
}

/// The crate that a goal is measured by is that of the first file that belongs to one.
pub proof fn law_a_goal_is_measured_by_its_first_crate(files: Seq<Seq<char>>, i: int)
    requires
        0 <= i <= files.len(),
    ensures
        first_crate(files, i) is None <==> forall|k: int|
            i <= k < files.len() ==> crate_of(#[trigger] files[k]) is None,
        first_crate(files, i) is Some ==> exists|k: int|
            i <= k < files.len() && crate_of(#[trigger] files[k]) == first_crate(files, i) && forall|
                j: int,
            |
                i <= j < k ==> crate_of(#[trigger] files[j]) is None,
    decreases files.len() - i,
{
    if i < files.len() {
        if crate_of(files[i]) is None {
            law_a_goal_is_measured_by_its_first_crate(files, i + 1);
            if first_crate(files, i) is Some {
                let k = choose|k: int|
                    i + 1 <= k < files.len() && crate_of(#[trigger] files[k]) == first_crate(
                        files,
                        i + 1,
                    ) && forall|j: int| i + 1 <= j < k ==> crate_of(#[trigger] files[j]) is None;
                assert(crate_of(files[k]) == first_crate(files, i));
            }
        } else {
            assert(crate_of(files[i]) == first_crate(files, i));
        }
    }
}

/// Only texts are taken out of a list, and every one of them.
pub proof fn law_the_texts_of_a_list(v: Seq<Tree>, t: Seq<char>)
    ensures
        texts_among(v).contains(t) <==> v.contains(Tree::Text(t)),
    decreases v.len(),
{
    if v.len() > 0 {
        let p = v.drop_last();
        law_the_texts_of_a_list(p, t);
        let (earlier, now) = (texts_among(p), texts_among(v));
        if earlier.contains(t) {
            let k = choose|k: int| 0 <= k < earlier.len() && earlier[k] == t;
            assert(now[k] == t);
        }
        if p.contains(Tree::Text(t)) {
            let k = choose|k: int| 0 <= k < p.len() && p[k] == Tree::Text(t);
            assert(v[k] == Tree::Text(t));
        }
        assert(v[v.len() - 1] == v.last());
        if v.last() == Tree::Text(t) {
            assert(now[earlier.len() as int] == t);
        }
        if v.contains(Tree::Text(t)) && v.last() != Tree::Text(t) {
            let k = choose|k: int| 0 <= k < v.len() && v[k] == Tree::Text(t);
            assert(p[k] == Tree::Text(t));
        }
        if now.contains(t) && !earlier.contains(t) {
            let k = choose|k: int| 0 <= k < now.len() && now[k] == t;
            if k < earlier.len() {
                assert(earlier[k] == t);
            }
        }
    }
}

/// What is reported of a goal: its title, its crate, the components that were wired in, and the
/// interfaces that were called, each counted and named in its own line.
pub proof fn law_what_is_reported_of_a_goal(
    m: Measured,
    wired: Seq<Seq<char>>,
    called: Seq<Seq<char>>,
    percent: Seq<char>,
)
    ensures
        report_of(m, wired, called, percent).len() == 6,
        report_of(m, wired, called, percent)[0] == "\n=== "@ + m.title@,
        report_of(m, wired, called, percent)[1] == "    crate: "@ + m.crate_name@,
        ("  COMPOSITION  "@ + dec_of(wired.len())).is_prefix_of(
            report_of(m, wired, called, percent)[2],
        ),
        join_of(wired, ", "@).is_suffix_of(report_of(m, wired, called, percent)[2]),
        ("               reuse ratio "@ + percent).is_prefix_of(
            report_of(m, wired, called, percent)[4],
        ),
        ("  CAPABILITIES artifact imports "@ + dec_of(called.len())).is_prefix_of(
            report_of(m, wired, called, percent)[5],
        ),
        join_of(called, ", "@).is_suffix_of(report_of(m, wired, called, percent)[5]),
{
    let r = report_of(m, wired, called, percent);
    let a = "  COMPOSITION  "@ + dec_of(wired.len());
    assert(r[2].subrange(0, a.len() as int) =~= a);
    let b = join_of(wired, ", "@);
    assert(r[2].subrange(r[2].len() - b.len(), r[2].len() as int) =~= b);
    let c = "               reuse ratio "@ + percent;
    assert(r[4].subrange(0, c.len() as int) =~= c);
    let d = "  CAPABILITIES artifact imports "@ + dec_of(called.len());
    assert(r[5].subrange(0, d.len() as int) =~= d);
    let e = join_of(called, ", "@);
    assert(r[5].subrange(r[5].len() - e.len(), r[5].len() as int) =~= e);
}

/// The rows of a reply are those of its last statement.
pub proof fn law_the_last_statement_answers(reply: Tree)
    ensures
        reply.items().len() == 0 ==> rows_of(reply).len() == 0,
        reply.items().len() > 0 && reply.items()[reply.items().len() - 1].field("result"@) is Some
            ==> rows_of(reply) == reply.items()[reply.items().len() - 1].field("result"@)->0.items(),
        reply.items().len() > 0 && reply.items()[reply.items().len() - 1].field("result"@) is None
            ==> rows_of(reply).len() == 0,
{
}

/// What a goal wrote is what its parts may write and is Rust, part after part.
pub proof fn law_what_a_goal_wrote(parts: Seq<Tree>, p: Tree)
    ensures
        p.field("writable"@) is Some && p.field("writable"@)->0.list() is Some ==> written_in(
            parts.push(p),
        ) == written_in(parts) + texts_among(p.field("writable"@)->0.list()->0).filter(rust_file()),
        p.field("writable"@) is None ==> written_in(parts.push(p)) == written_in(parts),
        forall|f: Seq<char>| #[trigger] rust_file()(f) <==> ".rs"@.is_suffix_of(f),
{
    assert(parts.push(p).drop_last() =~= parts);
    assert(written_in(parts) + Seq::<Seq<char>>::empty() =~= written_in(parts));
}

/// What is said of a goal that is not measured: how many of how many files are still stubs.
pub proof fn law_a_skipped_goal_counts_its_stubs(m: Measured, stubs: nat, path: Seq<char>)
    ensures
        skipped_of(m, stubs, path).len() == 2,
        skipped_of(m, stubs, path)[0] == "\n=== "@ + m.title@,
        ("    SKIPPED — "@ + dec_of(stubs) + " of "@ + dec_of(m.written@.len())).is_prefix_of(
            skipped_of(m, stubs, path)[1],
        ),
        path.is_suffix_of(skipped_of(m, stubs, path)[1]),
{
    let t = skipped_of(m, stubs, path)[1];
    let head = "    SKIPPED — "@ + dec_of(stubs) + " of "@ + dec_of(m.written@.len());
    assert(t.subrange(0, head.len() as int) =~= head);
    assert(t.subrange(t.len() - path.len(), t.len() as int) =~= path);
}

/// A goal is called by its title, or by its path where it has none; and what it wrote is what its
/// parts wrote.
pub proof fn law_what_a_goal_is_called(goal: Tree, path: Seq<char>, l: Seq<Tree>)
    ensures
        goal.text_field("title"@) matches Some(t) ==> title_of(goal, path) == t,
        goal.text_field("title"@) is None ==> title_of(goal, path) == path,
        goal.field("part"@) == Some(Tree::List(l)) ==> written_of(goal) == written_in(l),
        goal.field("part"@) is None ==> written_of(goal).len() == 0,
        measured_of(goal) == first_crate(written_of(goal), 0),
{
}

/// Only the first row counts, and of it the texts of the field's list.
pub proof fn law_only_the_first_row_counts(rows: Seq<Tree>, more: Seq<Tree>, field: Seq<char>, l: Seq<Tree>)
    requires
        rows.len() > 0,
    ensures
        first_texts(rows + more, field) == first_texts(rows, field),
        rows[0].field(field) == Some(Tree::List(l)) ==> first_texts(rows, field) == texts_among(l),
        rows[0].field(field) is None ==> first_texts(rows, field).len() == 0,
{
}

} // verus!
