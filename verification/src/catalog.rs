//! The component catalogue, from the components' own sources: what a component says it
//! is for, what it exports and needs, and the knobs that it reads.

use vstd::prelude::*;
use vstd::string::*;

use crate::number::{dec, dec_of};
use crate::order::{sorted_set, sorted_set_of};
use crate::text::{after_prefix, before_char, before_char_of, chars_of, contains, ends_with, holds, is_among, join, join_of, lemma_assoc, lemma_holds_end, lemma_holds_itself, lemma_holds_longer, lines, lines_of, lowercase, lowercase_of, replace, replace_of, same, starts_with, strip_prefix, strs, trim, trim_end_char, trim_end_char_of, trim_of};

verus! {

// ------------------------------------------------------------- expressions --

/// One match: the whole of it, then its groups.
pub open spec fn match_view(m: Vec<String>) -> Seq<Seq<char>> {
    strs(m@)
}

/// All matches.
pub open spec fn match_views(ms: Seq<Vec<String>>) -> Seq<Seq<Seq<char>>> {
    ms.map_values(|m: Vec<String>| match_view(m))
}

/// The matches of an expression in a text, in order.
pub uninterp spec fn matches_of(pattern: Seq<char>, text: Seq<char>) -> Seq<Seq<Seq<char>>>;

/// The package that a world belongs to.
pub open spec fn package_pattern() -> Seq<char> {
    "(?m)^package\\s+([^;]+);"@
}

/// What a world exports.
pub open spec fn export_pattern() -> Seq<char> {
    "(?m)^\\s*export\\s+([^;]+);"@
}

/// What a world imports.
pub open spec fn import_pattern() -> Seq<char> {
    "(?m)^\\s*import\\s+([^;]+);"@
}

/// What every component may import.
pub open spec fn std_pattern() -> Seq<char> {
    "^wasi:(clocks|random|io|cli|filesystem|sockets)/"@
}

/// A call that reads a knob.
pub open spec fn call_pattern() -> Seq<char> {
    "[a-z_]*(?:get|cfg)[a-z_0-9]*\\(\\s*\"([a-z0-9._-]{2,})\""@
}

/// A block of a module's doc that lists knobs.
pub open spec fn block_pattern() -> Seq<char> {
    "(?m)^//! Config[^\\n]*:\\n((?://!.*\\n)+)"@
}

/// A knob in such a block, and what it is for.
pub open spec fn line_pattern() -> Seq<char> {
    "(?m)^//!\\s{2,}([a-z0-9._-]{2,})\\s{2,}(.+?)\\s*$"@
}

/// The directory that a manifest points its world at.
pub open spec fn target_pattern() -> Seq<char> {
    "(?ms)\\[package\\.metadata\\.component\\.target\\][^\\[]*?^path\\s*=\\s*\"([^\"]+)\""@
}

/// One of the expressions that are used here.
pub open spec fn known_pattern(p: Seq<char>) -> bool {
    p == package_pattern() || p == export_pattern() || p == import_pattern() || p == std_pattern()
        || p == call_pattern() || p == block_pattern() || p == line_pattern() || p
        == target_pattern()
}

/// `regex::Regex::new` and `captures_iter`: the matches are a function of the expression
/// and the text. A group that took no part in a match is empty. It panics on an
/// expression that does not parse.
#[verifier::external_body]
fn find_matches(pattern: &str, text: &str) -> (out: Vec<Vec<String>>)
    requires
        known_pattern(pattern@),
    ensures
        match_views(out@) == matches_of(pattern@, text@),
{
    let re = regex::Regex::new(pattern).expect("a known expression");
    re.captures_iter(text).map(
        |c| c.iter().map(|g| g.map_or(String::new(), |m| m.as_str().to_string())).collect(),
    ).collect()
}

/// A group of a match, or an empty text.
pub open spec fn group(m: Seq<Seq<char>>, k: int) -> Seq<char> {
    if 0 <= k < m.len() {
        m[k]
    } else {
        Seq::empty()
    }
}

fn group_at(m: &Vec<String>, k: usize) -> (out: String)
    ensures
        out@ == group(match_view(*m), k as int),
{
    if k < m.len() {
        m[k].clone()
    } else {
        let s = String::new();
        assert(s@ =~= Seq::<char>::empty());
        s
    }
}

/// The first group of each match, trimmed.
pub open spec fn firsts(ms: Seq<Seq<Seq<char>>>) -> Seq<Seq<char>> {
    ms.map_values(|m: Seq<Seq<char>>| trim_of(group(m, 1)))
}

/// The first group of each match, trimmed.
pub fn first_groups(ms: &Vec<Vec<String>>) -> (out: Vec<String>)
    ensures
        strs(out@) == firsts(match_views(ms@)),
{
    let ghost want = firsts(match_views(ms@));
    let mut out: Vec<String> = Vec::new();
    let mut i: usize = 0;
    assert(strs(out@) =~= want.take(0));
    while i < ms.len()
        invariant
            i <= ms.len(),
            want == firsts(match_views(ms@)),
            strs(out@) == want.take(i as int),
        decreases ms.len() - i,
    {
        let g = group_at(&ms[i], 1);
        let t = trim(g.as_str());
        let ghost o = out@;
        out.push(t);
        assert(strs(out@) =~= strs(o).push(t@));
        assert(match_views(ms@)[i as int] == match_view(ms@[i as int]));
        assert(want.take(i + 1) =~= want.take(i as int).push(want[i as int]));
        i = i + 1;
    }
    assert(want.take(i as int) =~= want);
    out
}

// ----------------------------------------------------------------- entries --

/// A knob that a component reads, and what it is for.
#[derive(Debug, PartialEq, Eq)]
pub struct ConfigKey {
    pub name: String,
    pub description: String,
}

/// What the catalogue says of a component.
#[derive(Debug, PartialEq, Eq)]
pub struct Entry {
    pub name: String,
    pub package: String,
    pub description: String,
    pub exports: Vec<String>,
    pub capability_deps: Vec<String>,
    pub config_keys: Vec<ConfigKey>,
    pub reusable_as_is: bool,
    pub unimplemented: bool,
}

/// Applications that the suffix does not show.
pub open spec fn app_names() -> Seq<Seq<char>> {
    seq![
        "vet-domain"@,
        "login-app"@,
        "accounts-app"@,
        "sample-consumer"@,
        "bench-suite"@,
        "link-shortener"@,
        "dev-portal"@,
        "webhook-relay"@,
        "billing-ledger"@,
        "status-page"@,
    ]
}

/// Is this an application? The suffix is the tree's own word for one.
pub open spec fn application(name: Seq<char>) -> bool {
    "-domain"@.is_suffix_of(name) || app_names().contains(name)
}

fn list_of_apps() -> (v: Vec<String>)
    ensures
        strs(v@) == app_names(),
{
    let mut v: Vec<String> = Vec::new();
    v.push("vet-domain".to_string());
    v.push("login-app".to_string());
    v.push("accounts-app".to_string());
    v.push("sample-consumer".to_string());
    v.push("bench-suite".to_string());
    v.push("link-shortener".to_string());
    v.push("dev-portal".to_string());
    v.push("webhook-relay".to_string());
    v.push("billing-ledger".to_string());
    v.push("status-page".to_string());
    assert(strs(v@) =~= app_names());
    v
}

/// Is this an application?
pub fn is_app(name: &str) -> (r: bool)
    ensures
        r == application(name@),
{
    if ends_with(name, "-domain") {
        return true;
    }
    let apps = list_of_apps();
    is_among(&apps, name)
}

/// The first line of a module's doc that says something, looked for from line `i` on and
/// no further than the code, without a full stop behind it.
pub open spec fn doc_from(ls: Seq<Seq<char>>, i: int) -> Seq<char>
    decreases ls.len() - i,
{
    if i < 0 || i >= ls.len() {
        Seq::empty()
    } else {
        let line = trim_of(ls[i]);
        match after_prefix(line, "//!"@) {
            Some(rest) => if trim_of(rest).len() > 0 {
                trim_end_char_of(trim_of(rest), '.')
            } else {
                doc_from(ls, i + 1)
            },
            None => if line.len() > 0 && !"//"@.is_prefix_of(line) {
                Seq::empty()
            } else {
                doc_from(ls, i + 1)
            },
        }
    }
}

/// The first line of a module's doc that says something.
pub fn first_doc_line(source: &str) -> (out: String)
    ensures
        out@ == doc_from(lines_of(source@), 0),
{
    let ls = lines(source);
    let ghost all = lines_of(source@);
    let empty = String::new();
    assert(empty@ =~= Seq::<char>::empty());
    let mut i: usize = 0;
    while i < ls.len()
        invariant
            i <= ls.len(),
            strs(ls@) == all,
            all == lines_of(source@),
            empty@ == Seq::<char>::empty(),
            doc_from(all, i as int) == doc_from(all, 0),
        decreases ls.len() - i,
    {
        assert(all[i as int] == ls@[i as int]@);
        let line = trim(ls[i].as_str());
        match strip_prefix(line.as_str(), "//!") {
            Some(rest) => {
                let t = trim(rest.as_str());
                if !t.as_str().is_empty() {
                    return trim_end_char(t.as_str(), '.');
                }
            },
            None => {
                if !line.as_str().is_empty() && !starts_with(line.as_str(), "//") {
                    return empty;
                }
            },
        }
        i = i + 1;
    }
    empty
}

/// Where a manifest says that its world lies, where it declares a component at all.
pub open spec fn wit_path_in(manifest: Seq<char>) -> Option<Seq<char>> {
    if !holds(manifest, "[package.metadata.component]"@) {
        None
    } else {
        let ms = matches_of(target_pattern(), manifest);
        if ms.len() == 0 {
            None
        } else {
            Some(group(ms[0], 1))
        }
    }
}

/// Where a manifest says that its world lies: not every crate keeps its own.
pub fn component_wit_dir(manifest: &str) -> (r: Option<String>)
    ensures
        (match r {
            Some(p) => Some(p@),
            None => None,
        }) == wit_path_in(manifest@),
{
    if !contains(manifest, "[package.metadata.component]") {
        return None;
    }
    let ms = find_matches(
        "(?ms)\\[package\\.metadata\\.component\\.target\\][^\\[]*?^path\\s*=\\s*\"([^\"]+)\"",
        manifest,
    );
    if ms.len() == 0 {
        None
    } else {
        assert(match_views(ms@)[0] == match_view(ms@[0]));
        Some(group_at(&ms[0], 1))
    }
}

/// An interface without its version.
pub open spec fn unversioned(v: Seq<Seq<char>>) -> Seq<Seq<char>> {
    v.map_values(|s: Seq<char>| before_char_of(s, '@'))
}

/// Is this an interface that every component may import?
pub open spec fn standard(i: Seq<char>) -> bool {
    matches_of(std_pattern(), i).len() > 0
}

/// The interfaces among some that are a component's own needs.
pub open spec fn needs_of(imports: Seq<Seq<char>>) -> Seq<Seq<char>> {
    imports.filter(|i: Seq<char>| !standard(i))
}

fn needs(imports: &Vec<String>) -> (out: Vec<String>)
    ensures
        strs(out@) == needs_of(unversioned(strs(imports@))),
{
    let ghost all = unversioned(strs(imports@));
    let ghost keep = |i: Seq<char>| !standard(i);
    let mut out: Vec<String> = Vec::new();
    let mut i: usize = 0;
    assert(strs(out@) =~= all.take(0).filter(keep)) by {
        reveal(Seq::filter);
    }
    while i < imports.len()
        invariant
            i <= imports.len(),
            all == unversioned(strs(imports@)),
            keep == (|i: Seq<char>| !standard(i)),
            strs(out@) == all.take(i as int).filter(keep),
        decreases imports.len() - i,
    {
        let name = before_char(imports[i].as_str(), '@');
        let ms = find_matches(
            "^wasi:(clocks|random|io|cli|filesystem|sockets)/",
            name.as_str(),
        );
        proof {
            assert(all.take(i + 1).drop_last() =~= all.take(i as int));
            assert(all.take(i + 1).last() == name@);
            assert(match_views(ms@).len() == ms@.len());
            reveal(Seq::filter);
        }
        if ms.len() == 0 {
            let ghost o = out@;
            out.push(name);
            assert(strs(out@) =~= strs(o).push(name@));
        }
        i = i + 1;
    }
    assert(all.take(i as int) =~= all);
    out
}

/// Knobs as plain values.
pub open spec fn key_views(v: Seq<ConfigKey>) -> Seq<(Seq<char>, Seq<char>)> {
    v.map_values(|k: ConfigKey| (k.name@, k.description@))
}

/// A knob is there.
pub open spec fn has_key(ks: Seq<(Seq<char>, Seq<char>)>, name: Seq<char>) -> bool {
    exists|i: int| 0 <= i < ks.len() && (#[trigger] ks[i]).0 == name
}

/// Knobs with one more, where it is not there yet.
pub open spec fn with_key(ks: Seq<(Seq<char>, Seq<char>)>, name: Seq<char>, about: Seq<char>) -> Seq<
    (Seq<char>, Seq<char>),
> {
    if has_key(ks, name) {
        ks
    } else {
        ks.push((name, about))
    }
}

/// Put a knob where it is not there yet.
pub fn add_key(ks: &mut Vec<ConfigKey>, name: String, description: String)
    ensures
        key_views(final(ks)@) == with_key(key_views(old(ks)@), name@, description@),
{
    let ghost o = ks@;
    let ghost vs = key_views(ks@);
    let mut i: usize = 0;
    while i < ks.len()
        invariant
            i <= ks.len(),
            ks@ == o,
            vs == key_views(o),
            forall|k: int| 0 <= k < i ==> (#[trigger] vs[k]).0 != name@,
        decreases ks.len() - i,
    {
        assert(vs[i as int].0 == ks@[i as int].name@);
        if same(ks[i].name.as_str(), name.as_str()) {
            assert(has_key(vs, name@));
            return;
        }
        i = i + 1;
    }
    ks.push(ConfigKey { name, description });
    assert(key_views(ks@) =~= vs.push((name@, description@)));
}

/// Knobs with those of some matches, the first group a name and the second what it is
/// for.
pub open spec fn with_documented(ks: Seq<(Seq<char>, Seq<char>)>, ms: Seq<Seq<Seq<char>>>) -> Seq<
    (Seq<char>, Seq<char>),
>
    decreases ms.len(),
{
    if ms.len() == 0 {
        ks
    } else {
        with_key(
            with_documented(ks, ms.drop_last()),
            group(ms.last(), 1),
            trim_of(group(ms.last(), 2)),
        )
    }
}

/// Knobs with those of some calls, which do not say what they are for.
pub open spec fn with_called(ks: Seq<(Seq<char>, Seq<char>)>, ms: Seq<Seq<Seq<char>>>) -> Seq<
    (Seq<char>, Seq<char>),
>
    decreases ms.len(),
{
    if ms.len() == 0 {
        ks
    } else {
        with_key(with_called(ks, ms.drop_last()), group(ms.last(), 1), Seq::empty())
    }
}

/// Knobs with those of some blocks of docs.
pub open spec fn with_blocks(ks: Seq<(Seq<char>, Seq<char>)>, blocks: Seq<Seq<Seq<char>>>) -> Seq<
    (Seq<char>, Seq<char>),
>
    decreases blocks.len(),
{
    if blocks.len() == 0 {
        ks
    } else {
        with_documented(
            with_blocks(ks, blocks.drop_last()),
            matches_of(line_pattern(), group(blocks.last(), 1)),
        )
    }
}

/// Knobs with those of a source: what its docs say, then what its calls show.
pub open spec fn with_source(ks: Seq<(Seq<char>, Seq<char>)>, source: Seq<char>) -> Seq<
    (Seq<char>, Seq<char>),
> {
    with_called(
        with_blocks(ks, matches_of(block_pattern(), source)),
        matches_of(call_pattern(), source),
    )
}

/// The knobs of some sources, in order, each once.
pub open spec fn keys_of(sources: Seq<Seq<char>>) -> Seq<(Seq<char>, Seq<char>)>
    decreases sources.len(),
{
    if sources.len() == 0 {
        Seq::empty()
    } else {
        with_source(keys_of(sources.drop_last()), sources.last())
    }
}

/// Put the knobs of some documented matches.
pub fn add_documented(ks: &mut Vec<ConfigKey>, ms: &Vec<Vec<String>>)
    ensures
        key_views(final(ks)@) == with_documented(key_views(old(ks)@), match_views(ms@)),
{
    let ghost first = key_views(ks@);
    let ghost all = match_views(ms@);
    let mut i: usize = 0;
    assert(all.take(0) =~= Seq::empty());
    while i < ms.len()
        invariant
            i <= ms.len(),
            all == match_views(ms@),
            key_views(ks@) == with_documented(first, all.take(i as int)),
        decreases ms.len() - i,
    {
        assert(all.take(i + 1).drop_last() =~= all.take(i as int));
        assert(all.take(i + 1).last() == match_view(ms@[i as int]));
        let about = group_at(&ms[i], 2);
        add_key(ks, group_at(&ms[i], 1), trim(about.as_str()));
        i = i + 1;
    }
    assert(all.take(i as int) =~= all);
}

/// Put the knobs of some calls.
pub fn add_called(ks: &mut Vec<ConfigKey>, ms: &Vec<Vec<String>>)
    ensures
        key_views(final(ks)@) == with_called(key_views(old(ks)@), match_views(ms@)),
{
    let ghost first = key_views(ks@);
    let ghost all = match_views(ms@);
    let mut i: usize = 0;
    assert(all.take(0) =~= Seq::empty());
    while i < ms.len()
        invariant
            i <= ms.len(),
            all == match_views(ms@),
            key_views(ks@) == with_called(first, all.take(i as int)),
        decreases ms.len() - i,
    {
        assert(all.take(i + 1).drop_last() =~= all.take(i as int));
        assert(all.take(i + 1).last() == match_view(ms@[i as int]));
        let none = String::new();
        assert(none@ =~= Seq::<char>::empty());
        add_key(ks, group_at(&ms[i], 1), none);
        i = i + 1;
    }
    assert(all.take(i as int) =~= all);
}

fn add_source(ks: &mut Vec<ConfigKey>, source: &str)
    ensures
        key_views(final(ks)@) == with_source(key_views(old(ks)@), source@),
{
    let blocks = find_matches("(?m)^//! Config[^\\n]*:\\n((?://!.*\\n)+)", source);
    let ghost first = key_views(ks@);
    let ghost all = match_views(blocks@);
    let mut i: usize = 0;
    assert(all.take(0) =~= Seq::empty());
    while i < blocks.len()
        invariant
            i <= blocks.len(),
            all == match_views(blocks@),
            key_views(ks@) == with_blocks(first, all.take(i as int)),
        decreases blocks.len() - i,
    {
        assert(all.take(i + 1).drop_last() =~= all.take(i as int));
        assert(all.take(i + 1).last() == match_view(blocks@[i as int]));
        let block = group_at(&blocks[i], 1);
        let ls = find_matches(
            "(?m)^//!\\s{2,}([a-z0-9._-]{2,})\\s{2,}(.+?)\\s*$",
            block.as_str(),
        );
        add_documented(ks, &ls);
        i = i + 1;
    }
    assert(all.take(i as int) =~= all);
    let calls = find_matches(
        "[a-z_]*(?:get|cfg)[a-z_0-9]*\\(\\s*\"([a-z0-9._-]{2,})\"",
        source,
    );
    add_called(ks, &calls);
}

/// Does a component read knobs at all?
pub open spec fn configured(deps: Seq<Seq<char>>) -> bool {
    exists|i: int| 0 <= i < deps.len() && "wasi:config"@.is_prefix_of(#[trigger] deps[i])
}

fn reads_config(deps: &Vec<String>) -> (r: bool)
    ensures
        r == configured(strs(deps@)),
{
    let mut i: usize = 0;
    while i < deps.len()
        invariant
            i <= deps.len(),
            forall|k: int| 0 <= k < i ==> !"wasi:config"@.is_prefix_of(#[trigger] strs(deps@)[k]),
        decreases deps.len() - i,
    {
        assert(strs(deps@)[i as int] == deps@[i as int]@);
        if starts_with(deps[i].as_str(), "wasi:config") {
            assert("wasi:config"@.is_prefix_of(strs(deps@)[i as int]));
            return true;
        }
        i = i + 1;
    }
    false
}

/// The package that a world's text names first, or an empty text.
pub open spec fn package_in(wit: Seq<char>) -> Seq<char> {
    let ms = matches_of(package_pattern(), wit);
    if ms.len() == 0 {
        Seq::empty()
    } else {
        trim_of(group(ms[0], 1))
    }
}

/// An entry says what a component's world and sources say.
pub open spec fn entry_of(
    e: Entry,
    name: Seq<char>,
    wit: Seq<char>,
    lib: Seq<char>,
    sources: Seq<Seq<char>>,
) -> bool {
    &&& e.name@ == name
    &&& e.package@ == package_in(wit)
    &&& e.description@ == doc_from(lines_of(lib), 0)
    &&& strs(e.exports@) == firsts(matches_of(export_pattern(), wit))
    &&& sorted_set_of(
        strs(e.capability_deps@),
        needs_of(unversioned(firsts(matches_of(import_pattern(), wit)))),
    )
    &&& key_views(e.config_keys@) == if configured(strs(e.capability_deps@)) {
        keys_of(sources)
    } else {
        Seq::empty()
    }
    &&& e.reusable_as_is == !application(name)
    &&& e.unimplemented == holds(lib, "UNIMPLEMENTED:"@)
}

/// What the catalogue says of a component, from its world's text, its root and all of
/// its sources in order.
pub fn scan(name: &str, wit: &str, lib: &str, sources: &Vec<String>) -> (e: Entry)
    ensures
        entry_of(e, name@, wit@, lib@, strs(sources@)),
{
    let packages = first_groups(&find_matches("(?m)^package\\s+([^;]+);", wit));
    let package = if packages.len() == 0 {
        String::new()
    } else {
        packages[0].clone()
    };
    proof {
        let ms = matches_of(package_pattern(), wit@);
        assert(strs(packages@) == firsts(ms));
        assert(strs(packages@).len() == ms.len());
        if ms.len() > 0 {
            assert(strs(packages@)[0] == trim_of(group(ms[0], 1)));
        }
        assert(package@ =~= package_in(wit@));
    }
    let exports = first_groups(&find_matches("(?m)^\\s*export\\s+([^;]+);", wit));
    let imports = first_groups(&find_matches("(?m)^\\s*import\\s+([^;]+);", wit));
    let wanted = needs(&imports);
    let deps = sorted_set(&wanted);
    let mut keys: Vec<ConfigKey> = Vec::new();
    assert(key_views(keys@) =~= Seq::<(Seq<char>, Seq<char>)>::empty());
    if reads_config(&deps) {
        let ghost all = strs(sources@);
        let mut i: usize = 0;
        assert(all.take(0) =~= Seq::empty());
        while i < sources.len()
            invariant
                i <= sources.len(),
                all == strs(sources@),
                key_views(keys@) == keys_of(all.take(i as int)),
            decreases sources.len() - i,
        {
            assert(all.take(i + 1).drop_last() =~= all.take(i as int));
            assert(all.take(i + 1).last() == sources@[i as int]@);
            add_source(&mut keys, sources[i].as_str());
            i = i + 1;
        }
        assert(all.take(i as int) =~= all);
    }
    Entry {
        name: name.to_string(),
        package,
        description: first_doc_line(lib),
        exports,
        capability_deps: deps,
        config_keys: keys,
        reusable_as_is: !is_app(name),
        unimplemented: contains(lib, "UNIMPLEMENTED:"),
    }
}

/// No knob twice.
pub open spec fn distinct_keys(ks: Seq<(Seq<char>, Seq<char>)>) -> bool {
    forall|i: int, j: int| 0 <= i < j < ks.len() ==> (#[trigger] ks[i]).0 != (#[trigger] ks[j]).0
}

proof fn lemma_documented_distinct(ks: Seq<(Seq<char>, Seq<char>)>, ms: Seq<Seq<Seq<char>>>)
    requires
        distinct_keys(ks),
    ensures
        distinct_keys(with_documented(ks, ms)),
        distinct_keys(with_called(ks, ms)),
    decreases ms.len(),
{
    if ms.len() > 0 {
        lemma_documented_distinct(ks, ms.drop_last());
    }
}

proof fn lemma_blocks_distinct(ks: Seq<(Seq<char>, Seq<char>)>, ms: Seq<Seq<Seq<char>>>)
    requires
        distinct_keys(ks),
    ensures
        distinct_keys(with_blocks(ks, ms)),
    decreases ms.len(),
{
    if ms.len() > 0 {
        lemma_blocks_distinct(ks, ms.drop_last());
        lemma_documented_distinct(
            with_blocks(ks, ms.drop_last()),
            matches_of(line_pattern(), group(ms.last(), 1)),
        );
    }
}

/// A knob is listed once, however often a component's sources name it.
pub proof fn law_a_knob_is_listed_once(sources: Seq<Seq<char>>)
    ensures
        distinct_keys(keys_of(sources)),
    decreases sources.len(),
{
    if sources.len() > 0 {
        law_a_knob_is_listed_once(sources.drop_last());
        let ks = keys_of(sources.drop_last());
        lemma_blocks_distinct(ks, matches_of(block_pattern(), sources.last()));
        lemma_documented_distinct(
            with_blocks(ks, matches_of(block_pattern(), sources.last())),
            matches_of(call_pattern(), sources.last()),
        );
    }
}

// ------------------------------------------------------------------- pages --

/// Is a character a letter or a digit, as Unicode has it?
pub uninterp spec fn alphanumeric_of(c: char) -> bool;

/// `char::is_alphanumeric`: a function of the character, which of ASCII picks the
/// letters and the digits.
#[verifier::external_body]
fn is_alphanumeric(c: char) -> (r: bool)
    ensures
        r == alphanumeric_of(c),
        (c as int) < 128 ==> r == crate::text::alphanumeric(c),
{
    c.is_alphanumeric()
}

/// What stays of a title in its anchor.
pub open spec fn anchored(c: char) -> bool {
    alphanumeric_of(c) || c == ' ' || c == '-'
}

/// A space becomes a dash.
pub open spec fn dashed(s: Seq<char>) -> Seq<char> {
    s.map_values(
        |c: char|
            if c == ' ' {
                '-'
            } else {
                c
            },
    )
}

/// The anchor of a heading: lower case, without punctuation, with dashes for spaces.
pub open spec fn slug_of(title: Seq<char>) -> Seq<char> {
    dashed(lowercase_of(title).filter(|c: char| anchored(c)))
}

/// The anchor of a heading.
pub fn slugify(title: &str) -> (out: String)
    ensures
        out@ == slug_of(title@),
{
    let low = lowercase(title);
    let cs = chars_of(low.as_str());
    let ghost keep = |c: char| anchored(c);
    let mut out = String::new();
    let mut i: usize = 0;
    assert(out@ =~= dashed(cs@.take(0).filter(keep))) by {
        reveal(Seq::filter);
    }
    while i < cs.len()
        invariant
            i <= cs.len(),
            cs@ == lowercase_of(title@),
            keep == (|c: char| anchored(c)),
            out@ == dashed(cs@.take(i as int).filter(keep)),
        decreases cs.len() - i,
    {
        let c = cs[i];
        let ghost before = cs@.take(i as int).filter(keep);
        proof {
            assert(cs@.take(i + 1).drop_last() =~= cs@.take(i as int));
            assert(cs@.take(i + 1).last() == c);
            reveal(Seq::filter);
        }
        if c == ' ' || c == '-' || is_alphanumeric(c) {
            let ghost o = out@;
            out.push(
                if c == ' ' {
                    '-'
                } else {
                    c
                },
            );
            assert(out@ =~= dashed(before.push(c)));
        }
        i = i + 1;
    }
    assert(cs@.take(i as int) =~= cs@);
    out
}

/// A need, shortened.
pub open spec fn badge(d: Seq<char>) -> Seq<char> {
    replace_of(replace_of(d, "wasi:keyvalue/"@, "kv:"@), "wasi:"@, ""@)
}

/// The needs of a component, shortened.
pub open spec fn badges(deps: Seq<Seq<char>>) -> Seq<char> {
    if deps.len() == 0 {
        "pure compute"@
    } else {
        join_of(deps.map_values(|d: Seq<char>| badge(d)), ", "@)
    }
}

/// The needs of a component, shortened.
pub fn dep_badge(deps: &Vec<String>) -> (out: String)
    ensures
        out@ == badges(strs(deps@)),
{
    if deps.len() == 0 {
        return "pure compute".to_string();
    }
    let ghost want = strs(deps@).map_values(|d: Seq<char>| badge(d));
    let mut items: Vec<String> = Vec::new();
    let mut i: usize = 0;
    assert(strs(items@) =~= want.take(0));
    while i < deps.len()
        invariant
            i <= deps.len(),
            want == strs(deps@).map_values(|d: Seq<char>| badge(d)),
            strs(items@) == want.take(i as int),
        decreases deps.len() - i,
    {
        let a = replace(deps[i].as_str(), "wasi:keyvalue/", "kv:");
        let b = replace(a.as_str(), "wasi:", "");
        let ghost o = items@;
        items.push(b);
        assert(strs(items@) =~= strs(o).push(b@));
        assert(want.take(i + 1) =~= want.take(i as int).push(want[i as int]));
        i = i + 1;
    }
    assert(want.take(i as int) =~= want);
    join(&items, ", ")
}

/// What a component is.
#[derive(Debug, Clone, Copy, PartialEq, Eq, Structural)]
pub enum Role {
    Capability,
    App,
    Contract,
    Probe,
}

/// Probes that the suffix does not show.
pub open spec fn probe_names() -> Seq<Seq<char>> {
    seq!["adversary"@, "twofile"@, "bigadd"@, "demo"@, "mock-fitness"@, "mock-provider"@]
}

/// What a component is: a contract with nothing behind it before anything else.
pub open spec fn role_of(e: Entry) -> Role {
    if e.unimplemented {
        Role::Contract
    } else if !e.reusable_as_is {
        Role::App
    } else if "-probe"@.is_suffix_of(e.name@) || probe_names().contains(e.name@) {
        Role::Probe
    } else {
        Role::Capability
    }
}

fn list_of_probes() -> (v: Vec<String>)
    ensures
        strs(v@) == probe_names(),
{
    let mut v: Vec<String> = Vec::new();
    v.push("adversary".to_string());
    v.push("twofile".to_string());
    v.push("bigadd".to_string());
    v.push("demo".to_string());
    v.push("mock-fitness".to_string());
    v.push("mock-provider".to_string());
    assert(strs(v@) =~= probe_names());
    v
}

/// What a component is.
pub fn role(e: &Entry) -> (r: Role)
    ensures
        r == role_of(*e),
{
    if e.unimplemented {
        return Role::Contract;
    }
    if !e.reusable_as_is {
        return Role::App;
    }
    let probes = list_of_probes();
    if ends_with(e.name.as_str(), "-probe") || is_among(&probes, e.name.as_str()) {
        return Role::Probe;
    }
    Role::Capability
}

/// The knobs of a component in its row.
pub open spec fn knobs_of(ks: Seq<ConfigKey>) -> Seq<char> {
    if ks.len() == 0 {
        "—"@
    } else {
        join_of(ks.map_values(|k: ConfigKey| "`"@ + k.name@ + "`"@), ", "@)
    }
}

/// The row of a component.
pub open spec fn row_of(e: Entry) -> Seq<char> {
    "| **"@ + e.name@ + "** | `"@ + e.package@ + "` | "@ + badges(strs(e.capability_deps@)) + " | "@
        + knobs_of(e.config_keys@) + " |"@
}

fn knobs(ks: &Vec<ConfigKey>) -> (out: String)
    ensures
        out@ == knobs_of(ks@),
{
    if ks.len() == 0 {
        return "—".to_string();
    }
    let ghost want = ks@.map_values(|k: ConfigKey| "`"@ + k.name@ + "`"@);
    let mut items: Vec<String> = Vec::new();
    let mut i: usize = 0;
    assert(strs(items@) =~= want.take(0));
    while i < ks.len()
        invariant
            i <= ks.len(),
            want == ks@.map_values(|k: ConfigKey| "`"@ + k.name@ + "`"@),
            strs(items@) == want.take(i as int),
        decreases ks.len() - i,
    {
        let t = "`".to_string().concat(ks[i].name.as_str()).concat("`");
        let ghost o = items@;
        items.push(t);
        assert(strs(items@) =~= strs(o).push(t@));
        assert(want.take(i + 1) =~= want.take(i as int).push(want[i as int]));
        i = i + 1;
    }
    assert(want.take(i as int) =~= want);
    join(&items, ", ")
}

/// The row of a component.
pub fn row(e: &Entry) -> (out: String)
    ensures
        out@ == row_of(*e),
{
    let needs_ = dep_badge(&e.capability_deps);
    let k = knobs(&e.config_keys);
    "| **".to_string().concat(e.name.as_str()).concat("** | `").concat(e.package.as_str()).concat(
        "` | ",
    ).concat(needs_.as_str()).concat(" | ").concat(k.as_str()).concat(" |")
}

/// The rows of the components of one role, in order.
pub open spec fn rows_of(es: Seq<Entry>, r: Role) -> Seq<Seq<char>>
    decreases es.len(),
{
    if es.len() == 0 {
        Seq::empty()
    } else if role_of(es.last()) == r {
        rows_of(es.drop_last(), r).push(row_of(es.last()))
    } else {
        rows_of(es.drop_last(), r)
    }
}

/// The rows of the components of one role.
pub fn rows(es: &Vec<Entry>, r: Role) -> (out: Vec<String>)
    ensures
        strs(out@) == rows_of(es@, r),
{
    let mut out: Vec<String> = Vec::new();
    let mut i: usize = 0;
    assert(es@.take(0) =~= Seq::empty());
    assert(strs(out@) =~= rows_of(es@.take(0), r));
    while i < es.len()
        invariant
            i <= es.len(),
            strs(out@) == rows_of(es@.take(i as int), r),
        decreases es.len() - i,
    {
        assert(es@.take(i + 1).drop_last() =~= es@.take(i as int));
        assert(es@.take(i + 1).last() == es@[i as int]);
        if role(&es[i]) == r {
            let t = row(&es[i]);
            let ghost o = out@;
            out.push(t);
            assert(strs(out@) =~= strs(o).push(t@));
        }
        i = i + 1;
    }
    assert(es@.take(i as int) =~= es@);
    out
}

/// Every component has exactly one role, so the pages list each once.
pub proof fn law_every_component_is_listed_once(es: Seq<Entry>)
    ensures
        rows_of(es, Role::Capability).len() + rows_of(es, Role::App).len() + rows_of(
            es,
            Role::Contract,
        ).len() + rows_of(es, Role::Probe).len() == es.len(),
    decreases es.len(),
{
    if es.len() > 0 {
        law_every_component_is_listed_once(es.drop_last());
    }
}

/// The heading of a role's group.
pub open spec fn title_of(r: Role) -> Seq<char> {
    match r {
        Role::Capability => "Capabilities — reusable as-is"@,
        Role::App => "Applications and demos — not reusable as-is"@,
        Role::Contract => "Contract only — no implementation behind the WIT"@,
        Role::Probe => "Probes — test harnesses"@,
    }
}

/// What a role's group is, in words.
pub open spec fn blurb_of(r: Role) -> Seq<char> {
    match r {
        Role::Capability => "Each one exports its contract and imports only generic WASI, so it drops into another app via `wac plug` or a link, configured through `wasi:config`. This is the part of the tree meant to be reused; [ADR-0089](../docs/adr/0089-capability-accumulation.md) is why a gate makes you look here before you build."@,
        Role::App => "A whole app, or a demo of one. Listed because it is in the tree and because its composition is worth reading, but it is a consumer of the capabilities above rather than one of them. The `-domain` suffix is the repo convention; `capsearch` uses this flag so a showcase cannot outrank the capability it is built from. One file each in [`docs/apps/`](../docs/apps/README.md)."@,
        Role::Contract => "The WIT is real and every export returns an `UNIMPLEMENTED:` marker. These need a host-side capability a wasm guest cannot have (a syscall, a socket, a subprocess), so they state what a host must satisfy rather than satisfying it — see [ADR-0095](../docs/adr/0095-what-is-allowed-to-be-native.md)."@,
        Role::Probe => "Built to exercise one capability from the outside and prove it is linkable. Reusable, but only useful if you are testing the thing they probe."@,
    }
}

/// The heading of a role's group.
pub fn title(r: Role) -> (out: String)
    ensures
        out@ == title_of(r),
{
    match r {
        Role::Capability => "Capabilities — reusable as-is".to_string(),
        Role::App => "Applications and demos — not reusable as-is".to_string(),
        Role::Contract => "Contract only — no implementation behind the WIT".to_string(),
        Role::Probe => "Probes — test harnesses".to_string(),
    }
}

/// What a role's group is, in words.
pub fn blurb(r: Role) -> (out: String)
    ensures
        out@ == blurb_of(r),
{
    match r {
        Role::Capability => "Each one exports its contract and imports only generic WASI, so it drops into another app via `wac plug` or a link, configured through `wasi:config`. This is the part of the tree meant to be reused; [ADR-0089](../docs/adr/0089-capability-accumulation.md) is why a gate makes you look here before you build.".to_string(),
        Role::App => "A whole app, or a demo of one. Listed because it is in the tree and because its composition is worth reading, but it is a consumer of the capabilities above rather than one of them. The `-domain` suffix is the repo convention; `capsearch` uses this flag so a showcase cannot outrank the capability it is built from. One file each in [`docs/apps/`](../docs/apps/README.md).".to_string(),
        Role::Contract => "The WIT is real and every export returns an `UNIMPLEMENTED:` marker. These need a host-side capability a wasm guest cannot have (a syscall, a socket, a subprocess), so they state what a host must satisfy rather than satisfying it — see [ADR-0095](../docs/adr/0095-what-is-allowed-to-be-native.md).".to_string(),
        Role::Probe => "Built to exercise one capability from the outside and prove it is linkable. Reusable, but only useful if you are testing the thing they probe.".to_string(),
    }
}

/// The line of a group in the contents.
pub open spec fn contents_of(es: Seq<Entry>, r: Role) -> Seq<char> {
    "- ["@ + title_of(r) + "](#"@ + slug_of(title_of(r)) + ") — "@ + dec_of(rows_of(es, r).len())
}

/// A group: its heading, what it is, and its table.
pub open spec fn group_of(es: Seq<Entry>, r: Role) -> Seq<Seq<char>> {
    seq![
        "## "@ + title_of(r),
        ""@,
        blurb_of(r),
        ""@,
        "| component | package | deps | config knobs |"@,
        "|---|---|---|---|"@,
    ] + rows_of(es, r) + seq![""@]
}

/// The lines of the components that say what they are for.
pub open spec fn descriptions_of(es: Seq<Entry>) -> Seq<Seq<char>>
    decreases es.len(),
{
    if es.len() == 0 {
        Seq::empty()
    } else {
        let e = es.last();
        let earlier = descriptions_of(es.drop_last());
        if e.description@.len() == 0 {
            earlier
        } else {
            earlier.push("- **"@ + e.name@ + "** — "@ + e.description@)
        }
    }
}

/// The head of the page.
pub open spec fn head_of(n: nat) -> Seq<Seq<char>> {
    seq![
        "# Component catalog"@,
        ""@,
        "Generated by `comp-catalog` — do not edit by hand. "@ + dec_of(n) + " components."@,
        ""@,
        "Grouped by what a component *is*, because one alphabetical table of "@ + dec_of(n)
            + " rows answered no question anybody actually asks. For what a component really imports (read out of the built wasm rather than its source), see [`docs/CAPABILITY-GRAPH.md`](../docs/CAPABILITY-GRAPH.md)."@,
        ""@,
    ]
}

/// The catalogue for people.
pub open spec fn page_lines(es: Seq<Entry>) -> Seq<Seq<char>> {
    head_of(es.len()) + seq![
        contents_of(es, Role::Capability),
        contents_of(es, Role::App),
        contents_of(es, Role::Contract),
        contents_of(es, Role::Probe),
        "- [Descriptions](#descriptions) — all of them, alphabetical"@,
        ""@,
    ] + group_of(es, Role::Capability) + group_of(es, Role::App) + group_of(es, Role::Contract)
        + group_of(es, Role::Probe) + seq!["## Descriptions"@, ""@] + descriptions_of(es) + seq![
        ""@,
    ]
}

fn push_all(out: &mut Vec<String>, more: &Vec<String>)
    ensures
        strs(final(out)@) == strs(old(out)@) + strs(more@),
{
    let ghost first = strs(out@);
    let ghost all = strs(more@);
    let mut i: usize = 0;
    assert(first + all.take(0) =~= first);
    while i < more.len()
        invariant
            i <= more.len(),
            all == strs(more@),
            strs(out@) == first + all.take(i as int),
        decreases more.len() - i,
    {
        let ghost o = out@;
        out.push(more[i].clone());
        assert(strs(out@) =~= strs(o).push(all[i as int]));
        assert(first + all.take(i + 1) =~= (first + all.take(i as int)).push(all[i as int]));
        i = i + 1;
    }
    assert(all.take(i as int) =~= all);
}

fn head(n: u64) -> (v: Vec<String>)
    ensures
        strs(v@) == head_of(n as nat),
{
    let mut v: Vec<String> = Vec::new();
    v.push("# Component catalog".to_string());
    v.push("".to_string());
    v.push(
        "Generated by `comp-catalog` — do not edit by hand. ".to_string().concat(
            dec(n).as_str(),
        ).concat(" components."),
    );
    v.push("".to_string());
    v.push(
        "Grouped by what a component *is*, because one alphabetical table of ".to_string().concat(
            dec(n).as_str(),
        ).concat(
            " rows answered no question anybody actually asks. For what a component really imports (read out of the built wasm rather than its source), see [`docs/CAPABILITY-GRAPH.md`](../docs/CAPABILITY-GRAPH.md).",
        ),
    );
    v.push("".to_string());
    assert(strs(v@) =~= head_of(n as nat));
    v
}

fn contents_line(es: &Vec<Entry>, r: Role) -> (out: String)
    ensures
        out@ == contents_of(es@, r),
{
    let name = title(r);
    let listed = rows(es, r);
    assert(strs(listed@).len() == listed@.len());
    "- [".to_string().concat(name.as_str()).concat("](#").concat(
        slugify(name.as_str()).as_str(),
    ).concat(") — ").concat(dec(listed.len() as u64).as_str())
}

fn put_group(out: &mut Vec<String>, es: &Vec<Entry>, r: Role)
    ensures
        strs(final(out)@) == strs(old(out)@) + group_of(es@, r),
{
    let ghost first = strs(out@);
    let ghost top = seq![
        "## "@ + title_of(r),
        ""@,
        blurb_of(r),
        ""@,
        "| component | package | deps | config knobs |"@,
        "|---|---|---|---|"@,
    ];
    out.push("## ".to_string().concat(title(r).as_str()));
    out.push("".to_string());
    out.push(blurb(r));
    out.push("".to_string());
    out.push("| component | package | deps | config knobs |".to_string());
    out.push("|---|---|---|---|".to_string());
    assert(strs(out@) =~= first + top);
    let listed = rows(es, r);
    push_all(out, &listed);
    let ghost o = strs(out@);
    out.push("".to_string());
    assert(strs(out@) =~= o + seq![""@]);
    assert(group_of(es@, r) == top + rows_of(es@, r) + seq![""@]);
    assert(strs(out@) =~= first + group_of(es@, r));
}

/// The lines of the components that say what they are for.
pub fn descriptions(es: &Vec<Entry>) -> (out: Vec<String>)
    ensures
        strs(out@) == descriptions_of(es@),
{
    let mut out: Vec<String> = Vec::new();
    let mut i: usize = 0;
    assert(es@.take(0) =~= Seq::empty());
    assert(strs(out@) =~= descriptions_of(es@.take(0)));
    while i < es.len()
        invariant
            i <= es.len(),
            strs(out@) == descriptions_of(es@.take(i as int)),
        decreases es.len() - i,
    {
        assert(es@.take(i + 1).drop_last() =~= es@.take(i as int));
        assert(es@.take(i + 1).last() == es@[i as int]);
        if !es[i].description.as_str().is_empty() {
            let t = "- **".to_string().concat(es[i].name.as_str()).concat("** — ").concat(
                es[i].description.as_str(),
            );
            let ghost o = out@;
            out.push(t);
            assert(strs(out@) =~= strs(o).push(t@));
        }
        i = i + 1;
    }
    assert(es@.take(i as int) =~= es@);
    out
}

/// The catalogue for people.
pub fn page(es: &Vec<Entry>) -> (out: String)
    ensures
        out@ == join_of(page_lines(es@), "\n"@),
{
    let mut v = head(es.len() as u64);
    let ghost a = strs(v@);
    v.push(contents_line(es, Role::Capability));
    v.push(contents_line(es, Role::App));
    v.push(contents_line(es, Role::Contract));
    v.push(contents_line(es, Role::Probe));
    v.push("- [Descriptions](#descriptions) — all of them, alphabetical".to_string());
    v.push("".to_string());
    assert(strs(v@) =~= a + seq![
        contents_of(es@, Role::Capability),
        contents_of(es@, Role::App),
        contents_of(es@, Role::Contract),
        contents_of(es@, Role::Probe),
        "- [Descriptions](#descriptions) — all of them, alphabetical"@,
        ""@,
    ]);
    put_group(&mut v, es, Role::Capability);
    put_group(&mut v, es, Role::App);
    put_group(&mut v, es, Role::Contract);
    put_group(&mut v, es, Role::Probe);
    let ghost b = strs(v@);
    v.push("## Descriptions".to_string());
    v.push("".to_string());
    assert(strs(v@) =~= b + seq!["## Descriptions"@, ""@]);
    let said = descriptions(es);
    push_all(&mut v, &said);
    let ghost c = strs(v@);
    v.push("".to_string());
    assert(strs(v@) =~= c + seq![""@]);
    join(&v, "\n")
}

// --------------------------------------------------------------------- laws --

/// What an entry says of a component: the package and the exports that its interface names,
/// the first line of its documentation, what it imports beyond the standard, and whether it is
/// an application or has nothing behind its interface.
pub proof fn law_what_an_entry_says(
    e: Entry,
    name: Seq<char>,
    wit: Seq<char>,
    lib: Seq<char>,
    sources: Seq<Seq<char>>,
    i: int,
)
    requires
        entry_of(e, name, wit, lib, sources),
    ensures
        e.name@ == name,
        e.description@ == doc_from(lines_of(lib), 0),
        e.reusable_as_is <==> !("-domain"@.is_suffix_of(name) || app_names().contains(name)),
        e.unimplemented <==> holds(lib, "UNIMPLEMENTED:"@),
        e.exports@.len() == matches_of("(?m)^\\s*export\\s+([^;]+);"@, wit).len(),
        0 <= i < e.exports@.len() ==> e.exports@[i]@ == trim_of(
            group(matches_of("(?m)^\\s*export\\s+([^;]+);"@, wit)[i], 1),
        ),
        matches_of("(?m)^package\\s+([^;]+);"@, wit).len() > 0 ==> e.package@ == trim_of(
            group(matches_of("(?m)^package\\s+([^;]+);"@, wit)[0], 1),
        ),
        e.config_keys@.len() > 0 ==> exists|k: int|
            0 <= k < e.capability_deps@.len() && "wasi:config"@.is_prefix_of(
                (#[trigger] e.capability_deps@[k])@,
            ),
{
    if 0 <= i < e.exports@.len() {
        assert(strs(e.exports@)[i] == e.exports@[i]@);
    }
    assert(strs(e.exports@).len() == e.exports@.len());
    assert(key_views(e.config_keys@).len() == e.config_keys@.len());
    if e.config_keys@.len() > 0 {
        let ds = strs(e.capability_deps@);
        assert(configured(ds));
        let k = choose|k: int| 0 <= k < ds.len() && "wasi:config"@.is_prefix_of(#[trigger] ds[k]);
        assert(ds[k] == e.capability_deps@[k]@);
    }
}

/// What a component needs is what it imports and the platform does not give it anyway.
pub proof fn law_what_a_component_needs(imports: Seq<Seq<char>>, n: Seq<char>)
    ensures
        needs_of(imports).contains(n) <==> imports.contains(n) && matches_of(
            "^wasi:(clocks|random|io|cli|filesystem|sockets)/"@,
            n,
        ).len() == 0,
    decreases imports.len(),
{
    let ours = |i: Seq<char>| !standard(i);
    reveal(Seq::filter);
    if imports.len() > 0 {
        let p = imports.drop_last();
        law_what_a_component_needs(p, n);
        let (earlier, now) = (p.filter(ours), imports.filter(ours));
        if p.contains(n) {
            let i = choose|i: int| 0 <= i < p.len() && p[i] == n;
            assert(imports[i] == n);
        }
        if imports.contains(n) && imports.last() != n {
            let i = choose|i: int| 0 <= i < imports.len() && imports[i] == n;
            assert(p[i] == n);
        }
        assert(imports[imports.len() - 1] == imports.last());
        if earlier.contains(n) {
            let k = choose|k: int| 0 <= k < earlier.len() && earlier[k] == n;
            assert(now[k] == n);
        }
        if ours(imports.last()) {
            assert(now == earlier.push(imports.last()));
            assert(now[earlier.len() as int] == imports.last());
        }
        if now.contains(n) && !earlier.contains(n) {
            let k = choose|k: int| 0 <= k < now.len() && now[k] == n;
            if k < earlier.len() {
                assert(earlier[k] == n);
            }
        }
    }
}

/// A knob keeps what was first said of it; one that is new is put behind the others.
pub proof fn law_a_knob_keeps_its_first_words(
    ks: Seq<(Seq<char>, Seq<char>)>,
    name: Seq<char>,
    about: Seq<char>,
)
    ensures
        ks.is_prefix_of(with_key(ks, name, about)),
        has_key(ks, name) ==> with_key(ks, name, about) == ks,
        !has_key(ks, name) ==> with_key(ks, name, about).len() == ks.len() + 1 && with_key(
            ks,
            name,
            about,
        ).last() == (name, about),
{
    assert(ks.push((name, about)).subrange(0, ks.len() as int) =~= ks);
    assert(ks.subrange(0, ks.len() as int) =~= ks);
}

/// A component has one role: a contract where nothing is behind its interface, else an
/// application where it is one, else a probe where it is named as one, else a capability.
pub proof fn law_which_role_a_component_has(e: Entry)
    ensures
        role_of(e) == Role::Contract <==> e.unimplemented,
        role_of(e) == Role::App <==> !e.unimplemented && !e.reusable_as_is,
        role_of(e) == Role::Probe <==> !e.unimplemented && e.reusable_as_is && (
        "-probe"@.is_suffix_of(e.name@) || probe_names().contains(e.name@)),
        role_of(e) == Role::Capability <==> !e.unimplemented && e.reusable_as_is && !(
        "-probe"@.is_suffix_of(e.name@) || probe_names().contains(e.name@)),
{
}

/// A component stands in the table of its own role, as its own row, and in no other.
pub proof fn law_a_component_stands_under_its_role(es: Seq<Entry>, i: int)
    requires
        0 <= i < es.len(),
    ensures
        rows_of(es, role_of(es[i])).contains(row_of(es[i])),
    decreases es.len(),
{
    let r = role_of(es[i]);
    let earlier = rows_of(es.drop_last(), r);
    if i < es.len() - 1 {
        law_a_component_stands_under_its_role(es.drop_last(), i);
        let k = choose|k: int| 0 <= k < earlier.len() && earlier[k] == row_of(es[i]);
        assert(rows_of(es, r)[k] == row_of(es[i]));
    } else {
        assert(rows_of(es, r)[earlier.len() as int] == row_of(es[i]));
    }
}

/// Every component that says something of itself is described, by its own name and in its own
/// words.
pub proof fn law_what_is_said_is_listed(es: Seq<Entry>, i: int)
    requires
        0 <= i < es.len(),
        es[i].description@.len() > 0,
    ensures
        descriptions_of(es).contains("- **"@ + es[i].name@ + "** — "@ + es[i].description@),
    decreases es.len(),
{
    let line = "- **"@ + es[i].name@ + "** — "@ + es[i].description@;
    let earlier = descriptions_of(es.drop_last());
    if i < es.len() - 1 {
        law_what_is_said_is_listed(es.drop_last(), i);
        let k = choose|k: int| 0 <= k < earlier.len() && earlier[k] == line;
        assert(descriptions_of(es)[k] == line);
    } else {
        assert(descriptions_of(es)[earlier.len() as int] == line);
    }
}

/// What a component says of itself is its first line of documentation that says anything,
/// without its full stop; code before any such line means that it says nothing.
pub proof fn law_the_first_line_that_says_anything(ls: Seq<Seq<char>>, i: int)
    requires
        0 <= i < ls.len(),
    ensures
        ({
            let line = trim_of(ls[i]);
            let doc = after_prefix(line, "//!"@);
            &&& doc is Some && trim_of(doc->0).len() > 0 ==> doc_from(ls, i) == trim_end_char_of(
                trim_of(doc->0),
                '.',
            )
            &&& doc is Some && trim_of(doc->0).len() == 0 ==> doc_from(ls, i) == doc_from(ls, i + 1)
            &&& doc is None && line.len() > 0 && !"//"@.is_prefix_of(line) ==> doc_from(ls, i).len()
                == 0
            &&& doc is None && (line.len() == 0 || "//"@.is_prefix_of(line)) ==> doc_from(ls, i)
                == doc_from(ls, i + 1)
        }),
{
}

/// A row of the catalogue names the component, its package, what it depends on and its knobs,
/// each in its own column.
pub proof fn law_a_row_says_what_its_entry_does(e: Entry)
    ensures
        holds(row_of(e), "| **"@ + e.name@ + "** | `"@),
        holds(row_of(e), "** | `"@ + e.package@ + "` | "@),
        holds(row_of(e), "` | "@ + badges(strs(e.capability_deps@)) + " | "@),
        holds(row_of(e), " | "@ + knobs_of(e.config_keys@) + " |"@),
{
    let c0 = "| **"@;
    let c1 = e.name@;
    let c2 = "** | `"@;
    let c3 = e.package@;
    let c4 = "` | "@;
    let c5 = badges(strs(e.capability_deps@));
    let c6 = " | "@;
    let c7 = knobs_of(e.config_keys@);
    let c8 = " |"@;
    let s0 = c0;
    let s1 = s0 + c1;
    let s2 = s1 + c2;
    let s3 = s2 + c3;
    let s4 = s3 + c4;
    let s5 = s4 + c5;
    let s6 = s5 + c6;
    let s7 = s6 + c7;
    let s8 = s7 + c8;
    lemma_holds_itself(s2);
    lemma_holds_longer(s2, s2, c3);
    lemma_holds_longer(s3, s2, c4);
    lemma_holds_longer(s4, s2, c5);
    lemma_holds_longer(s5, s2, c6);
    lemma_holds_longer(s6, s2, c7);
    lemma_holds_longer(s7, s2, c8);
    lemma_assoc(s1, c2, c3);
    lemma_assoc(s1, c2 + c3, c4);
    lemma_holds_end(s1, c2 + c3 + c4);
    lemma_holds_longer(s4, c2 + c3 + c4, c5);
    lemma_holds_longer(s5, c2 + c3 + c4, c6);
    lemma_holds_longer(s6, c2 + c3 + c4, c7);
    lemma_holds_longer(s7, c2 + c3 + c4, c8);
    lemma_assoc(s3, c4, c5);
    lemma_assoc(s3, c4 + c5, c6);
    lemma_holds_end(s3, c4 + c5 + c6);
    lemma_holds_longer(s6, c4 + c5 + c6, c7);
    lemma_holds_longer(s7, c4 + c5 + c6, c8);
    lemma_assoc(s5, c6, c7);
    lemma_assoc(s5, c6 + c7, c8);
    lemma_holds_end(s5, c6 + c7 + c8);
}

/// The contents name each role, link to it, and count its components.
pub proof fn law_the_contents_count_each_role(es: Seq<Entry>, r: Role)
    ensures
        holds(contents_of(es, r), "- ["@ + title_of(r) + "](#"@),
        holds(contents_of(es, r), "](#"@ + slug_of(title_of(r)) + ") — "@),
        holds(contents_of(es, r), ") — "@ + dec_of(rows_of(es, r).len())),
{
    let c0 = "- ["@;
    let c1 = title_of(r);
    let c2 = "](#"@;
    let c3 = slug_of(title_of(r));
    let c4 = ") — "@;
    let c5 = dec_of(rows_of(es, r).len());
    let s0 = c0;
    let s1 = s0 + c1;
    let s2 = s1 + c2;
    let s3 = s2 + c3;
    let s4 = s3 + c4;
    let s5 = s4 + c5;
    lemma_holds_itself(s2);
    lemma_holds_longer(s2, s2, c3);
    lemma_holds_longer(s3, s2, c4);
    lemma_holds_longer(s4, s2, c5);
    lemma_assoc(s1, c2, c3);
    lemma_assoc(s1, c2 + c3, c4);
    lemma_holds_end(s1, c2 + c3 + c4);
    lemma_holds_longer(s4, c2 + c3 + c4, c5);
    lemma_assoc(s3, c4, c5);
    lemma_holds_end(s3, c4 + c5);
}

/// The page heads with how many components there are, and then tells each role in its turn: its
/// title, its table and every component under it, and the descriptions last.
pub proof fn law_a_group_tells_its_components(es: Seq<Entry>, r: Role, i: int)
    ensures
        group_of(es, r)[0] == "## "@ + title_of(r),
        group_of(es, r)[2] == blurb_of(r),
        group_of(es, r).len() == rows_of(es, r).len() + 7,
        0 <= i < rows_of(es, r).len() ==> group_of(es, r)[6 + i] == rows_of(es, r)[i],
        page_lines(es).len() == 6 + 6 + group_of(es, Role::Capability).len() + group_of(
            es,
            Role::App,
        ).len() + group_of(es, Role::Contract).len() + group_of(es, Role::Probe).len() + 2
            + descriptions_of(es).len() + 1,
        page_lines(es)[6] == contents_of(es, Role::Capability),
        page_lines(es)[7] == contents_of(es, Role::App),
        page_lines(es)[8] == contents_of(es, Role::Contract),
        page_lines(es)[9] == contents_of(es, Role::Probe),
        0 <= i < group_of(es, Role::Capability).len() ==> page_lines(es)[12 + i] == group_of(
            es,
            Role::Capability,
        )[i],
        page_lines(es)[2] == "Generated by `comp-catalog` — do not edit by hand. "@ + dec_of(es.len())
            + " components."@,
{
}

/// Each role has a title of its own.
pub proof fn law_each_role_has_its_title(r: Role)
    ensures
        r == Role::Capability ==> title_of(r) == "Capabilities — reusable as-is"@,
        r == Role::App ==> title_of(r) == "Applications and demos — not reusable as-is"@,
        r == Role::Contract ==> title_of(r) == "Contract only — no implementation behind the WIT"@,
        r == Role::Probe ==> title_of(r) == "Probes — test harnesses"@,
{
}

/// What a document says of a knob comes from the document; one that is only called for is listed
/// without words.
pub proof fn law_what_is_said_of_a_knob(
    ks: Seq<(Seq<char>, Seq<char>)>,
    ms: Seq<Seq<Seq<char>>>,
    m: Seq<Seq<char>>,
)
    requires
        m.len() > 2,
    ensures
        with_documented(ks, ms.push(m)) == with_key(with_documented(ks, ms), m[1], trim_of(m[2])),
        with_called(ks, ms.push(m)) == with_key(with_called(ks, ms), m[1], Seq::empty()),
{
    assert(ms.push(m).drop_last() =~= ms);
}

/// A dependency's version is no part of its name.
pub proof fn law_a_version_is_no_part_of_a_name(v: Seq<Seq<char>>, i: int)
    requires
        0 <= i < v.len(),
    ensures
        unversioned(v).len() == v.len(),
        !v[i].contains('@') ==> unversioned(v)[i] == v[i],
        forall|name: Seq<char>, version: Seq<char>|
            v[i] == (#[trigger] (name.push('@') + version)) && !name.contains('@') ==> unversioned(
                v,
            )[i] == name,
{
    crate::text::lemma_next(v[i], '@', 0);
    let k = crate::text::next_at(v[i], '@', 0);
    if !v[i].contains('@') {
        assert(k == v[i].len()) by {
            if k < v[i].len() {
                assert(v[i][k] == '@');
            }
        }
        assert(v[i].take(k) =~= v[i]);
    }
    assert forall|name: Seq<char>, version: Seq<char>|
        v[i] == (#[trigger] (name.push('@') + version)) && !name.contains('@') implies unversioned(
        v,
    )[i] == name by {
        crate::text::lemma_read_back(name, '@', version);
    }
}

} // verus!
