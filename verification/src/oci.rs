//! Components in a registry: where each goes, which files are meant, and what a reference
//! names.

use vstd::prelude::*;
use vstd::string::*;

use crate::number::{dec, dec_of};
use crate::order::{sorted_set, sorted_set_of};
use crate::path::{extension, extension_of, stem, stem_of};
use crate::text::{join, join_of, replace_char, replace_char_of, same, split_once, split_once_of, strs};

verus! {

/// The host of a registry, and the prefix that every component's name goes under.
pub open spec fn registry_of(registry: Seq<char>) -> (Seq<char>, Seq<char>) {
    match split_once_of(registry, '/') {
        Some(p) => p,
        None => (registry, Seq::empty()),
    }
}

/// The host of a registry, and the prefix under it.
pub fn split_registry(registry: &str) -> (r: (String, String))
    ensures
        (r.0@, r.1@) == registry_of(registry@),
{
    match split_once(registry, '/') {
        Some(p) => p,
        None => {
            let e = String::new();
            assert(e@ =~= Seq::<char>::empty());
            (registry.to_string(), e)
        },
    }
}

/// Where a component goes under a prefix.
pub open spec fn repo_of(prefix: Seq<char>, name: Seq<char>) -> Seq<char> {
    if prefix.len() == 0 {
        name
    } else {
        prefix + "/"@ + name
    }
}

/// Where a component goes under a prefix.
pub fn repo_for(prefix: &str, name: &str) -> (out: String)
    ensures
        out@ == repo_of(prefix@, name@),
{
    if prefix.is_empty() {
        name.to_string()
    } else {
        prefix.to_string().concat("/").concat(name)
    }
}

/// Where the registry answers.
pub fn base_url(scheme: &str, host: &str) -> (out: String)
    ensures
        out@ == scheme@ + "://"@ + host@,
{
    scheme.to_string().concat("://").concat(host)
}

/// The name and the tag or digest of a reference. A digest comes first, for it holds a
/// colon itself; a bare name is its latest.
pub open spec fn reference_of(reference: Seq<char>) -> (Seq<char>, Seq<char>) {
    match split_once_of(reference, '@') {
        Some(p) => p,
        None => match split_once_of(reference, ':') {
            Some(p) => p,
            None => (reference, "latest"@),
        },
    }
}

/// The name and the tag or digest of a reference.
pub fn split_reference(reference: &str) -> (r: (String, String))
    ensures
        (r.0@, r.1@) == reference_of(reference@),
{
    match split_once(reference, '@') {
        Some(p) => p,
        None => match split_once(reference, ':') {
            Some(p) => p,
            None => (reference.to_string(), "latest".to_string()),
        },
    }
}

proof fn lemma_first_split(name: Seq<char>, c: char, rest: Seq<char>)
    requires
        !name.contains(c),
    ensures
        split_once_of(name + seq![c] + rest, c) == Some((name, rest)),
{
    let s = name + seq![c] + rest;
    assert(s[name.len() as int] == c);
    crate::text::lemma_next(s, c, 0);
    let at = crate::text::next_at(s, c, 0);
    if at < name.len() {
        assert(name[at] == c);
        assert(name.contains(c));
    }
    if at > name.len() {
        assert(s[name.len() as int] != c);
    }
    assert(s.take(at) =~= name);
    assert(s.skip(at + 1) =~= rest);
}

/// A digest is read whole, although it holds a colon.
pub proof fn law_a_digest_is_read_whole(name: Seq<char>, digest: Seq<char>)
    requires
        !name.contains('@'),
    ensures
        reference_of(name + seq!['@'] + digest) == (name, digest),
{
    lemma_first_split(name, '@', digest);
}

/// A path that was named, and what is there.
pub enum Named {
    /// A directory, and the paths directly inside it.
    Directory(Vec<String>),
    /// A file.
    File(String),
    /// Nothing.
    Missing(String),
}

/// A path ends as a component does.
pub open spec fn wasm(path: Seq<char>) -> bool {
    extension_of(path) == Some("wasm"@)
}

/// The components among some paths.
pub open spec fn wasms(paths: Seq<Seq<char>>) -> Seq<Seq<char>> {
    paths.filter(|p: Seq<char>| wasm(p))
}

/// The files that one named path stands for: a file is itself, a directory is the
/// components directly inside it, in order.
pub open spec fn files_of(n: Named, out: Seq<Seq<char>>) -> bool {
    match n {
        Named::Directory(inside) => sorted_set_of(out, wasms(strs(inside@))),
        Named::File(p) => out == seq![p@],
        Named::Missing(p) => false,
    }
}

/// The files that some named paths stand for, path by path.
pub open spec fn all_files(ns: Seq<Named>, out: Seq<Seq<char>>) -> bool
    decreases ns.len(),
{
    if ns.len() == 0 {
        out.len() == 0
    } else {
        exists|k: int|
            0 <= k <= out.len() && all_files(ns.drop_last(), #[trigger] out.take(k)) && files_of(
                ns.last(),
                out.skip(k),
            )
    }
}

/// The first path that is not there.
pub open spec fn first_missing(ns: Seq<Named>) -> Option<Seq<char>>
    decreases ns.len(),
{
    if ns.len() == 0 {
        None
    } else {
        match first_missing(ns.drop_last()) {
            Some(p) => Some(p),
            None => match ns.last() {
                Named::Missing(p) => Some(p@),
                _ => None,
            },
        }
    }
}

fn keep_wasm(paths: &Vec<String>) -> (out: Vec<String>)
    ensures
        strs(out@) == wasms(strs(paths@)),
{
    let ghost all = strs(paths@);
    let ghost keep = |p: Seq<char>| wasm(p);
    let mut out: Vec<String> = Vec::new();
    let mut i: usize = 0;
    assert(strs(out@) =~= all.take(0).filter(keep)) by {
        reveal(Seq::filter);
    }
    while i < paths.len()
        invariant
            i <= paths.len(),
            all == strs(paths@),
            keep == (|p: Seq<char>| wasm(p)),
            strs(out@) == all.take(i as int).filter(keep),
        decreases paths.len() - i,
    {
        proof {
            assert(all.take(i + 1).drop_last() =~= all.take(i as int));
            assert(all.take(i + 1).last() == paths@[i as int]@);
            reveal(Seq::filter);
        }
        let is = match extension(paths[i].as_str()) {
            Some(e) => same(e.as_str(), "wasm"),
            None => false,
        };
        assert(is == wasm(paths@[i as int]@));
        if is {
            let ghost o = out@;
            out.push(paths[i].clone());
            assert(strs(out@) =~= strs(o).push(paths@[i as int]@));
        }
        i = i + 1;
    }
    assert(all.take(i as int) =~= all);
    out
}

proof fn lemma_extend(ns: Seq<Named>, out: Seq<Seq<char>>, more: Seq<Seq<char>>)
    requires
        ns.len() > 0,
        all_files(ns.drop_last(), out),
        files_of(ns.last(), more),
    ensures
        all_files(ns, out + more),
{
    let k = out.len() as int;
    assert((out + more).take(k) =~= out);
    assert((out + more).skip(k) =~= more);
}

/// The files to push: what each named path stands for. A path that is not there is
/// refused, and so is a push of nothing.
pub fn wasm_files(ns: &Vec<Named>) -> (r: Result<Vec<String>, String>)
    ensures
        r matches Ok(v) ==> first_missing(ns@) is None && v@.len() > 0 && all_files(
            ns@,
            strs(v@),
        ),
        r matches Err(e) ==> (match first_missing(ns@) {
            Some(p) => e@ == "no such path: "@ + p,
            None => e@ == "nothing to push"@ && all_files(ns@, Seq::empty()),
        }),
{
    let mut out: Vec<String> = Vec::new();
    let mut i: usize = 0;
    assert(ns@.take(0) =~= Seq::empty());
    assert(strs(out@) =~= Seq::empty());
    while i < ns.len()
        invariant
            i <= ns.len(),
            first_missing(ns@.take(i as int)) is None,
            all_files(ns@.take(i as int), strs(out@)),
        decreases ns.len() - i,
    {
        let ghost shorter = ns@.take(i as int);
        let ghost longer = ns@.take(i + 1);
        assert(longer.drop_last() =~= shorter);
        assert(longer.last() == ns@[i as int]);
        let ghost o = strs(out@);
        match &ns[i] {
            Named::Directory(inside) => {
                let kept = keep_wasm(inside);
                let mut here = sorted_set(&kept);
                let ghost hs = here@;
                let ghost os = out@;
                out.append(&mut here);
                assert(out@ =~= os + hs);
                assert(strs(out@) =~= o + strs(hs));
                proof {
                    lemma_extend(longer, o, strs(hs));
                }
            },
            Named::File(p) => {
                out.push(p.clone());
                assert(strs(out@) =~= o + seq![p@]);
                proof {
                    lemma_extend(longer, o, seq![p@]);
                }
            },
            Named::Missing(p) => {
                proof {
                    lemma_missing_stays(ns@, i + 1);
                }
                return Err("no such path: ".to_string().concat(p.as_str()));
            },
        }
        i = i + 1;
    }
    assert(ns@.take(i as int) =~= ns@);
    if out.len() == 0 {
        assert(strs(out@) =~= Seq::empty());
        return Err("nothing to push".to_string());
    }
    Ok(out)
}

proof fn lemma_missing_stays(ns: Seq<Named>, i: int)
    requires
        0 <= i <= ns.len(),
        first_missing(ns.take(i)) is Some,
    ensures
        first_missing(ns) == first_missing(ns.take(i)),
    decreases ns.len() - i,
{
    if i < ns.len() {
        assert(ns.take(i + 1).drop_last() =~= ns.take(i));
        lemma_missing_stays(ns, i + 1);
    } else {
        assert(ns.take(i) =~= ns);
    }
}

/// The name of a component, from the file that was built: a registry reads better with
/// dashes.
pub open spec fn component_of(path: Seq<char>) -> Option<Seq<char>> {
    match stem_of(path) {
        Some(s) => Some(replace_char_of(s, '_', "-"@)),
        None => None,
    }
}

/// The name of a component, from the file that was built.
pub fn component_name(path: &str) -> (r: Option<String>)
    ensures
        (match r {
            Some(s) => Some(s@),
            None => None,
        }) == component_of(path@),
{
    match stem(path) {
        Some(s) => Some(replace_char(s.as_str(), '_', "-")),
        None => None,
    }
}

/// What is told of a push.
pub fn pushed(name: &str, digest: &str, bytes: u64) -> (out: String)
    ensures
        out@ == name@ + " "@ + digest@ + " ("@ + dec_of((bytes / 1024) as nat) + " KB)"@,
{
    name.to_string().concat(" ").concat(digest).concat(" (").concat(
        dec(bytes / 1024).as_str(),
    ).concat(" KB)")
}

/// The lines of a lock file, one for each component.
pub open spec fn lock_lines(ps: Seq<(String, String)>) -> Seq<Seq<char>> {
    ps.map_values(|p: (String, String)| p.0@ + " "@ + p.1@)
}

/// The text of a lock file: the name and the digest of each component that was pushed.
pub fn lock_text(ps: &Vec<(String, String)>) -> (out: String)
    ensures
        out@ == join_of(lock_lines(ps@), "\n"@) + "\n"@,
{
    let ghost want = lock_lines(ps@);
    let mut v: Vec<String> = Vec::new();
    let mut i: usize = 0;
    assert(strs(v@) =~= want.take(0));
    while i < ps.len()
        invariant
            i <= ps.len(),
            want == lock_lines(ps@),
            strs(v@) == want.take(i as int),
        decreases ps.len() - i,
    {
        let t = ps[i].0.clone().concat(" ").concat(ps[i].1.as_str());
        let ghost o = v@;
        v.push(t);
        assert(strs(v@) =~= strs(o).push(t@));
        assert(want.take(i + 1) =~= want.take(i as int).push(want[i as int]));
        i = i + 1;
    }
    assert(want.take(i as int) =~= want);
    join(&v, "\n").concat("\n")
}

/// What is told of a pull.
pub fn pulled(out_path: &str, repo: &str, reference: &str, bytes: u64, digest: &str) -> (out:
    String)
    ensures
        out@ == out_path@ + " <- "@ + repo@ + ":"@ + reference@ + " ("@ + dec_of(
            (bytes / 1024) as nat,
        ) + " KB, "@ + digest@ + ")"@,
{
    out_path.to_string().concat(" <- ").concat(repo).concat(":").concat(reference).concat(
        " (",
    ).concat(dec(bytes / 1024).as_str()).concat(" KB, ").concat(digest).concat(")")
}

/// A registry is its host and what stands behind the first slash; a component's repository is
/// its name below that.
pub proof fn law_a_registry_is_a_host_and_a_prefix(host: Seq<char>, prefix: Seq<char>, name: Seq<char>)
    requires
        !host.contains('/'),
    ensures
        registry_of(host + seq!['/'] + prefix) == (host, prefix),
        registry_of(host) == (host, Seq::<char>::empty()),
        prefix.len() > 0 ==> repo_of(prefix, name) == prefix + "/"@ + name,
        prefix.len() == 0 ==> repo_of(prefix, name) == name,
{
    let s = host + seq!['/'] + prefix;
    assert(s =~= host.push('/') + prefix);
    crate::text::lemma_read_back(host, '/', prefix);
    crate::text::lemma_next(s, '/', 0);
    let k = crate::text::next_at(s, '/', 0);
    assert(s[host.len() as int] == '/');
    assert(s.take(k) == host);
    assert(k == host.len());
    assert(s.skip(k + 1) =~= prefix);
    crate::text::lemma_next(host, '/', 0);
    let j = crate::text::next_at(host, '/', 0);
    if j < host.len() {
        assert(host[j] == '/');
    }
}

/// A name with a tag is read as the two; a bare name means the latest.
pub proof fn law_a_tag_is_read_behind_the_name(name: Seq<char>, tag: Seq<char>)
    requires
        !name.contains('@'),
        !name.contains(':'),
        !tag.contains('@'),
    ensures
        reference_of(name + seq![':'] + tag) == (name, tag),
        reference_of(name) == (name, "latest"@),
{
    let s = name + seq![':'] + tag;
    crate::text::lemma_next(s, '@', 0);
    let at = crate::text::next_at(s, '@', 0);
    if at < s.len() {
        if at < name.len() {
            assert(name[at] == '@');
        } else if at > name.len() {
            assert(tag[at - name.len() - 1] == '@');
        }
    }
    assert(s =~= name.push(':') + tag);
    crate::text::lemma_read_back(name, ':', tag);
    crate::text::lemma_next(s, ':', 0);
    let k = crate::text::next_at(s, ':', 0);
    assert(s[name.len() as int] == ':');
    assert(s.take(k) == name);
    assert(k == name.len());
    assert(s.skip(k + 1) =~= tag);
    crate::text::lemma_next(name, '@', 0);
    crate::text::lemma_next(name, ':', 0);
    let i = crate::text::next_at(name, '@', 0);
    if i < name.len() {
        assert(name[i] == '@');
    }
    let j = crate::text::next_at(name, ':', 0);
    if j < name.len() {
        assert(name[j] == ':');
    }
}

/// A lock has a line for each that was pushed, in their order: its name and then its digest.
pub proof fn law_a_lock_names_each_and_its_digest(ps: Seq<(String, String)>, i: int)
    requires
        0 <= i < ps.len(),
    ensures
        lock_lines(ps).len() == ps.len(),
        lock_lines(ps)[i] == ps[i].0@ + " "@ + ps[i].1@,
{
}

/// The first thing that is missing is named.
pub proof fn law_the_first_missing_thing_is_named(ns: Seq<Named>, n: Named)
    ensures
        first_missing(ns) is Some ==> first_missing(ns.push(n)) == first_missing(ns),
        first_missing(ns) is None && n is Missing ==> first_missing(ns.push(n)) == Some(n->Missing_0@),
        first_missing(ns) is None && !(n is Missing) ==> first_missing(ns.push(n)) is None,
{
    assert(ns.push(n).drop_last() =~= ns);
}

/// What is pushed of a name: a file itself; of a directory the components in it, each once and
/// in order.
pub proof fn law_what_is_pushed_of_a_name(n: Named, out: Seq<Seq<char>>)
    ensures
        n is File ==> (files_of(n, out) <==> out == seq![n->File_0@]),
        n is Directory ==> (files_of(n, out) <==> sorted_set_of(
            out,
            strs(n->Directory_0@).filter(|p: Seq<char>| wasm(p)),
        )),
        n is Missing ==> !files_of(n, out),
        forall|p: Seq<char>| #[trigger] wasm(p) <==> extension_of(p) == Some("wasm"@),
        forall|p: Seq<char>|
            (#[trigger] component_of(p)) matches Some(c) ==> stem_of(p) is Some && c
                == replace_char_of(stem_of(p)->0, '_', "-"@),
{
}

} // verus!
