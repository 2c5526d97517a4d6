//! Keeping the apps of one box at the digests that a published lock names.

use vstd::prelude::*;
use vstd::string::*;

use crate::goal::spec::opt_text;
use crate::number::{number_of, parse_u64};
use crate::text::{chars_of, lines, lines_of, rsplit_once, rsplit_once_of, same, starts_with, strs, trim, trim_of, words, words_of};
use crate::text_map::TextMap;

verus! {

/// What a lock asks for.
#[derive(Debug, PartialEq, Eq)]
pub struct Desired {
    pub registry: String,
    /// `https` unless the lock says otherwise.
    pub scheme: String,
    pub digests: TextMap<String>,
}

/// What a lock says.
#[verifier::ext_equal]
pub struct Lock {
    pub registry: Seq<char>,
    pub scheme: Seq<char>,
    pub digests: Map<Seq<char>, Seq<char>>,
}

impl View for Desired {
    type V = Lock;

    open spec fn view(&self) -> Lock {
        Lock {
            registry: self.registry@,
            scheme: self.scheme@,
            digests: self.digests@.map_values(|s: String| s@),
        }
    }
}

/// A lock with one more line: a blank one, a comment and a single word say nothing;
/// `registry` and `scheme` set those; any other word is an app and its digest.
pub open spec fn with_line(lock: Lock, line: Seq<char>) -> Lock {
    let t = trim_of(line);
    let ws = words_of(t);
    if t.len() == 0 || t[0] == '#' || ws.len() < 2 {
        lock
    } else if ws[0] == "registry"@ {
        Lock { registry: ws[1], scheme: lock.scheme, digests: lock.digests }
    } else if ws[0] == "scheme"@ {
        Lock { registry: lock.registry, scheme: ws[1], digests: lock.digests }
    } else {
        Lock {
            registry: lock.registry,
            scheme: lock.scheme,
            digests: lock.digests.insert(ws[0], ws[1]),
        }
    }
}

/// The lock that the lines write, the later line winning.
pub open spec fn lock_of(ls: Seq<Seq<char>>) -> Lock
    decreases ls.len(),
{
    if ls.len() == 0 {
        Lock { registry: Seq::empty(), scheme: "https"@, digests: Map::empty() }
    } else {
        with_line(lock_of(ls.drop_last()), ls.last())
    }
}

/// Read a lock: `# comment`, `registry <ref>`, optionally `scheme http`, then
/// `<app> <digest>` a line.
pub fn parse_lock(text: &str) -> (d: Desired)
    ensures
        d@ == lock_of(lines_of(text@)),
        d.digests.wf(),
{
    let all = lines(text);
    let ghost ls = strs(all@);
    let mut d = Desired {
        registry: String::new(),
        scheme: "https".to_string(),
        digests: TextMap::new(),
    };
    let mut i: usize = 0;
    assert(d@ =~= lock_of(ls.take(0)));
    while i < all.len()
        invariant
            i <= all.len(),
            ls == strs(all@),
            d@ == lock_of(ls.take(i as int)),
            d.digests.wf(),
        decreases all.len() - i,
    {
        let line = trim(all[i].as_str());
        let cs = chars_of(line.as_str());
        let ghost before = d@;
        proof {
            assert(ls.take(i + 1).drop_last() =~= ls.take(i as int));
            assert(ls[i as int] == all[i as int]@);
        }
        if cs.len() > 0 && cs[0] != '#' {
            let ws = words(line.as_str());
            assert(strs(ws@) == words_of(line@));
            if ws.len() >= 2 {
                assert(words_of(line@)[0] == ws[0]@ && words_of(line@)[1] == ws[1]@);
                if same(ws[0].as_str(), "registry") {
                    d.registry = ws[1].clone();
                } else if same(ws[0].as_str(), "scheme") {
                    d.scheme = ws[1].clone();
                } else {
                    let ghost m = d.digests@;
                    d.digests.insert(ws[0].clone(), ws[1].clone());
                    assert(m.insert(ws[0]@, ws[1]).map_values(|s: String| s@) =~= m.map_values(
                        |s: String| s@,
                    ).insert(ws[0]@, ws[1]@));
                }
            }
        }
        assert(d@ =~= with_line(before, all[i as int]@));
        i = i + 1;
    }
    assert(ls.take(i as int) =~= ls);
    d
}

/// A lock without a line that names an app asks for nothing.
pub proof fn law_an_empty_lock_asks_for_nothing(ls: Seq<Seq<char>>)
    requires
        forall|i: int|
            0 <= i < ls.len() ==> trim_of(#[trigger] ls[i]).len() == 0 || trim_of(ls[i])[0] == '#',
    ensures
        lock_of(ls).digests == Map::<Seq<char>, Seq<char>>::empty(),
    decreases ls.len(),
{
    if ls.len() > 0 {
        let p = ls.drop_last();
        assert forall|i: int| 0 <= i < p.len() implies trim_of(#[trigger] p[i]).len() == 0
            || trim_of(p[i])[0] == '#' by {
            assert(p[i] == ls[i]);
        }
        law_an_empty_lock_asks_for_nothing(p);
        assert(ls[ls.len() - 1] == ls.last());
    }
}

// ---------------------------------------------------------------- fetching --

/// What a fetch came to: the lock's text, or why there is none. The tool prints the
/// body, a line break and the status.
pub open spec fn fetched_text(
    success: bool,
    stdout: Seq<char>,
    stderr: Seq<char>,
    url: Seq<char>,
) -> Result<Seq<char>, Seq<char>> {
    let (body, code) = match rsplit_once_of(stdout, '\n') {
        Some(p) => p,
        None => (Seq::empty(), "000"@),
    };
    if !success {
        Err("fetching "@ + url + ": "@ + trim_of(stderr))
    } else if code == "200"@ {
        Ok(body)
    } else if code == "404"@ {
        Err(
            "no lock at "@ + url
                + " yet (404) — nothing has been published; the publish-apps workflow writes it on the first merge to main"@,
        )
    } else {
        Err("fetching "@ + url + ": HTTP "@ + code)
    }
}

/// What a fetch came to.
pub fn fetch(success: bool, stdout: &str, stderr: &str, url: &str) -> (r: Result<String, String>)
    ensures
        r matches Ok(t) ==> fetched_text(success, stdout@, stderr@, url@) == Ok::<
            Seq<char>,
            Seq<char>,
        >(t@),
        r matches Err(e) ==> fetched_text(success, stdout@, stderr@, url@) == Err::<
            Seq<char>,
            Seq<char>,
        >(e@),
{
    let (body, code) = match rsplit_once(stdout, '\n') {
        Some(p) => p,
        None => (String::new(), "000".to_string()),
    };
    if !success {
        let why = trim(stderr);
        return Err("fetching ".to_string().concat(url).concat(": ").concat(why.as_str()));
    }
    if same(code.as_str(), "200") {
        Ok(body)
    } else if same(code.as_str(), "404") {
        Err(
            "no lock at ".to_string().concat(url).concat(
                " yet (404) — nothing has been published; the publish-apps workflow writes it on the first merge to main",
            ),
        )
    } else {
        Err("fetching ".to_string().concat(url).concat(": HTTP ").concat(code.as_str()))
    }
}

// ---------------------------------------------------------------- sweeping --

/// Where an app lives. A name that is itself a path from the root stands for that
/// path.
pub open spec fn dir_of(app: Seq<char>) -> Seq<char> {
    if "/"@.is_prefix_of(app) {
        app
    } else {
        "/srv/comp/"@ + app
    }
}

/// Where an app lives.
pub fn app_dir(app: &str) -> (out: String)
    ensures
        out@ == dir_of(app@),
{
    if starts_with(app, "/") {
        app.to_string()
    } else {
        "/srv/comp/".to_string().concat(app)
    }
}

/// The app is on this box and is not at the digest.
pub open spec fn due(present: bool, installed: Option<Seq<char>>, digest: Seq<char>) -> bool {
    present && installed != Some(digest)
}

/// The entries of a lock that are due, in their order.
pub open spec fn due_entries(
    listed: Seq<(Seq<char>, String)>,
    present: Seq<bool>,
    installed: Seq<Option<Seq<char>>>,
    n: int,
) -> Seq<int>
    decreases n,
{
    if n <= 0 {
        Seq::empty()
    } else {
        let before = due_entries(listed, present, installed, n - 1);
        if due(present[n - 1], installed[n - 1], listed[n - 1].1@) {
            before.push(n - 1)
        } else {
            before
        }
    }
}

/// The views of what is installed.
pub open spec fn installed_views(v: Seq<Option<String>>) -> Seq<Option<Seq<char>>> {
    v.map_values(|o: Option<String>| opt_text(o))
}

/// Which entries of the lock this box has to change: the apps it runs already and
/// that are not at their digest. A lock that names no registry is refused.
pub fn sweep(desired: &Desired, present: &Vec<bool>, installed: &Vec<Option<String>>) -> (r: Result<
    Vec<usize>,
    String,
>)
    requires
        present.len() == desired.digests.listed().len(),
        installed.len() == desired.digests.listed().len(),
    ensures
        r is Err <==> desired.registry@.len() == 0,
        r matches Err(e) ==> e@ == "the lock names no registry"@,
        r matches Ok(v) ==> v@.map_values(|k: usize| k as int) == due_entries(
            desired.digests.listed(),
            present@,
            installed_views(installed@),
            present.len() as int,
        ),
        r matches Ok(v) ==> forall|i: int|
            0 <= i < present@.len() ==> (#[trigger] v@.contains(i as usize) <==> present@[i] && (
            installed@[i] is None || installed@[i]->0@ != desired.digests.listed()[i].1@)),
        r matches Ok(v) ==> forall|k: int|
            0 <= k < v@.len() ==> 0 <= #[trigger] v@[k] < present@.len(),
        r matches Ok(v) ==> forall|j: int, k: int| 0 <= j < k < v@.len() ==> v@[j] < v@[k],
{
    if desired.registry.as_str().is_empty() {
        return Err("the lock names no registry".to_string());
    }
    let ghost es = desired.digests.listed();
    let ghost was = installed_views(installed@);
    let ghost num = |k: usize| k as int;
    let mut out: Vec<usize> = Vec::new();
    let mut i: usize = 0;
    assert(out@.map_values(num) =~= due_entries(es, present@, was, 0));
    while i < present.len()
        invariant
            i <= present.len(),
            present.len() == es.len(),
            installed.len() == es.len(),
            es == desired.digests.listed(),
            was == installed_views(installed@),
            num == (|k: usize| k as int),
            out@.map_values(num) == due_entries(es, present@, was, i as int),
        decreases present.len() - i,
    {
        let digest = desired.digests.value_at(i);
        let at_digest = match &installed[i] {
            Some(d) => same(d.as_str(), digest.as_str()),
            None => false,
        };
        assert(was[i as int] == opt_text(installed[i as int]));
        if present[i] && !at_digest {
            let ghost o = out@;
            out.push(i);
            assert(out@.map_values(num) =~= o.map_values(num).push(i as int));
        }
        i = i + 1;
    }
    proof {
        law_what_is_due(es, present@, was);
        let due_now = due_entries(es, present@, was, es.len() as int);
        assert forall|k: int| 0 <= k < out@.len() implies #[trigger] out@[k] == due_now[k] by {
            assert(out@.map_values(num)[k] == out@[k] as int);
        }
        assert forall|i: int| 0 <= i < present@.len() implies (#[trigger] out@.contains(i as usize)
            <==> present@[i] && (installed@[i] is None || installed@[i]->0@ != es[i].1@)) by {
            assert(was[i] == opt_text(installed@[i]));
            if due_now.contains(i) {
                let k = choose|k: int| 0 <= k < due_now.len() && due_now[k] == i;
                assert(out@[k] == i as usize);
            }
            if out@.contains(i as usize) {
                let k = choose|k: int| 0 <= k < out@.len() && out@[k] == i as usize;
                assert(due_now[k] == i);
            }
        }
    }
    Ok(out)
}

/// An entry of the lock is among those to change exactly where its app is on the box and
/// what is installed there is not the digest that the lock lists: another digest is
/// changed as surely as none, and an app at its digest, or not on the box, is left alone.
/// The entries come in the order of the lock, each once.
pub proof fn law_what_is_due(
    listed: Seq<(Seq<char>, String)>,
    present: Seq<bool>,
    installed: Seq<Option<Seq<char>>>,
)
    requires
        present.len() == listed.len(),
        installed.len() == listed.len(),
    ensures
        forall|i: int|
            0 <= i < listed.len() ==> (#[trigger] due_entries(
                listed,
                present,
                installed,
                listed.len() as int,
            ).contains(i) <==> present[i] && (installed[i] is None || installed[i]->0
                != listed[i].1@)),
        forall|k: int|
            0 <= k < due_entries(listed, present, installed, listed.len() as int).len() ==> 0
                <= #[trigger] due_entries(listed, present, installed, listed.len() as int)[k]
                < listed.len(),
        forall|j: int, k: int|
            0 <= j < k < due_entries(listed, present, installed, listed.len() as int).len()
                ==> due_entries(listed, present, installed, listed.len() as int)[j] < due_entries(
                listed,
                present,
                installed,
                listed.len() as int,
            )[k],
{
    lemma_due(listed, present, installed, listed.len() as int);
}

proof fn lemma_due(
    listed: Seq<(Seq<char>, String)>,
    present: Seq<bool>,
    installed: Seq<Option<Seq<char>>>,
    n: int,
)
    requires
        0 <= n <= listed.len(),
        present.len() == listed.len(),
        installed.len() == listed.len(),
    ensures
        forall|i: int|
            0 <= i < n ==> (#[trigger] due_entries(listed, present, installed, n).contains(i)
                <==> present[i] && (installed[i] is None || installed[i]->0 != listed[i].1@)),
        forall|k: int|
            0 <= k < due_entries(listed, present, installed, n).len() ==> 0
                <= #[trigger] due_entries(listed, present, installed, n)[k] < n,
        forall|j: int, k: int|
            0 <= j < k < due_entries(listed, present, installed, n).len() ==> due_entries(
                listed,
                present,
                installed,
                n,
            )[j] < due_entries(listed, present, installed, n)[k],
    decreases n,
{
    if n > 0 {
        lemma_due(listed, present, installed, n - 1);
        let before = due_entries(listed, present, installed, n - 1);
        let now = due_entries(listed, present, installed, n);
        assert forall|i: int| 0 <= i < n implies (#[trigger] now.contains(i) <==> present[i] && (
        installed[i] is None || installed[i]->0 != listed[i].1@)) by {
            if before.contains(i) {
                let k = choose|k: int| 0 <= k < before.len() && before[k] == i;
                assert(now[k] == i);
            }
            if now.contains(i) && i < n - 1 {
                let k = choose|k: int| 0 <= k < now.len() && now[k] == i;
                assert(before[k] == i);
            }
            if i == n - 1 && now.len() > before.len() {
                assert(now[now.len() - 1] == i);
            }
            if i == n - 1 && now.contains(i) {
                let k = choose|k: int| 0 <= k < now.len() && now[k] == i;
                assert(k >= before.len());
            }
        }
    }
}

/// How many of the first `n` updates succeeded.
pub open spec fn successes(done: Seq<bool>, n: int) -> nat
    decreases n,
{
    if n <= 0 {
        0
    } else {
        successes(done, n - 1) + if done[n - 1] {
            1nat
        } else {
            0nat
        }
    }
}

/// How many apps a sweep updated: each that succeeded, and on a dry run each that
/// would have been tried. One failure does not stop the others.
pub fn updated(dry: bool, due: usize, done: &Vec<bool>) -> (n: usize)
    requires
        !dry ==> done.len() == due,
    ensures
        dry ==> n == due,
        !dry ==> n == successes(done@, due as int),
{
    if dry {
        return due;
    }
    let mut n: usize = 0;
    let mut i: usize = 0;
    while i < done.len()
        invariant
            i <= done.len(),
            n <= i,
            n == successes(done@, i as int),
        decreases done.len() - i,
    {
        if done[i] {
            n = n + 1;
        }
        i = i + 1;
    }
    n
}

/// The first place that holds the puller, or the advice to install it.
pub fn which_oci(system: bool, built: bool) -> (r: Result<String, String>)
    ensures
        system ==> r is Ok && r->Ok_0@ == "/usr/local/bin/comp-oci"@,
        !system && built ==> r is Ok && r->Ok_0@ == "reconciler/target/release/comp-oci"@,
        !system && !built ==> r is Err && r->Err_0@
            == "no comp-oci — `just selfhost-bootstrap` installs it"@,
{
    if system {
        Ok("/usr/local/bin/comp-oci".to_string())
    } else if built {
        Ok("reconciler/target/release/comp-oci".to_string())
    } else {
        Err("no comp-oci — `just selfhost-bootstrap` installs it".to_string())
    }
}

/// The bytes begin as a wasm component does: the magic number, and the layer that
/// tells a component from a core module.
pub open spec fn component_bytes(b: Seq<u8>) -> bool {
    b.len() >= 8 && b[0] == 0 && b[1] == 0x61 && b[2] == 0x73 && b[3] == 0x6d && b[6] == 1
}

/// Is this a wasm component?
pub fn is_component(b: &[u8]) -> (r: bool)
    ensures
        r == component_bytes(b@),
{
    b.len() >= 8 && b[0] == 0 && b[1] == 0x61 && b[2] == 0x73 && b[3] == 0x6d && b[6] == 1
}

/// What is pulled: the app, by its digest.
pub fn reference(app: &str, digest: &str) -> (out: String)
    ensures
        out@ == app@ + "@"@ + digest@,
{
    app.to_string().concat("@").concat(digest)
}

/// What one update came to after each step: the first step that failed decides, and
/// the digest is recorded last.
pub fn update(
    app: &str,
    digest: &str,
    pulled: Result<(), String>,
    component: bool,
    restarted: bool,
) -> (r: Result<String, String>)
    ensures
        pulled matches Err(e) ==> r is Err && r->Err_0@ == "pulling "@ + (app@ + "@"@ + digest@)
            + ": "@ + trim_of(e@),
        pulled is Ok && !component ==> r is Err && r->Err_0@ == (app@ + "@"@ + digest@)
            + " is not a wasm component"@,
        pulled is Ok && component && !restarted ==> r is Err && r->Err_0@ == "comp-"@ + app@
            + " did not restart"@,
        pulled is Ok && component && restarted ==> r is Ok && r->Ok_0@ == digest@ + "\n"@,
{
    let what = reference(app, digest);
    match pulled {
        Err(e) => {
            let why = trim(e.as_str());
            Err("pulling ".to_string().concat(what.as_str()).concat(": ").concat(why.as_str()))
        },
        Ok(()) => {
            if !component {
                Err(what.concat(" is not a wasm component"))
            } else if !restarted {
                Err("comp-".to_string().concat(app).concat(" did not restart"))
            } else {
                Ok(digest.to_string().concat("\n"))
            }
        },
    }
}

// --------------------------------------------------------------- arguments --

/// How the agent was asked to run.
#[derive(Debug, PartialEq, Eq)]
pub struct Settings {
    pub lock_url: String,
    pub interval: u64,
    pub once: bool,
    pub dry: bool,
}

/// What the arguments ask for.
#[derive(Debug, PartialEq, Eq)]
pub enum Request {
    Run(Settings),
    Help,
    Unknown(String),
    NoLockUrl,
}

/// How the agent was asked to run.
pub struct SettingsView {
    pub lock_url: Seq<char>,
    pub interval: u64,
    pub once: bool,
    pub dry: bool,
}

impl View for Settings {
    type V = SettingsView;

    open spec fn view(&self) -> SettingsView {
        SettingsView {
            lock_url: self.lock_url@,
            interval: self.interval,
            once: self.once,
            dry: self.dry,
        }
    }
}

/// What the arguments ask for.
pub enum RequestView {
    Run(SettingsView),
    Help,
    Unknown(Seq<char>),
    NoLockUrl,
}

impl View for Request {
    type V = RequestView;

    open spec fn view(&self) -> RequestView {
        match self {
            Request::Run(s) => RequestView::Run(s@),
            Request::Help => RequestView::Help,
            Request::Unknown(a) => RequestView::Unknown(a@),
            Request::NoLockUrl => RequestView::NoLockUrl,
        }
    }
}

/// The argument at `i`, or the empty one.
pub open spec fn arg_at(args: Seq<Seq<char>>, i: int) -> Seq<char> {
    if 0 <= i < args.len() {
        args[i]
    } else {
        Seq::empty()
    }
}

/// Five minutes, unless the text is a number of seconds that fits.
pub open spec fn interval_of(s: Seq<char>) -> u64 {
    match number_of(s, 10) {
        Some(n) => if n <= u64::MAX {
            n as u64
        } else {
            300
        },
        None => 300,
    }
}

/// What the arguments from `i` on ask for, given those before.
pub open spec fn request_from(args: Seq<Seq<char>>, i: int, s: SettingsView) -> RequestView
    decreases args.len() + 2 - i,
{
    if i < 0 || i >= args.len() {
        if s.lock_url.len() == 0 {
            RequestView::NoLockUrl
        } else {
            RequestView::Run(s)
        }
    } else if args[i] == "--lock-url"@ {
        request_from(
            args,
            i + 2,
            SettingsView {
                lock_url: arg_at(args, i + 1),
                interval: s.interval,
                once: s.once,
                dry: s.dry,
            },
        )
    } else if args[i] == "--interval"@ {
        request_from(
            args,
            i + 2,
            SettingsView {
                lock_url: s.lock_url,
                interval: interval_of(arg_at(args, i + 1)),
                once: s.once,
                dry: s.dry,
            },
        )
    } else if args[i] == "--once"@ {
        request_from(
            args,
            i + 1,
            SettingsView {
                lock_url: s.lock_url,
                interval: s.interval,
                once: true,
                dry: s.dry,
            },
        )
    } else if args[i] == "--dry-run"@ {
        request_from(
            args,
            i + 1,
            SettingsView {
                lock_url: s.lock_url,
                interval: s.interval,
                once: s.once,
                dry: true,
            },
        )
    } else if args[i] == "-h"@ || args[i] == "--help"@ {
        RequestView::Help
    } else {
        RequestView::Unknown(args[i])
    }
}

/// What the arguments ask for.
pub fn read_args(args: &Vec<String>) -> (r: Request)
    requires
        args.len() < usize::MAX - 1,
    ensures
        r@ == request_from(
            strs(args@),
            0,
            (SettingsView { lock_url: Seq::empty(), interval: 300, once: false, dry: false }),
        ),
{
    let ghost all = strs(args@);
    let mut s = Settings { lock_url: String::new(), interval: 300, once: false, dry: false };
    let mut i: usize = 0;
    let ghost start = SettingsView { lock_url: Seq::empty(), interval: 300, once: false, dry: false };
    assert(s@ == start);
    while i < args.len()
        invariant
            args.len() < usize::MAX - 1,
            i <= args.len() + 1,
            all == strs(args@),
            start == (SettingsView {
                lock_url: Seq::empty(),
                interval: 300,
                once: false,
                dry: false,
            }),
            request_from(all, 0, start) == request_from(all, i as int, s@),
        decreases args.len() + 1 - i,
    {
        let a = args[i].as_str();
        if same(a, "--lock-url") {
            i = i + 1;
            s.lock_url = if i < args.len() {
                args[i].clone()
            } else {
                String::new()
            };
        } else if same(a, "--interval") {
            i = i + 1;
            s.interval = if i < args.len() {
                match parse_u64(args[i].as_str()) {
                    Some(n) => n,
                    None => 300,
                }
            } else {
                300
            };
        } else if same(a, "--once") {
            s.once = true;
        } else if same(a, "--dry-run") {
            s.dry = true;
        } else if same(a, "-h") || same(a, "--help") {
            return Request::Help;
        } else {
            return Request::Unknown(args[i].clone());
        }
        i = i + 1;
    }
    if s.lock_url.as_str().is_empty() {
        Request::NoLockUrl
    } else {
        Request::Run(s)
    }
}

// --------------------------------------------------------------------- laws --

/// What a line of a lock says: a line of two words names the registry, the scheme or an app's
/// digest, and leaves the rest as it was; a comment and a single word say nothing.
pub proof fn law_what_a_line_of_a_lock_says(lock: Lock, line: Seq<char>)
    ensures
        ({
            let t = trim_of(line);
            let ws = words_of(t);
            let says = t.len() > 0 && t[0] != '#' && ws.len() >= 2;
            let now = with_line(lock, line);
            &&& !says ==> now == lock
            &&& says && ws[0] == "registry"@ ==> now.registry == ws[1] && now.scheme == lock.scheme
                && now.digests == lock.digests
            &&& says && ws[0] == "scheme"@ && ws[0] != "registry"@ ==> now.scheme == ws[1]
                && now.registry == lock.registry && now.digests == lock.digests
            &&& says && ws[0] != "registry"@ && ws[0] != "scheme"@ ==> now.registry == lock.registry
                && now.scheme == lock.scheme && now.digests.contains_key(ws[0])
                && now.digests[ws[0]] == ws[1] && forall|a: Seq<char>|
                a != ws[0] ==> (#[trigger] now.digests.contains_key(a) <==> lock.digests.contains_key(
                    a,
                )) && (lock.digests.contains_key(a) ==> now.digests[a] == lock.digests[a])
        }),
{
}

/// A lock is taken exactly where the fetch succeeded and was answered with 200; the lock is
/// then all that came before the status.
pub proof fn law_when_a_lock_was_fetched(
    success: bool,
    stdout: Seq<char>,
    stderr: Seq<char>,
    url: Seq<char>,
)
    ensures
        fetched_text(success, stdout, stderr, url) is Ok <==> success && rsplit_once_of(
            stdout,
            '\n',
        ) is Some && rsplit_once_of(stdout, '\n')->Some_0.1 == "200"@,
        fetched_text(success, stdout, stderr, url) is Ok ==> fetched_text(
            success,
            stdout,
            stderr,
            url,
        )->Ok_0 == rsplit_once_of(stdout, '\n')->Some_0.0,
{
    reveal_strlit("000");
    reveal_strlit("200");
    assert("000"@.len() == 3);
    assert("000"@[0] != "200"@[0]);
}

/// As many apps count as updated as there are updates that succeeded.
pub proof fn law_each_success_counts_once(done: Seq<bool>, n: int)
    requires
        0 <= n < done.len(),
    ensures
        done[n] ==> successes(done, n + 1) == successes(done, n) + 1,
        !done[n] ==> successes(done, n + 1) == successes(done, n),
        successes(done, 0) == 0,
{
}

/// An app lives below the directory of apps under its own name, unless its name is itself a
/// path from the root.
pub proof fn law_where_an_app_lives(app: Seq<char>)
    ensures
        "/"@.is_prefix_of(app) ==> dir_of(app) == app,
        !"/"@.is_prefix_of(app) ==> dir_of(app) == "/srv/comp/"@ + app,
{
}

/// A component begins with the magic number and tells by its layer that it is no core module.
pub proof fn law_what_a_component_begins_with(b: Seq<u8>)
    ensures
        component_bytes(b) ==> b.len() >= 8 && b.take(4) == seq![0u8, 0x61, 0x73, 0x6d] && b[6] == 1,
        b.len() >= 8 && b.take(4) == seq![0u8, 0x61, 0x73, 0x6d] && b[6] == 1 ==> component_bytes(b),
{
    if component_bytes(b) {
        assert(b.take(4) =~= seq![0u8, 0x61, 0x73, 0x6d]);
    }
    if b.len() >= 8 && b.take(4) == seq![0u8, 0x61, 0x73, 0x6d] {
        assert(b.take(4)[0] == 0 && b.take(4)[1] == 0x61 && b.take(4)[2] == 0x73 && b.take(4)[3]
            == 0x6d);
    }
}

/// Each argument sets its own: the lock's address and the interval take the next argument, the
/// others stand alone; help and an argument that nobody knows end the reading.
pub proof fn law_each_argument_sets_its_own(args: Seq<Seq<char>>, i: int, s: SettingsView)
    requires
        0 <= i <= args.len(),
    ensures
        i == args.len() ==> request_from(args, i, s) == (if s.lock_url.len() > 0 {
            RequestView::Run(s)
        } else {
            RequestView::NoLockUrl
        }),
        i < args.len() && args[i] == "--lock-url"@ && i + 1 < args.len() ==> request_from(args, i, s)
            == request_from(args, i + 2, SettingsView { lock_url: args[i + 1], ..s }),
        i < args.len() && args[i] == "--interval"@ && i + 1 < args.len() ==> request_from(args, i, s)
            == request_from(args, i + 2, SettingsView { interval: interval_of(args[i + 1]), ..s }),
        i < args.len() && args[i] == "--once"@ ==> request_from(args, i, s) == request_from(
            args,
            i + 1,
            SettingsView { once: true, ..s },
        ),
        i < args.len() && args[i] == "--dry-run"@ ==> request_from(args, i, s) == request_from(
            args,
            i + 1,
            SettingsView { dry: true, ..s },
        ),
        i < args.len() && (args[i] == "-h"@ || args[i] == "--help"@) ==> request_from(args, i, s)
            is Help,
        forall|t: Seq<char>|
            (#[trigger] number_of(t, 10)) matches Some(n) ==> (0 <= n <= u64::MAX ==> interval_of(t)
                == n),
        forall|t: Seq<char>| (#[trigger] number_of(t, 10)) is None ==> interval_of(t) == 300,
{
    reveal_strlit("--lock-url");
    reveal_strlit("--interval");
    reveal_strlit("--once");
    reveal_strlit("--dry-run");
    reveal_strlit("-h");
    reveal_strlit("--help");
    assert("--lock-url"@.len() == 10);
    assert("--interval"@.len() == 10);
    assert("--once"@.len() == 6);
    assert("--dry-run"@.len() == 9);
    assert("-h"@.len() == 2);
    assert("--help"@.len() == 6);
    assert("--lock-url"@[2] != "--interval"@[2]);
    assert("--once"@[2] != "--help"@[2]);
}

/// What is desired is seen by its registry, its scheme and the digest of each app; settings and
/// requests with all that they hold.
pub proof fn law_what_is_desired_is_seen_whole(d: Desired, app: Seq<char>, s: Settings, r: Request)
    ensures
        d@.registry == d.registry@,
        d@.scheme == d.scheme@,
        d@.digests.contains_key(app) <==> d.digests@.contains_key(app),
        d.digests@.contains_key(app) ==> d@.digests[app] == d.digests@[app]@,
        s@.lock_url == s.lock_url@,
        s@.interval == s.interval,
        s@.once == s.once,
        s@.dry == s.dry,
        r matches Request::Run(x) ==> r@ == RequestView::Run(x@),
        r is Help <==> r@ is Help,
        r matches Request::Unknown(a) ==> r@ == RequestView::Unknown(a@),
        r is NoLockUrl <==> r@ is NoLockUrl,
{
}

} // verus!
