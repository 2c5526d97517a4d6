//! What changed in a directory between two looks at it.

use vstd::prelude::*;
use vstd::string::*;

use crate::json::{Json, Tree, entry_from, entry_trees, list, no_entries, object, put, refusal, refusal_tree, text, trees};
use crate::number::{dec, dec_of};
use crate::order::{before, increasing, lemma_before_irreflexive, sorted_set};
use crate::path::{tidy, tidy_of};
use crate::text::{same, strs};
use crate::text_map::{TextMap, lemma_listed, lemma_unlisted};

verus! {

/// What happened to an entry.
#[derive(Debug, Clone, Copy, PartialEq, Eq, Structural)]
pub enum Change {
    Created,
    Modified,
    Removed,
}

/// What a look saw of an entry: under which text it came up, when it was written and how
/// long it is.
#[derive(Debug, PartialEq, Eq)]
pub struct Entry {
    pub path: String,
    pub written: u64,
    pub len: u64,
}

/// A look at a directory: its entries by their paths. Texts with the same components are
/// one path.
#[derive(Debug, PartialEq, Eq)]
pub struct Look {
    pub entries: TextMap<Entry>,
}

/// An entry as plain values.
pub open spec fn entry_view() -> spec_fn(Entry) -> (Seq<char>, u64, u64) {
    |e: Entry| (e.path@, e.written, e.len)
}

impl View for Look {
    type V = Map<Seq<char>, (Seq<char>, u64, u64)>;

    open spec fn view(&self) -> Map<Seq<char>, (Seq<char>, u64, u64)> {
        self.entries@.map_values(entry_view())
    }
}

impl Look {
    /// Each entry is kept under its own path.
    pub open spec fn wf(&self) -> bool {
        &&& self.entries.wf()
        &&& forall|k: Seq<char>| #[trigger]
            self.entries@.contains_key(k) ==> tidy_of(self.entries@[k].path@) == k
    }

    /// A look that saw nothing.
    pub fn new() -> (l: Self)
        ensures
            l.wf(),
            l@ == Map::<Seq<char>, (Seq<char>, u64, u64)>::empty(),
    {
        let l = Look { entries: TextMap::new() };
        assert(l@ =~= Map::<Seq<char>, (Seq<char>, u64, u64)>::empty());
        l
    }

    /// Sees an entry. One that came up before keeps the text that it came up under.
    pub fn note(&mut self, path: String, written: u64, len: u64)
        requires
            old(self).wf(),
        ensures
            final(self).wf(),
            final(self)@ == old(self)@.insert(
                tidy_of(path@),
                (
                    if old(self)@.contains_key(tidy_of(path@)) {
                        old(self)@[tidy_of(path@)].0
                    } else {
                        path@
                    },
                    written,
                    len,
                ),
            ),
    {
        let k = tidy(path.as_str());
        let ghost first = self.entries@;
        let shown = match self.entries.get(k.as_str()) {
            Some(e) => e.path.clone(),
            None => path,
        };
        let e = Entry { path: shown, written, len };
        let ghost g = e;
        self.entries.insert(k, e);
        assert(self.entries@ == first.insert(k@, g));
        assert(self@ =~= first.map_values(entry_view()).insert(k@, entry_view()(g)));
    }
}

/// What is told of the text `path`: what happened to the entry that it names, where it is
/// the text to show. That is the one of the later look, or of the earlier one where the
/// entry is gone.
pub open spec fn change_of(
    earlier: Map<Seq<char>, (Seq<char>, u64, u64)>,
    later: Map<Seq<char>, (Seq<char>, u64, u64)>,
    path: Seq<char>,
) -> Option<Change> {
    let k = tidy_of(path);
    if later.contains_key(k) {
        if later[k].0 != path {
            None
        } else if !earlier.contains_key(k) {
            Some(Change::Created)
        } else if (earlier[k].1, earlier[k].2) != (later[k].1, later[k].2) {
            Some(Change::Modified)
        } else {
            None
        }
    } else if earlier.contains_key(k) && earlier[k].0 == path {
        Some(Change::Removed)
    } else {
        None
    }
}

/// An entry and what happened to it.
#[derive(Debug, PartialEq, Eq)]
pub struct Event {
    pub path: String,
    pub kind: Change,
}

/// Events as plain values.
pub open spec fn event_views(es: Seq<Event>) -> Seq<(Seq<char>, Change)> {
    es.map_values(|e: Event| (e.path@, e.kind))
}

/// The paths of some events.
pub open spec fn event_paths(es: Seq<(Seq<char>, Change)>) -> Seq<Seq<char>> {
    es.map_values(|e: (Seq<char>, Change)| e.0)
}

/// The events name exactly what changed between two looks, in the order of the texts shown.
pub open spec fn diff_of(
    earlier: Map<Seq<char>, (Seq<char>, u64, u64)>,
    later: Map<Seq<char>, (Seq<char>, u64, u64)>,
    es: Seq<(Seq<char>, Change)>,
) -> bool {
    &&& increasing(event_paths(es))
    &&& forall|p: Seq<char>, k: Change| #[trigger]
        es.contains((p, k)) <==> change_of(earlier, later, p) == Some(k)
}

/// Did a look see an entry under this text?
spec fn shows(m: Map<Seq<char>, (Seq<char>, u64, u64)>, t: Seq<char>) -> bool {
    m.contains_key(tidy_of(t)) && m[tidy_of(t)].0 == t
}

fn put_paths(out: &mut Vec<String>, look: &Look)
    requires
        look.wf(),
    ensures
        forall|t: Seq<char>| #[trigger]
            strs(final(out)@).contains(t) <==> strs(old(out)@).contains(t) || shows(look@, t),
{
    let m = &look.entries;
    let ghost first = strs(out@);
    let ghost es = m.listed();
    let mut i: usize = 0;
    while i < m.len()
        invariant
            i <= es.len(),
            es == m.listed(),
            m.wf(),
            forall|t: Seq<char>| #[trigger]
                strs(out@).contains(t) <==> first.contains(t) || exists|j: int|
                    0 <= j < i && (#[trigger] es[j]).1.path@ == t,
        decreases es.len() - i,
    {
        let ghost o = strs(out@);
        let k = m.value_at(i).path.clone();
        out.push(k);
        assert(strs(out@) =~= o.push(k@));
        assert forall|t: Seq<char>| #[trigger] strs(out@).contains(t) <==> first.contains(t)
            || exists|j: int| 0 <= j < i + 1 && (#[trigger] es[j]).1.path@ == t by {
            assert(o.push(k@).contains(t) <==> o.contains(t) || t == k@) by {
                if o.contains(t) {
                    let x = choose|x: int| 0 <= x < o.len() && o[x] == t;
                    assert(o.push(k@)[x] == t);
                }
                assert(o.push(k@)[o.len() as int] == k@);
            }
            assert(es[i as int].1.path@ == k@);
        }
        i = i + 1;
    }
    proof {
        assert forall|t: Seq<char>| shows(look@, t) <==> exists|j: int|
            0 <= j < es.len() && (#[trigger] es[j]).1.path@ == t by {
            if exists|j: int| 0 <= j < es.len() && (#[trigger] es[j]).1.path@ == t {
                let j = choose|j: int| 0 <= j < es.len() && (#[trigger] es[j]).1.path@ == t;
                lemma_listed(es, j);
                assert(m@.contains_key(es[j].0));
            } else if m@.contains_key(tidy_of(t)) {
                if forall|j: int| 0 <= j < es.len() ==> (#[trigger] es[j]).0 != tidy_of(t) {
                    lemma_unlisted(es, tidy_of(t));
                }
                let j = choose|j: int| 0 <= j < es.len() && (#[trigger] es[j]).0 == tidy_of(t);
                lemma_listed(es, j);
            }
        }
    }
}

fn change(earlier: &Look, later: &Look, path: &str) -> (r: Option<Change>)
    requires
        earlier.wf(),
        later.wf(),
    ensures
        r == change_of(earlier@, later@, path@),
{
    let k = tidy(path);
    match later.entries.get(k.as_str()) {
        Some(b) => if !same(b.path.as_str(), path) {
            None
        } else {
            match earlier.entries.get(k.as_str()) {
                None => Some(Change::Created),
                Some(a) => if a.written != b.written || a.len != b.len {
                    Some(Change::Modified)
                } else {
                    None
                },
            }
        },
        None => match earlier.entries.get(k.as_str()) {
            Some(a) => if same(a.path.as_str(), path) {
                Some(Change::Removed)
            } else {
                None
            },
            None => None,
        },
    }
}

/// What changed between two looks, in the order of the texts shown.
pub fn diff(earlier: &Look, later: &Look) -> (out: Vec<Event>)
    requires
        earlier.wf(),
        later.wf(),
    ensures
        diff_of(earlier@, later@, event_views(out@)),
{
    let mut all: Vec<String> = Vec::new();
    put_paths(&mut all, earlier);
    put_paths(&mut all, later);
    let keys = sorted_set(&all);
    let ghost ks = strs(keys@);
    assert forall|p: Seq<char>|
        change_of(earlier@, later@, p) is Some implies #[trigger] ks.contains(p) by {
        assert(shows(earlier@, p) || shows(later@, p));
        assert(strs(all@).contains(p));
    }
    let mut out: Vec<Event> = Vec::new();
    let mut i: usize = 0;
    while i < keys.len()
        invariant
            i <= keys.len(),
            earlier.wf(),
            later.wf(),
            ks == strs(keys@),
            increasing(ks),
            increasing(event_paths(event_views(out@))),
            forall|a: int|
                0 <= a < out@.len() ==> change_of(earlier@, later@, (#[trigger] out@[a]).path@)
                    == Some(out@[a].kind),
            forall|a: int, b: int|
                0 <= a < out@.len() && i <= b < ks.len() ==> before(
                    (#[trigger] out@[a]).path@,
                    #[trigger] ks[b],
                ),
            forall|a: int, k: Change|
                0 <= a < i && change_of(earlier@, later@, #[trigger] ks[a]) == Some(k)
                    ==> #[trigger] event_views(out@).contains((ks[a], k)),
        decreases keys.len() - i,
    {
        let ghost old_out = out@;
        assert(ks[i as int] == keys@[i as int]@);
        match change(earlier, later, keys[i].as_str()) {
            Some(kind) => {
                out.push(Event { path: keys[i].clone(), kind });
                proof {
                    let vs = event_views(old_out);
                    let ws = event_views(out@);
                    assert(ws =~= vs.push((ks[i as int], kind)));
                    let ps = event_paths(vs);
                    let qs = event_paths(ws);
                    assert(qs =~= ps.push(ks[i as int]));
                    assert forall|a: int, b: int| 0 <= a < b < qs.len() implies before(
                        qs[a],
                        qs[b],
                    ) by {
                        if b < ps.len() {
                            assert(before(ps[a], ps[b]));
                        } else {
                            assert(before(old_out[a].path@, ks[i as int]));
                        }
                    }
                    assert forall|a: int, k: Change|
                        0 <= a < i + 1 && change_of(earlier@, later@, #[trigger] ks[a]) == Some(
                            k,
                        ) implies #[trigger] ws.contains((ks[a], k)) by {
                        if a < i {
                            assert(vs.contains((ks[a], k)));
                            let x = choose|x: int| 0 <= x < vs.len() && vs[x] == (ks[a], k);
                            assert(ws[x] == (ks[a], k));
                        } else {
                            assert(ws[vs.len() as int] == (ks[a], k));
                        }
                    }
                }
            },
            None => {},
        }
        i = i + 1;
    }
    proof {
        let vs = event_views(out@);
        assert forall|p: Seq<char>, k: Change| #[trigger] vs.contains((p, k)) <==> change_of(
            earlier@,
            later@,
            p,
        ) == Some(k) by {
            if vs.contains((p, k)) {
                let x = choose|x: int| 0 <= x < vs.len() && vs[x] == (p, k);
                assert(out@[x].path@ == p);
            }
            if change_of(earlier@, later@, p) == Some(k) {
                assert(ks.contains(p));
                let a = choose|a: int| 0 <= a < ks.len() && ks[a] == p;
                assert(vs.contains((ks[a], k)));
            }
        }
    }
    out
}

proof fn lemma_diff_head(
    earlier: Map<Seq<char>, (Seq<char>, u64, u64)>,
    later: Map<Seq<char>, (Seq<char>, u64, u64)>,
    es: Seq<(Seq<char>, Change)>,
    i: int,
)
    requires
        diff_of(earlier, later, es),
        0 <= i < es.len(),
    ensures
        change_of(earlier, later, es[i].0) == Some(es[i].1),
{
    assert(es.contains((es[i].0, es[i].1)));
}

/// A directory in which nothing moved has nothing to report.
pub proof fn law_a_still_directory_reports_nothing(
    m: Map<Seq<char>, (Seq<char>, u64, u64)>,
    es: Seq<(Seq<char>, Change)>,
)
    requires
        diff_of(m, m, es),
    ensures
        es.len() == 0,
{
    if es.len() > 0 {
        lemma_diff_head(m, m, es, 0);
    }
}

/// No path is reported twice, whatever the texts that it came up under.
pub proof fn law_a_path_is_reported_once(
    earlier: Map<Seq<char>, (Seq<char>, u64, u64)>,
    later: Map<Seq<char>, (Seq<char>, u64, u64)>,
    es: Seq<(Seq<char>, Change)>,
    i: int,
    j: int,
)
    requires
        diff_of(earlier, later, es),
        0 <= i < j < es.len(),
    ensures
        tidy_of(es[i].0) != tidy_of(es[j].0),
{
    let ps = event_paths(es);
    assert(before(ps[i], ps[j]));
    lemma_before_irreflexive(ps[i]);
    lemma_diff_head(earlier, later, es, i);
    lemma_diff_head(earlier, later, es, j);
}

// ----------------------------------------------------------------- answers --

/// The name of a change.
pub open spec fn kind_name(k: Change) -> Seq<char> {
    match k {
        Change::Created => "created"@,
        Change::Modified => "modified"@,
        Change::Removed => "removed"@,
    }
}

/// An event of an answer.
pub open spec fn event_tree(e: (Seq<char>, Change), at: u64) -> Tree {
    Tree::Object(
        seq![
            ("path"@, Tree::Text(e.0)),
            ("kind"@, Tree::Text(kind_name(e.1))),
            ("at"@, Tree::Unsigned(at)),
        ],
    )
}

/// The answer with some events: no more than a page of them, and whether there were
/// more. The moment of the look is the cursor for the next one.
pub open spec fn polled(es: Seq<(Seq<char>, Change)>, page: int, at: u64) -> Tree {
    let shown = if es.len() > page {
        es.take(page)
    } else {
        es
    };
    Tree::Object(
        seq![
            (
                "events"@,
                Tree::List(shown.map_values(|e: (Seq<char>, Change)| event_tree(e, at))),
            ),
            ("cursor"@, Tree::Text(dec_of(at as nat))),
            ("truncated"@, Tree::Bool(es.len() > page)),
        ],
    )
}

/// An event is answered by the path that changed, how it changed, and the moment of the look.
pub proof fn law_an_event_is_answered_whole(e: (Seq<char>, Change), at: u64)
    ensures
        event_tree(e, at).field("path"@) == Some(Tree::Text(e.0)),
        e.1 == Change::Created ==> event_tree(e, at).field("kind"@) == Some(Tree::Text("created"@)),
        e.1 == Change::Modified ==> event_tree(e, at).field("kind"@) == Some(Tree::Text("modified"@)),
        e.1 == Change::Removed ==> event_tree(e, at).field("kind"@) == Some(Tree::Text("removed"@)),
        event_tree(e, at).field("at"@) == Some(Tree::Unsigned(at)),
{
    reveal_with_fuel(entry_from, 4);
    reveal_strlit("path");
    reveal_strlit("kind");
    reveal_strlit("at");
    assert("path"@.len() == 4);
    assert("kind"@.len() == 4);
    assert("at"@.len() == 2);
    assert("path"@[0] != "kind"@[0]);
}

fn event_json(e: &Event, at: u64) -> (j: Json)
    ensures
        j@ == event_tree((e.path@, e.kind), at),
{
    let mut v = no_entries();
    put(&mut v, "path", text(e.path.as_str()));
    put(
        &mut v,
        "kind",
        text(
            match e.kind {
                Change::Created => "created",
                Change::Modified => "modified",
                Change::Removed => "removed",
            },
        ),
    );
    put(&mut v, "at", Json::Unsigned(at));
    assert(entry_trees(v@) =~= event_tree((e.path@, e.kind), at)->Object_0);
    object(v)
}

fn page_json(es: &Vec<Event>, page: usize, at: u64) -> (j: Json)
    ensures
        j@ == polled(event_views(es@), page as int, at),
{
    let n = if es.len() > page {
        page
    } else {
        es.len()
    };
    let ghost vs = event_views(es@);
    let ghost shown = vs.take(n as int);
    let ghost want = shown.map_values(|e: (Seq<char>, Change)| event_tree(e, at));
    let mut items: Vec<Json> = Vec::new();
    let mut i: usize = 0;
    assert(trees(items@) =~= want.take(0));
    while i < n
        invariant
            i <= n <= es.len(),
            vs == event_views(es@),
            shown == vs.take(n as int),
            want == shown.map_values(|e: (Seq<char>, Change)| event_tree(e, at)),
            trees(items@) == want.take(i as int),
        decreases n - i,
    {
        let j = event_json(&es[i], at);
        let ghost o = items@;
        items.push(j);
        assert(trees(items@) =~= trees(o).push(j@));
        assert(want[i as int] == j@);
        assert(want.take(i + 1) =~= want.take(i as int).push(want[i as int]));
        i = i + 1;
    }
    assert(want.take(i as int) =~= want);
    proof {
        if vs.len() <= page {
            assert(shown =~= vs);
        }
    }
    let more = es.len() > page;
    let mut v = no_entries();
    put(&mut v, "events", list(items));
    put(&mut v, "cursor", text(dec(at).as_str()));
    put(&mut v, "truncated", Json::Bool(more));
    assert(entry_trees(v@) =~= polled(vs, page as int, at)->Object_0);
    object(v)
}

/// What was seen of each directory at the last look. Texts with the same components are one
/// directory.
pub struct Watch {
    pub seen: TextMap<Look>,
    pub page: usize,
}

impl Watch {
    /// Directories and what was seen in them are listed in order.
    pub open spec fn wf(&self) -> bool {
        &&& self.seen.wf()
        &&& forall|d: Seq<char>| #[trigger] self.seen@.contains_key(d) ==> self.seen@[d].wf()
    }

    /// Nothing was seen yet.
    pub fn new(page: usize) -> (w: Self)
        ensures
            w.wf(),
            w.page == page,
            w.seen@ == Map::<Seq<char>, Look>::empty(),
    {
        Watch { seen: TextMap::new(), page }
    }

    /// The answer to a look at a directory, which is remembered. A caller without a
    /// cursor, or the first to ask for a directory, is told of nothing: what was there
    /// before is no news.
    pub fn poll(&mut self, dir: &str, fresh: Look, cursor: &str, now: u64) -> (j: Json)
        requires
            old(self).wf(),
            fresh.wf(),
        ensures
            final(self).wf(),
            final(self).page == old(self).page,
            final(self).seen@ == old(self).seen@.insert(tidy_of(dir@), fresh),
            cursor@.len() == 0 || !old(self).seen@.contains_key(tidy_of(dir@)) ==> j@ == polled(
                Seq::empty(),
                old(self).page as int,
                now,
            ),
            cursor@.len() > 0 && old(self).seen@.contains_key(tidy_of(dir@)) ==> exists|
                es: Seq<(Seq<char>, Change)>,
            | #[trigger]
                diff_of(old(self).seen@[tidy_of(dir@)]@, fresh@, es) && j@ == polled(
                    es,
                    old(self).page as int,
                    now,
                ),
    {
        let ghost first = *self;
        let key = tidy(dir);
        let mut events: Vec<Event> = Vec::new();
        if !cursor.is_empty() {
            match self.seen.get(key.as_str()) {
                Some(earlier) => {
                    events = diff(earlier, &fresh);
                    assert(diff_of(first.seen@[tidy_of(dir@)]@, fresh@, event_views(events@)));
                },
                None => {},
            }
        }
        proof {
            if cursor@.len() == 0 || !first.seen@.contains_key(tidy_of(dir@)) {
                assert(event_views(events@) =~= Seq::empty());
            }
        }
        let j = page_json(&events, self.page, now);
        self.seen.insert(key, fresh);
        j
    }
}

/// The answer where an operator listed nothing that holds the directory, and the one where
/// it is not there: the one is a decision, the other a fact.
pub fn refused(dir: &str, permitted: bool) -> (j: Json)
    ensures
        j@ == refusal_tree(
            if permitted {
                "no-such-directory"@
            } else {
                "not-permitted"@
            },
            dir@,
        ),
{
    if permitted {
        refusal("no-such-directory", dir)
    } else {
        refusal("not-permitted", dir)
    }
}

// --------------------------------------------------------------------- laws --

/// What is said of a path: created where it is there now and was not, removed where it was and
/// is not, and modified where it was and is and either when it was written or its length is
/// another. A path that was and is the same is not spoken of.
pub proof fn law_what_is_said_of_a_path(
    earlier: Map<Seq<char>, (Seq<char>, u64, u64)>,
    later: Map<Seq<char>, (Seq<char>, u64, u64)>,
    path: Seq<char>,
)
    ensures
        ({
            let k = tidy_of(path);
            let before = earlier.contains_key(k);
            let now = later.contains_key(k);
            let c = change_of(earlier, later, path);
            &&& c == Some(Change::Created) <==> now && later[k].0 == path && !before
            &&& c == Some(Change::Removed) <==> before && earlier[k].0 == path && !now
            &&& c == Some(Change::Modified) <==> now && later[k].0 == path && before && (earlier[k].1
                != later[k].1 || earlier[k].2 != later[k].2)
        }),
{
}

/// An answer holds the first events up to a page, each with its own path and kind, the moment
/// of the look as the next cursor, and whether there were more.
pub proof fn law_a_poll_answers_a_page(es: Seq<(Seq<char>, Change)>, page: int, at: u64)
    requires
        page >= 0,
    ensures
        ({
            let t = polled(es, page, at);
            let n = if es.len() > page {
                page
            } else {
                es.len() as int
            };
            &&& t.field("events"@) is Some
            &&& t.field("events"@)->0.items().len() == n
            &&& forall|i: int|
                0 <= i < n ==> {
                    let e = #[trigger] t.field("events"@)->0.items()[i];
                    &&& e.field("path"@) == Some(Tree::Text(es[i].0))
                    &&& e.field("kind"@) == Some(Tree::Text(kind_name(es[i].1)))
                    &&& e.field("at"@) == Some(Tree::Unsigned(at))
                }
            &&& t.field("cursor"@) == Some(Tree::Text(dec_of(at as nat)))
            &&& t.field("truncated"@) == Some(Tree::Bool(es.len() > page))
        }),
{
    reveal_with_fuel(entry_from, 4);
    reveal_strlit("events");
    reveal_strlit("cursor");
    reveal_strlit("truncated");
    assert("events"@.len() == 6);
    assert("cursor"@.len() == 6);
    assert("truncated"@.len() == 9);
    assert("events"@[0] != "cursor"@[0]);
    let t = polled(es, page, at);
    let n = if es.len() > page {
        page
    } else {
        es.len() as int
    };
    assert forall|i: int| 0 <= i < n implies {
        let e = #[trigger] t.field("events"@)->0.items()[i];
        &&& e.field("path"@) == Some(Tree::Text(es[i].0))
        &&& e.field("kind"@) == Some(Tree::Text(kind_name(es[i].1)))
        &&& e.field("at"@) == Some(Tree::Unsigned(at))
    } by {
        law_an_event_is_answered_whole(es[i], at);
        assert(t.field("events"@)->0.items()[i] == event_tree(es[i], at));
    }
}

/// An event is seen by its path and what happened; an entry by its path, when it was written and
/// how long it is.
pub proof fn law_an_event_is_seen_whole(es: Seq<Event>, i: int, e: Entry)
    ensures
        event_views(es).len() == es.len(),
        0 <= i < es.len() ==> event_views(es)[i].0 == es[i].path@ && event_views(es)[i].1 == es[i].kind,
        entry_view()(e).0 == e.path@,
        entry_view()(e).1 == e.written,
        entry_view()(e).2 == e.len,
{
}

} // verus!
