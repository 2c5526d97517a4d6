//! One field out of a JSON document.

use vstd::prelude::*;
use vstd::string::*;

use crate::json::{Json, Tree, child, from_value, items, json_in, read_value, show, tree_in, trees_in, written};
use crate::text::{split, split_of, strs};

verus! {

/// What stands at the end of a path of keys, walked from key `i` on.
pub open spec fn walked(t: Tree, keys: Seq<Seq<char>>, i: int) -> Option<Tree>
    decreases keys.len() - i,
{
    if i < 0 || i >= keys.len() {
        Some(t)
    } else {
        match t.field(keys[i]) {
            Some(next) => walked(next, keys, i + 1),
            None => None,
        }
    }
}

/// A value as a line: a text is itself, nothing is nothing, the rest is its JSON.
pub open spec fn scalar_of(t: Tree) -> Seq<char> {
    match t {
        Tree::Text(s) => s,
        Tree::Null => Seq::empty(),
        _ => written(t),
    }
}

/// What is printed of a document: the value at a dotted key, or each item of the list
/// there. A document that is none, and a key that is not there, are an empty line.
pub open spec fn printed(document: Seq<char>, key: Seq<char>, list: bool) -> Seq<Seq<char>> {
    match json_in(document) {
        None => seq![Seq::empty()],
        Some(t) => match walked(t, split_of(key, '.'), 0) {
            None => seq![Seq::empty()],
            Some(found) => if list {
                match found.list() {
                    Some(v) => v.map_values(|x: Tree| scalar_of(x)),
                    None => Seq::empty(),
                }
            } else {
                seq![scalar_of(found)]
            },
        },
    }
}

fn scalar(v: serde_json::Value) -> (out: String)
    ensures
        out@ == scalar_of(tree_in(v)),
{
    let t = show(&v);
    match from_value(v) {
        Json::Text(s) => s,
        Json::Null => {
            let e = String::new();
            assert(e@ =~= Seq::<char>::empty());
            e
        },
        _ => t,
    }
}

fn blank() -> (v: Vec<String>)
    ensures
        strs(v@) == seq![Seq::<char>::empty()],
{
    let mut v: Vec<String> = Vec::new();
    let e = String::new();
    assert(e@ =~= Seq::<char>::empty());
    v.push(e);
    assert(strs(v@) =~= seq![Seq::<char>::empty()]);
    v
}

fn walk(root: serde_json::Value, keys: &Vec<String>) -> (r: Option<serde_json::Value>)
    ensures
        (match r {
            Some(v) => Some(tree_in(v)),
            None => None,
        }) == walked(tree_in(root), strs(keys@), 0),
{
    let ghost ks = strs(keys@);
    let mut found = root;
    let mut i: usize = 0;
    while i < keys.len()
        invariant
            i <= keys.len(),
            ks == strs(keys@),
            walked(tree_in(found), ks, i as int) == walked(tree_in(root), ks, 0),
        decreases keys.len() - i,
    {
        assert(ks[i as int] == keys@[i as int]@);
        match child(&found, keys[i].as_str()) {
            Some(next) => {
                found = next;
            },
            None => {
                return None;
            },
        }
        i = i + 1;
    }
    Some(found)
}

/// The lines that are printed of a document.
pub fn print_field(document: &str, key: &str, list: bool) -> (out: Vec<String>)
    ensures
        strs(out@) == printed(document@, key@, list),
{
    let root = match read_value(document) {
        Ok(v) => v,
        Err(_) => {
            return blank();
        },
    };
    let keys = split(key, '.');
    let found = match walk(root, &keys) {
        Some(v) => v,
        None => {
            return blank();
        },
    };
    let mut out: Vec<String> = Vec::new();
    if list {
        let mut all: Vec<serde_json::Value> = match items(&found) {
            Some(v) => v,
            None => {
                assert(strs(out@) =~= Seq::empty());
                return out;
            },
        };
        let ghost vs = all@;
        let ghost want = trees_in(vs).map_values(|x: Tree| scalar_of(x));
        let n = all.len();
        let mut i: usize = 0;
        assert(strs(out@) =~= want.take(0));
        assert(vs.skip(0) =~= vs);
        while i < n
            invariant
                i <= n,
                n == vs.len(),
                want == trees_in(vs).map_values(|x: Tree| scalar_of(x)),
                all@ == vs.skip(i as int),
                strs(out@) == want.take(i as int),
            decreases n - i,
        {
            let t = scalar(all.remove(0));
            let ghost o = out@;
            out.push(t);
            assert(strs(out@) =~= strs(o).push(t@));
            assert(all@ =~= vs.skip(i + 1));
            assert(want.take(i + 1) =~= want.take(i as int).push(want[i as int]));
            i = i + 1;
        }
        assert(want.take(i as int) =~= want);
        out
    } else {
        out.push(scalar(found));
        assert(strs(out@) =~= seq![scalar_of(tree_in(found))]);
        out
    }
}

/// A key without a dot is one lookup, and a dotted one is a lookup of its last part in
/// what the rest leads to.
pub proof fn law_a_dotted_key_walks(t: Tree, keys: Seq<Seq<char>>, last: Seq<char>)
    ensures
        walked(t, keys.push(last), 0) == (match walked(t, keys, 0) {
            Some(inner) => inner.field(last),
            None => None,
        }),
{
    lemma_walk(t, keys, last, 0);
}

proof fn lemma_walk(t: Tree, keys: Seq<Seq<char>>, last: Seq<char>, i: int)
    requires
        0 <= i <= keys.len(),
    ensures
        walked(t, keys.push(last), i) == (match walked(t, keys, i) {
            Some(inner) => inner.field(last),
            None => None,
        }),
    decreases keys.len() - i,
{
    let more = keys.push(last);
    if i < keys.len() {
        match t.field(keys[i]) {
            Some(next) => {
                lemma_walk(next, keys, last, i + 1);
            },
            None => {},
        }
    } else {
        match t.field(last) {
            Some(next) => {
                assert(walked(next, more, i + 1) == Some(next));
            },
            None => {},
        }
    }
}

/// A field is printed as it is where it is a text, and as nothing where it is null or not
/// there; a list is printed item by item.
pub proof fn law_how_a_field_is_printed(document: Seq<char>, key: Seq<char>, list: bool)
    ensures
        json_in(document) is None || walked(json_in(document)->0, split_of(key, '.'), 0) is None
            ==> printed(document, key, list) == seq![Seq::<char>::empty()],
        json_in(document) is Some && walked(json_in(document)->0, split_of(key, '.'), 0) is Some
            && !list ==> printed(document, key, list) == seq![
            scalar_of(walked(json_in(document)->0, split_of(key, '.'), 0)->0),
        ],
        json_in(document) is Some && walked(json_in(document)->0, split_of(key, '.'), 0) is Some
            && list ==> printed(document, key, list).len() == walked(
            json_in(document)->0,
            split_of(key, '.'),
            0,
        )->0.items().len(),
        forall|s: Seq<char>| (#[trigger] scalar_of(Tree::Text(s))) == s,
        scalar_of(Tree::Null).len() == 0,
{
}

} // verus!
