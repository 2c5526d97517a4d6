//! What devices announce on the local network: which services are looked for, and what a
//! caller is told.

use vstd::prelude::*;
use vstd::string::*;

use crate::json::{Json, Tree, entry_from, entry_trees, law_a_refusal_says_why, list, no_entries, object, put, refusal, refusal_tree, single, text, trees};
use crate::text::{copy_texts, strs};

verus! {

/// The services that are looked for: those that an operator named, or web servers where
/// none was. To look is to read what every device on the network can see.
pub fn service_types(given: &Vec<String>) -> (out: Vec<String>)
    ensures
        strs(out@) == if given@.len() == 0 {
            seq!["_http._tcp.local."@]
        } else {
            strs(given@)
        },
{
    if given.len() == 0 {
        let mut v: Vec<String> = Vec::new();
        v.push("_http._tcp.local.".to_string());
        assert(strs(v@) =~= seq!["_http._tcp.local."@]);
        v
    } else {
        copy_texts(given)
    }
}

/// A service that was found.
#[derive(Debug, PartialEq, Eq)]
pub struct Service {
    pub name: String,
    pub host: String,
    pub port: u16,
}

/// A service as a caller reads it.
pub open spec fn service_tree(s: Service) -> Tree {
    Tree::Object(
        seq![
            ("name"@, Tree::Text(s.name@)),
            ("host"@, Tree::Text(s.host@)),
            ("port"@, Tree::Unsigned(s.port as u64)),
        ],
    )
}

/// A service is told by its name, its host and its port, each under its own name.
pub proof fn law_a_service_is_told_whole(s: Service)
    ensures
        service_tree(s).field("name"@) == Some(Tree::Text(s.name@)),
        service_tree(s).field("host"@) == Some(Tree::Text(s.host@)),
        service_tree(s).field("port"@) == Some(Tree::Unsigned(s.port as u64)),
{
    reveal_with_fuel(entry_from, 4);
    reveal_strlit("name");
    reveal_strlit("host");
    reveal_strlit("port");
    assert("name"@.len() == 4);
    assert("host"@.len() == 4);
    assert("port"@.len() == 4);
    assert("name"@[0] != "host"@[0]);
    assert("name"@[0] != "port"@[0]);
    assert("host"@[0] != "port"@[0]);
}

/// A service as a caller reads it.
pub fn to_service(s: &Service) -> (j: Json)
    ensures
        j@ == service_tree(*s),
        j@.field("name"@) == Some(Tree::Text(s.name@)),
        j@.field("host"@) == Some(Tree::Text(s.host@)),
        j@.field("port"@) == Some(Tree::Unsigned(s.port as u64)),
{
    proof {
        law_a_service_is_told_whole(*s);
    }
    let mut v = no_entries();
    put(&mut v, "name", text(s.name.as_str()));
    put(&mut v, "host", text(s.host.as_str()));
    put(&mut v, "port", Json::Unsigned(s.port as u64));
    assert(entry_trees(v@) =~= service_tree(*s)->Object_0);
    object(v)
}

/// What a caller is told. That nothing answered in time is an answer; only a search that
/// could not start is none.
pub open spec fn told(found: Seq<Service>, failed: Option<Seq<char>>) -> Tree {
    match failed {
        Some(e) => refusal_tree("unavailable"@, e),
        None => Tree::Object(
            seq![("services"@, Tree::List(found.map_values(|s: Service| service_tree(s))))],
        ),
    }
}

/// What a caller is told.
pub fn tell(found: &Vec<Service>, failed: Option<&String>) -> (j: Json)
    ensures
        j@ == told(
            found@,
            match failed {
                Some(e) => Some(e@),
                None => None,
            },
        ),
{
    match failed {
        Some(e) => refusal("unavailable", e.as_str()),
        None => {
            let ghost want = found@.map_values(|s: Service| service_tree(s));
            let mut items: Vec<Json> = Vec::new();
            let mut i: usize = 0;
            assert(trees(items@) =~= want.take(0));
            while i < found.len()
                invariant
                    i <= found.len(),
                    want == found@.map_values(|s: Service| service_tree(s)),
                    trees(items@) == want.take(i as int),
                decreases found.len() - i,
            {
                let j = to_service(&found[i]);
                let ghost o = items@;
                items.push(j);
                assert(trees(items@) =~= trees(o).push(j@));
                assert(want.take(i + 1) =~= want.take(i as int).push(want[i as int]));
                i = i + 1;
            }
            assert(want.take(i as int) =~= want);
            single("services", list(items))
        },
    }
}

/// What was found is told service by service, in order; that nothing was found is told as an
/// empty list, and a search that failed as a refusal that says why.
pub proof fn law_what_was_found_is_told(found: Seq<Service>, failed: Option<Seq<char>>)
    ensures
        failed is None ==> {
            let t = told(found, failed).field("services"@);
            &&& t is Some
            &&& t->0.items().len() == found.len()
            &&& forall|i: int|
                0 <= i < found.len() ==> {
                    let s = #[trigger] t->0.items()[i];
                    &&& s.field("name"@) == Some(Tree::Text(found[i].name@))
                    &&& s.field("host"@) == Some(Tree::Text(found[i].host@))
                    &&& s.field("port"@) == Some(Tree::Unsigned(found[i].port as u64))
                }
        },
        failed is Some ==> told(found, failed).field("error"@) == Some(Tree::Text("unavailable"@)) && told(found, failed).field("detail"@)
            == Some(Tree::Text(failed->0)),
{
    if failed is Some {
        law_a_refusal_says_why("unavailable"@, failed->0);
    } else {
        let t = told(found, failed).field("services"@);
        assert(t->0.items() == found.map_values(|s: Service| service_tree(s)));
        assert forall|i: int| 0 <= i < found.len() implies {
            let s = #[trigger] t->0.items()[i];
            &&& s.field("name"@) == Some(Tree::Text(found[i].name@))
            &&& s.field("host"@) == Some(Tree::Text(found[i].host@))
            &&& s.field("port"@) == Some(Tree::Unsigned(found[i].port as u64))
        } by {
            law_a_service_is_told_whole(found[i]);
            assert(t->0.items()[i] == service_tree(found[i]));
        }
    }
}

} // verus!
