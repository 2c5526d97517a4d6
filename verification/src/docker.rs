//! Running containers, as the daemon lists them.

use vstd::prelude::*;

use crate::goal::spec::opt_text;
use crate::json::{Json, Tree, entry_from, entry_trees, no_entries, object, put, text};
use crate::text::{after_prefix, chars_of, slice_text, strip_prefix, strs};

verus! {

/// What an engine reports of one container.
#[derive(Debug, PartialEq, Eq)]
pub struct Container {
    pub id: Option<String>,
    pub names: Vec<String>,
    pub image: Option<String>,
    pub status: Option<String>,
}

/// The first twelve characters of an id, or all of a shorter one.
pub open spec fn short_of(id: Seq<char>) -> Seq<char> {
    if id.len() <= 12 {
        id
    } else {
        id.take(12)
    }
}

/// The short id that a listing shows: the first twelve characters of the full one.
pub fn short_id(id: &str) -> (out: String)
    ensures
        out@ == short_of(id@),
{
    let cs = chars_of(id);
    let n: usize = if cs.len() <= 12 {
        cs.len()
    } else {
        12
    };
    assert(cs@.subrange(0, n as int) =~= short_of(id@));
    slice_text(&cs, 0, n)
}

/// The first name without its leading slash; empty where there is none.
pub open spec fn primary_of(names: Seq<Seq<char>>) -> Seq<char> {
    if names.len() == 0 {
        Seq::empty()
    } else {
        match after_prefix(names[0], "/"@) {
            Some(n) => n,
            None => names[0],
        }
    }
}

/// The first name without its leading slash; empty where the engine reported none.
pub fn primary_name(names: &Vec<String>) -> (out: String)
    ensures
        out@ == primary_of(strs(names@)),
{
    if names.len() == 0 {
        return String::new();
    }
    match strip_prefix(names[0].as_str(), "/") {
        Some(n) => n,
        None => names[0].clone(),
    }
}

/// A text that was reported, or the empty one.
pub open spec fn or_empty(o: Option<Seq<char>>) -> Seq<char> {
    match o {
        Some(s) => s,
        None => Seq::empty(),
    }
}

fn given(o: &Option<String>) -> (out: String)
    ensures
        out@ == or_empty(opt_text(*o)),
{
    match o {
        Some(s) => s.clone(),
        None => String::new(),
    }
}

/// A container as the daemon answers it.
pub open spec fn container_tree(c: Container) -> Tree {
    Tree::Object(
        seq![
            ("id"@, Tree::Text(short_of(or_empty(opt_text(c.id))))),
            ("image"@, Tree::Text(or_empty(opt_text(c.image)))),
            ("status"@, Tree::Text(or_empty(opt_text(c.status)))),
            ("name"@, Tree::Text(primary_of(strs(c.names@)))),
        ],
    )
}

/// A container is answered by what the engine reported of it, each under its own name: the
/// short form of its id, its image, its status and its first name.
pub proof fn law_a_container_is_answered_by_its_own(c: Container)
    ensures
        container_tree(c).field("id"@) == Some(Tree::Text(short_of(or_empty(opt_text(c.id))))),
        container_tree(c).field("image"@) == Some(Tree::Text(or_empty(opt_text(c.image)))),
        container_tree(c).field("status"@) == Some(Tree::Text(or_empty(opt_text(c.status)))),
        container_tree(c).field("name"@) == Some(Tree::Text(primary_of(strs(c.names@)))),
{
    reveal_with_fuel(entry_from, 5);
    reveal_strlit("id");
    reveal_strlit("image");
    reveal_strlit("status");
    reveal_strlit("name");
    assert("id"@.len() == 2);
    assert("image"@.len() == 5);
    assert("status"@.len() == 6);
    assert("name"@.len() == 4);
}

/// A container as the daemon answers it.
pub fn container_json(c: &Container) -> (j: Json)
    ensures
        j@ == container_tree(*c),
        j@.field("id"@) == Some(Tree::Text(short_of(or_empty(opt_text(c.id))))),
        j@.field("image"@) == Some(Tree::Text(or_empty(opt_text(c.image)))),
        j@.field("status"@) == Some(Tree::Text(or_empty(opt_text(c.status)))),
        j@.field("name"@) == Some(Tree::Text(primary_of(strs(c.names@)))),
{
    proof {
        law_a_container_is_answered_by_its_own(*c);
    }
    let id = given(&c.id);
    let short = short_id(id.as_str());
    let image = given(&c.image);
    let status = given(&c.status);
    let name = primary_name(&c.names);
    let mut es = no_entries();
    put(&mut es, "id", text(short.as_str()));
    put(&mut es, "image", text(image.as_str()));
    put(&mut es, "status", text(status.as_str()));
    put(&mut es, "name", text(name.as_str()));
    assert(entry_trees(es@) =~= container_tree(*c)->Object_0);
    object(es)
}

/// A short id is the beginning of the id, no longer than twelve characters; a name is the first
/// one, without its slash.
pub proof fn law_short_ids_and_plain_names(id: Seq<char>, names: Seq<Seq<char>>)
    ensures
        short_of(id).is_prefix_of(id),
        short_of(id).len() == (if id.len() < 12 {
            id.len()
        } else {
            12
        }),
        names.len() > 0 && "/"@.is_prefix_of(names[0]) ==> "/"@ + primary_of(names) == names[0],
        names.len() > 0 && !"/"@.is_prefix_of(names[0]) ==> primary_of(names) == names[0],
        names.len() == 0 ==> primary_of(names).len() == 0,
{
    assert(id.subrange(0, short_of(id).len() as int) =~= short_of(id));
    if names.len() > 0 && "/"@.is_prefix_of(names[0]) {
        assert("/"@ + names[0].skip("/"@.len() as int) =~= names[0]);
    }
}

} // verus!
