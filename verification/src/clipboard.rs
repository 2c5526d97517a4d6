//! What the clipboard holds, as a caller is told.

use vstd::prelude::*;
use vstd::string::*;

use crate::json::{Json, Tree, law_a_refusal_says_why, refusal, refusal_tree, single, text};

verus! {

/// What a look at the clipboard gave.
pub enum Look<'a> {
    /// This text.
    Text(&'a str),
    /// No text: an image, or nothing at all.
    Empty,
    /// No clipboard to look at, and why.
    Unavailable(&'a str),
}

/// What a caller is told.
pub open spec fn told(look: Look) -> Tree {
    match look {
        Look::Text(t) => Tree::Object(seq![("text"@, Tree::Text(t@))]),
        Look::Empty => Tree::Object(seq![("error"@, Tree::Text("empty"@))]),
        Look::Unavailable(e) => refusal_tree("unavailable"@, e@),
    }
}

/// What a caller is told.
pub fn tell(look: Look) -> (j: Json)
    ensures
        j@ == told(look),
{
    match look {
        Look::Text(t) => single("text", text(t)),
        Look::Empty => single("error", text("empty")),
        Look::Unavailable(e) => refusal("unavailable", e),
    }
}

/// What a look is told as: the text itself, that there is none, or why nobody could look.
pub proof fn law_what_a_look_is_told_as(look: Look)
    ensures
        look is Text ==> told(look).field("text"@) == Some(Tree::Text(look->Text_0@)),
        look is Empty ==> told(look).field("error"@) == Some(Tree::Text("empty"@)),
        look is Unavailable ==> told(look).field("error"@) == Some(Tree::Text("unavailable"@)) && told(look).field("detail"@)
            == Some(Tree::Text(look->Unavailable_0@)),
{
    if look is Unavailable {
        law_a_refusal_says_why("unavailable"@, look->Unavailable_0@);
    }
}

} // verus!
