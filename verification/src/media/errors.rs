//! `refused` is a decision, `not-found` a missing thing, `unavailable` the store or
//! the queue. A caller should retry only the last.

use vstd::prelude::*;
use vstd::string::*;

use crate::json::{Json, Tree, law_a_refusal_says_why, refusal, refusal_tree};

verus! {

/// Why a request was not served.
#[derive(Debug, PartialEq, Eq)]
pub enum MediaError {
    Refused(String),
    NotFound(String),
    Unavailable(String),
}

/// The word for an error's kind.
pub open spec fn kind_of(e: MediaError) -> Seq<char> {
    match e {
        MediaError::Refused(_) => "refused"@,
        MediaError::NotFound(_) => "not-found"@,
        MediaError::Unavailable(_) => "unavailable"@,
    }
}

/// What an error says.
pub open spec fn detail_of(e: MediaError) -> Seq<char> {
    match e {
        MediaError::Refused(d) => d@,
        MediaError::NotFound(d) => d@,
        MediaError::Unavailable(d) => d@,
    }
}

impl MediaError {
    /// The error as it is answered.
    pub fn json(&self) -> (j: Json)
        ensures
            j@ == refusal_tree(kind_of(*self), detail_of(*self)),
    {
        match self {
            MediaError::Refused(d) => refusal("refused", d.as_str()),
            MediaError::NotFound(d) => refusal("not-found", d.as_str()),
            MediaError::Unavailable(d) => refusal("unavailable", d.as_str()),
        }
    }
}

/// What is answered for a result.
pub open spec fn answer_tree(r: Result<Json, MediaError>) -> Tree {
    match r {
        Ok(j) => j@,
        Err(e) => refusal_tree(kind_of(e), detail_of(e)),
    }
}

/// What is answered for a result. Every route answers 200: anything else means
/// transport.
pub fn answer(r: Result<Json, MediaError>) -> (j: Json)
    ensures
        j@ == answer_tree(r),
{
    match r {
        Ok(j) => j,
        Err(e) => e.json(),
    }
}

/// An error is answered by its own kind and its own words: a decision, a missing thing and a
/// store that is away are told apart. A result is answered as it is.
pub proof fn law_an_error_is_answered_by_its_kind(r: Result<Json, MediaError>)
    ensures
        r is Ok ==> answer_tree(r) == r->Ok_0@,
        (r matches Err(MediaError::Refused(d)) ==> answer_tree(r).field("error"@) == Some(
            Tree::Text("refused"@),
        ) && answer_tree(r).field("detail"@) == Some(Tree::Text(d@))),
        (r matches Err(MediaError::NotFound(d)) ==> answer_tree(r).field("error"@) == Some(
            Tree::Text("not-found"@),
        ) && answer_tree(r).field("detail"@) == Some(Tree::Text(d@))),
        (r matches Err(MediaError::Unavailable(d)) ==> answer_tree(r).field("error"@) == Some(
            Tree::Text("unavailable"@),
        ) && answer_tree(r).field("detail"@) == Some(Tree::Text(d@))),
{
    if let Err(e) = r {
        law_a_refusal_says_why(kind_of(e), detail_of(e));
    }
}

} // verus!
