//! A prompt for a model on this machine: what is asked of its server, and what a caller is
//! told.

use vstd::prelude::*;
use vstd::string::*;

use crate::json::{Json, Tree, entry_from, entry_trees, json_in, law_a_refusal_says_why, no_entries, object, parse, put, refusal, refusal_tree, single, text};
use crate::text::{trim_end_char, trim_end_char_of};

verus! {

/// What the server is asked: the whole completion in one answer.
pub open spec fn request_tree(model: Seq<char>, prompt: Seq<char>) -> Tree {
    Tree::Object(
        seq![
            ("model"@, Tree::Text(model)),
            ("prompt"@, Tree::Text(prompt)),
            ("stream"@, Tree::Bool(false)),
        ],
    )
}

/// The server is asked for this model and this prompt, and never to stream.
pub proof fn law_the_server_is_asked_for_the_whole(model: Seq<char>, prompt: Seq<char>)
    ensures
        request_tree(model, prompt).field("model"@) == Some(Tree::Text(model)),
        request_tree(model, prompt).field("prompt"@) == Some(Tree::Text(prompt)),
        request_tree(model, prompt).field("stream"@) == Some(Tree::Bool(false)),
{
    reveal_with_fuel(entry_from, 4);
    reveal_strlit("model");
    reveal_strlit("prompt");
    reveal_strlit("stream");
    assert("model"@.len() == 5);
    assert("prompt"@.len() == 6);
    assert("stream"@.len() == 6);
    assert("prompt"@[0] != "stream"@[0]);
}

/// What the server is asked.
pub fn ollama_request_body(model: &str, prompt: &str) -> (j: Json)
    ensures
        j@ == request_tree(model@, prompt@),
        j@.field("model"@) == Some(Tree::Text(model@)),
        j@.field("prompt"@) == Some(Tree::Text(prompt@)),
        j@.field("stream"@) == Some(Tree::Bool(false)),
{
    proof {
        law_the_server_is_asked_for_the_whole(model@, prompt@);
    }
    let mut v = no_entries();
    put(&mut v, "model", text(model));
    put(&mut v, "prompt", text(prompt));
    put(&mut v, "stream", Json::Bool(false));
    assert(entry_trees(v@) =~= request_tree(model@, prompt@)->Object_0);
    object(v)
}

/// The completion that an answer carries.
pub open spec fn completion_in(answer: Option<Tree>) -> Option<Seq<char>> {
    match answer {
        Some(t) => t.text_field("response"@),
        None => None,
    }
}

/// The completion of an answer that was read.
pub fn completion(answer: &Json) -> (r: Option<String>)
    ensures
        (match r {
            Some(s) => Some(s@),
            None => None,
        }) == completion_in(Some(answer@)),
{
    match answer.text_field("response") {
        Some(s) => Some(s.clone()),
        None => None,
    }
}

/// The completion that the server's answer carries. Any other shape is no answer rather
/// than guessed at.
pub fn ollama_response_text(body: &str) -> (r: Option<String>)
    ensures
        (match r {
            Some(s) => Some(s@),
            None => None,
        }) == completion_in(json_in(body@)),
{
    match parse(body) {
        Some(j) => completion(&j),
        None => None,
    }
}

/// Where the server completes prompts.
pub fn generate_url(server: &str) -> (out: String)
    ensures
        out@ == trim_end_char_of(server@, '/') + "/api/generate"@,
{
    trim_end_char(server, '/').concat("/api/generate")
}

/// What became of a request to the server.
pub enum Reply<'a> {
    /// It could not be reached or read, and why.
    Failed(&'a str),
    /// It answered with a status that is no success.
    Status(&'a str),
    /// It answered with this.
    Body(&'a str),
}

/// What a caller is told.
pub open spec fn told(reply: Reply) -> Tree {
    match reply {
        Reply::Failed(e) => refusal_tree("unavailable"@, e@),
        Reply::Status(s) => refusal_tree("unavailable"@, "ollama returned "@ + s@),
        Reply::Body(b) => match completion_in(json_in(b@)) {
            Some(t) => Tree::Object(seq![("response"@, Tree::Text(t))]),
            None => refusal_tree("unavailable"@, "ollama reply had no response field"@),
        },
    }
}

/// What a caller is told.
pub fn tell(reply: Reply) -> (j: Json)
    ensures
        j@ == told(reply),
{
    match reply {
        Reply::Failed(e) => refusal("unavailable", e),
        Reply::Status(s) => refusal(
            "unavailable",
            "ollama returned ".to_string().concat(s).as_str(),
        ),
        Reply::Body(b) => match ollama_response_text(b) {
            Some(t) => single("response", text(t.as_str())),
            None => refusal("unavailable", "ollama reply had no response field"),
        },
    }
}

/// What a caller is told of a reply: the completion where the server gave one; and otherwise
/// that it is unavailable, and why.
pub proof fn law_what_is_told_of_a_reply(reply: Reply)
    ensures
        (reply matches Reply::Body(b) ==> (json_in(b@) is Some && json_in(b@)->0.text_field(
            "response"@,
        ) is Some ==> told(reply).field("response"@) == Some(
            Tree::Text(json_in(b@)->0.text_field("response"@)->0),
        ))),
        (reply matches Reply::Body(b) ==> (json_in(b@) is None || json_in(b@)->0.text_field(
            "response"@,
        ) is None ==> told(reply).field("error"@) == Some(Tree::Text("unavailable"@)))),
        reply is Failed ==> told(reply).field("error"@) == Some(Tree::Text("unavailable"@)) && told(reply).field("detail"@)
            == Some(Tree::Text(reply->Failed_0@)),
        reply is Status ==> told(reply).field("error"@) == Some(Tree::Text("unavailable"@)) && told(reply).field("detail"@)
            == Some(Tree::Text("ollama returned "@ + reply->Status_0@)),
{
    law_a_refusal_says_why("unavailable"@, "ollama reply had no response field"@);
    match reply {
        Reply::Failed(e) => {
            law_a_refusal_says_why("unavailable"@, e@);
        },
        Reply::Status(s) => {
            law_a_refusal_says_why("unavailable"@, "ollama returned "@ + s@);
        },
        _ => {},
    }
}

} // verus!
