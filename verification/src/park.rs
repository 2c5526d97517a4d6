//! Parked calls over HTTP: which function a request names, when a wake is announced, and
//! what the service tells of itself.

use vstd::prelude::*;
use vstd::string::*;

use crate::json::{Json, Tree, entry_from, entry_trees, no_entries, object, put, text};
use crate::text::same;

verus! {

/// A function of the service.
#[derive(Debug, Clone, Copy, PartialEq, Eq, Structural)]
pub enum Function {
    Park,
    Wake,
    Pending,
    TakeReady,
    Cancel,
    Oplog,
}

/// The function that a name calls.
pub open spec fn function_of(name: Seq<char>) -> Option<Function> {
    if name == "park"@ {
        Some(Function::Park)
    } else if name == "wake"@ {
        Some(Function::Wake)
    } else if name == "pending"@ {
        Some(Function::Pending)
    } else if name == "take-ready"@ {
        Some(Function::TakeReady)
    } else if name == "cancel"@ {
        Some(Function::Cancel)
    } else if name == "oplog"@ {
        Some(Function::Oplog)
    } else {
        None
    }
}

/// The function that a name calls.
pub fn function(name: &str) -> (r: Option<Function>)
    ensures
        r == function_of(name@),
{
    if same(name, "park") {
        Some(Function::Park)
    } else if same(name, "wake") {
        Some(Function::Wake)
    } else if same(name, "pending") {
        Some(Function::Pending)
    } else if same(name, "take-ready") {
        Some(Function::TakeReady)
    } else if same(name, "cancel") {
        Some(Function::Cancel)
    } else if same(name, "oplog") {
        Some(Function::Oplog)
    } else {
        None
    }
}

/// What is said of a name that calls nothing.
pub fn no_route(name: &str) -> (out: String)
    ensures
        out@ == "no such route: "@ + name@,
{
    "no such route: ".to_string().concat(name)
}

/// Is a wake announced on the stream? The first one is, where there is a stream: the record
/// is the truth, and the announcement only spares a resumer its polling.
pub fn announces(freshly_woken: bool, live: bool) -> (r: bool)
    ensures
        r == (freshly_woken && live),
{
    freshly_woken && live
}

/// The status that an answer is sent with: one that HTTP does not have is an error of the
/// service.
pub fn status(code: u16) -> (r: u16)
    ensures
        r == (if 100 <= code <= 999 {
            code
        } else {
            500
        }),
{
    if 100 <= code && code <= 999 {
        code
    } else {
        500
    }
}

/// What the service tells of itself. In memory there is no stream to announce on.
pub open spec fn health_tree(ok: bool, live: bool, bucket: Seq<char>, stream: Seq<char>) -> Tree {
    Tree::Object(
        seq![
            ("ok"@, Tree::Bool(ok)),
            (
                "backend"@,
                Tree::Text(
                    if live {
                        "nats"@
                    } else {
                        "memory"@
                    },
                ),
            ),
            ("bucket"@, Tree::Text(bucket)),
            (
                "wake-stream"@,
                if live {
                    Tree::Text(stream)
                } else {
                    Tree::Null
                },
            ),
        ],
    )
}

/// The service tells whether it is well, where it keeps its things, and, only where there is
/// a stream to announce on, which stream that is.
pub proof fn law_health_tells_what_is_there(ok: bool, live: bool, bucket: Seq<char>, stream: Seq<char>)
    ensures
        health_tree(ok, live, bucket, stream).field("ok"@) == Some(Tree::Bool(ok)),
        live ==> health_tree(ok, live, bucket, stream).field("backend"@) == Some(Tree::Text("nats"@)),
        !live ==> health_tree(ok, live, bucket, stream).field("backend"@) == Some(Tree::Text("memory"@)),
        health_tree(ok, live, bucket, stream).field("bucket"@) == Some(Tree::Text(bucket)),
        live ==> health_tree(ok, live, bucket, stream).field("wake-stream"@) == Some(Tree::Text(stream)),
        !live ==> health_tree(ok, live, bucket, stream).field("wake-stream"@) == Some(Tree::Null),
{
    reveal_with_fuel(entry_from, 5);
    reveal_strlit("ok");
    reveal_strlit("backend");
    reveal_strlit("bucket");
    reveal_strlit("wake-stream");
    assert("ok"@.len() == 2);
    assert("backend"@.len() == 7);
    assert("bucket"@.len() == 6);
    assert("wake-stream"@.len() == 11);
}

/// What the service tells of itself.
pub fn health(ok: bool, live: bool, bucket: &str, stream: &str) -> (j: Json)
    ensures
        j@ == health_tree(ok, live, bucket@, stream@),
        j@.field("ok"@) == Some(Tree::Bool(ok)),
        live ==> j@.field("backend"@) == Some(Tree::Text("nats"@)),
        !live ==> j@.field("backend"@) == Some(Tree::Text("memory"@)),
        j@.field("bucket"@) == Some(Tree::Text(bucket@)),
        live ==> j@.field("wake-stream"@) == Some(Tree::Text(stream@)),
        !live ==> j@.field("wake-stream"@) == Some(Tree::Null),
{
    proof {
        law_health_tells_what_is_there(ok, live, bucket@, stream@);
    }
    let mut v = no_entries();
    put(&mut v, "ok", Json::Bool(ok));
    put(
        &mut v,
        "backend",
        text(
            if live {
                "nats"
            } else {
                "memory"
            },
        ),
    );
    put(&mut v, "bucket", text(bucket));
    put(
        &mut v,
        "wake-stream",
        if live {
            text(stream)
        } else {
            Json::Null
        },
    );
    assert(entry_trees(v@) =~= health_tree(ok, live, bucket@, stream@)->Object_0);
    object(v)
}

/// What is told when the service starts.
pub fn started(addr: &str, memory: bool, nats_url: &str, bucket: &str, stream: &str) -> (out:
    String)
    ensures
        out@ == "comp-park: listening on http://"@ + addr@ + " | "@ + (if memory {
            "memory"@
        } else {
            nats_url@
        }) + " | bucket "@ + bucket@ + " | wake stream "@ + stream@,
{
    let place = if memory {
        "memory"
    } else {
        nats_url
    };
    "comp-park: listening on http://".to_string().concat(addr).concat(" | ").concat(place).concat(
        " | bucket ",
    ).concat(bucket).concat(" | wake stream ").concat(stream)
}

/// A function is reached by its own name, and by no other.
pub proof fn law_each_function_has_its_name(name: Seq<char>)
    ensures
        function_of(name) == Some(Function::Park) <==> name == "park"@,
        function_of(name) == Some(Function::Wake) <==> name == "wake"@,
        function_of(name) == Some(Function::Pending) <==> name == "pending"@,
        function_of(name) == Some(Function::TakeReady) <==> name == "take-ready"@,
        function_of(name) == Some(Function::Cancel) <==> name == "cancel"@,
        function_of(name) == Some(Function::Oplog) <==> name == "oplog"@,
{
    reveal_strlit("park");
    reveal_strlit("wake");
    reveal_strlit("pending");
    reveal_strlit("take-ready");
    reveal_strlit("cancel");
    reveal_strlit("oplog");
    assert("park"@.len() == 4);
    assert("wake"@.len() == 4);
    assert("pending"@.len() == 7);
    assert("take-ready"@.len() == 10);
    assert("cancel"@.len() == 6);
    assert("oplog"@.len() == 5);
    assert("park"@[0] != "wake"@[0]);
}

} // verus!
