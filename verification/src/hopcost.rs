//! What a call between nodes costs: is an arm of the measurement the arm that it claims to
//! be, and what does it send?

use vstd::prelude::*;
use vstd::string::*;

use crate::json::{Json, Tree, entry_from, entry_trees, no_entries, object, put, text};
use crate::number::{dec, dec_of};
use crate::text::{contains, holds, pad_end, pad_end_of};

verus! {

/// The component that is called runs on the other node.
pub open spec fn remote(data_log: Seq<char>) -> bool {
    holds(data_log, "started alice/split/shaper"@)
}

/// The graph is one that is spread over two nodes.
pub open spec fn wants_split(fixture: Seq<char>) -> bool {
    holds(fixture, "split-graph"@)
}

/// What is told of an arm whose components run where they should, and why it is refused
/// where they do not: an arm that claims a hop it does not have measures nothing.
pub open spec fn arm_of(
    name: Seq<char>,
    fixture: Seq<char>,
    web_log: Seq<char>,
    data_log: Seq<char>,
) -> Result<Seq<char>, Seq<char>> {
    if remote(data_log) != wants_split(fixture) {
        Err(
            name + ": shaper is on the "@ + (if remote(data_log) {
                "data"@
            } else {
                "web"@
            })
                + " node, which is not what this arm measures.\nA co-located arm needs it beside gate; a split arm needs it across the bus."@,
        )
    } else if !holds(web_log, "started alice/split/gate"@) {
        Err(name + ": gate is not on the web node"@)
    } else {
        Ok(
            "    "@ + pad_end_of(name, 10) + " gate on n1, shaper on "@ + (if remote(data_log) {
                "n2 (over wrpc)"@
            } else {
                "n1 (in process)"@
            }),
        )
    }
}

/// What is told of an arm, or why it is refused.
pub fn arm(name: &str, fixture: &str, web_log: &str, data_log: &str) -> (r: Result<String, String>)
    ensures
        (match r {
            Ok(t) => Ok(t@),
            Err(e) => Err(e@),
        }) == arm_of(name@, fixture@, web_log@, data_log@),
{
    let far = contains(data_log, "started alice/split/shaper");
    if far != contains(fixture, "split-graph") {
        let side = if far {
            "data"
        } else {
            "web"
        };
        return Err(
            name.to_string().concat(": shaper is on the ").concat(side).concat(
                " node, which is not what this arm measures.\nA co-located arm needs it beside gate; a split arm needs it across the bus.",
            ),
        );
    }
    if !contains(web_log, "started alice/split/gate") {
        return Err(name.to_string().concat(": gate is not on the web node"));
    }
    let place = if far {
        "n2 (over wrpc)"
    } else {
        "n1 (in process)"
    };
    Ok(
        "    ".to_string().concat(pad_end(name, 10).as_str()).concat(
            " gate on n1, shaper on ",
        ).concat(place),
    )
}

/// Only an arm with a hop is measured as one.
pub proof fn law_a_measured_split_has_a_hop(
    name: Seq<char>,
    fixture: Seq<char>,
    web_log: Seq<char>,
    data_log: Seq<char>,
)
    requires
        arm_of(name, fixture, web_log, data_log) is Ok,
    ensures
        wants_split(fixture) == remote(data_log),
{
}

/// What a request sends: a key of its own, so that no retry adds a hop to it.
pub open spec fn request_tree(worker: nat, i: nat) -> Tree {
    Tree::Object(
        seq![
            ("key"@, Tree::Text("k-"@ + dec_of(worker) + "-"@ + dec_of(i))),
            ("capacity"@, Tree::Unsigned(100000000)),
            ("refill"@, Tree::Unsigned(100000000)),
        ],
    )
}

/// A request names a key made of its worker and its number, and asks for room and refill that
/// no run uses up.
pub proof fn law_a_request_names_its_key(worker: nat, i: nat)
    ensures
        request_tree(worker, i).field("key"@) == Some(Tree::Text("k-"@ + dec_of(worker) + "-"@ + dec_of(i))),
        request_tree(worker, i).field("capacity"@) == Some(Tree::Unsigned(100000000)),
        request_tree(worker, i).field("refill"@) == Some(Tree::Unsigned(100000000)),
{
    reveal_with_fuel(entry_from, 4);
    reveal_strlit("key");
    reveal_strlit("capacity");
    reveal_strlit("refill");
    assert("key"@.len() == 3);
    assert("capacity"@.len() == 8);
    assert("refill"@.len() == 6);
}

/// What a request sends.
pub fn request(worker: u64, i: u64) -> (j: Json)
    ensures
        j@ == request_tree(worker as nat, i as nat),
        j@.field("key"@) == Some(Tree::Text("k-"@ + dec_of(worker as nat) + "-"@ + dec_of(i as nat))),
        j@.field("capacity"@) == Some(Tree::Unsigned(100000000)),
        j@.field("refill"@) == Some(Tree::Unsigned(100000000)),
{
    proof {
        law_a_request_names_its_key(worker as nat, i as nat);
    }
    let mut v = no_entries();
    put(
        &mut v,
        "key",
        text(
            "k-".to_string().concat(dec(worker).as_str()).concat("-").concat(
                dec(i).as_str(),
            ).as_str(),
        ),
    );
    put(&mut v, "capacity", Json::Unsigned(100000000));
    put(&mut v, "refill", Json::Unsigned(100000000));
    assert(entry_trees(v@) =~= request_tree(worker as nat, i as nat)->Object_0);
    object(v)
}

/// An arm is measured exactly where the shaper runs where the arm wants it and the entry runs
/// on its own node.
pub proof fn law_when_an_arm_is_measured(
    name: Seq<char>,
    fixture: Seq<char>,
    web_log: Seq<char>,
    data_log: Seq<char>,
)
    ensures
        arm_of(name, fixture, web_log, data_log) is Ok <==> (holds(
            data_log,
            "started alice/split/shaper"@,
        ) <==> holds(fixture, "split-graph"@)) && holds(web_log, "started alice/split/gate"@),
{
}

/// An arm is refused by its name: first for where the shaper is, and then for a web node without
/// its component; and one that stands tells where the shaper runs.
pub proof fn law_an_arm_is_refused_by_its_name(
    name: Seq<char>,
    fixture: Seq<char>,
    web_log: Seq<char>,
    data_log: Seq<char>,
)
    ensures
        arm_of(name, fixture, web_log, data_log) matches Err(e) ==> (name
            + ": shaper is on the "@).is_prefix_of(e) || e == name + ": gate is not on the web node"@,
        remote(data_log) != wants_split(fixture) && remote(data_log) ==> (arm_of(
            name,
            fixture,
            web_log,
            data_log,
        ) matches Err(e) && (name + ": shaper is on the "@ + "data"@).is_prefix_of(e)),
        remote(data_log) != wants_split(fixture) && !remote(data_log) ==> (arm_of(
            name,
            fixture,
            web_log,
            data_log,
        ) matches Err(e) && (name + ": shaper is on the "@ + "web"@).is_prefix_of(e)),
        remote(data_log) == wants_split(fixture) && !holds(web_log, "started alice/split/gate"@) ==> arm_of(
            name,
            fixture,
            web_log,
            data_log,
        ) == Err::<Seq<char>, Seq<char>>(name + ": gate is not on the web node"@),
        arm_of(name, fixture, web_log, data_log) matches Ok(t) ==> ("    "@ + pad_end_of(name, 10)
            + " gate on n1, shaper on "@).is_prefix_of(t),
{
    let who = name + ": shaper is on the "@;
    let place = if remote(data_log) {
        who + "data"@
    } else {
        who + "web"@
    };
    let head = "    "@ + pad_end_of(name, 10) + " gate on n1, shaper on "@;
    match arm_of(name, fixture, web_log, data_log) {
        Err(e) => {
            if remote(data_log) != wants_split(fixture) {
                assert(e.subrange(0, who.len() as int) =~= who);
                assert(e.subrange(0, place.len() as int) =~= place);
            }
        },
        Ok(t) => {
            assert(t.subrange(0, head.len() as int) =~= head);
        },
    }
}

} // verus!
