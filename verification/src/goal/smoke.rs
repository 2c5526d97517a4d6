//! What a smoke run shows: that everything a run needs is wired, at no cost.

use vstd::prelude::*;
use vstd::string::*;

use crate::goal::compose::{already_published, part_names};
use crate::goal::spec::PartSpec;
use crate::json::{read_value, said_in, show, written};
use crate::number::{dec, dec_of};
use crate::text::{holds, join, join_of, strs};

verus! {

/// How a reply is shown: what it says, without blanks; `null` where it is no JSON.
pub fn replied(text: &str) -> (out: String)
    ensures
        out@ == written(said_in(text@)),
{
    match read_value(text) {
        Ok(v) => show(&v),
        Err(_) => "null".to_string(),
    }
}

/// What a registry showed, from what publishing to it answered and what it holds; or why
/// it cannot be used. What it holds is looked at only where a contract was there before.
pub open spec fn registry_of(
    published: Result<u64, Seq<char>>,
    current: Result<u64, Seq<char>>,
    path: Seq<char>,
) -> Result<Seq<char>, Seq<char>> {
    match published {
        Ok(v) => Ok(
            "  · contract v"@ + dec_of(v as nat) + " published from "@ + path
                + " → registry → graph → SurrealDB, and the database's secret was granted"@,
        ),
        Err(e) => if holds(e, "already published"@) {
            match current {
                Ok(n) => Ok(
                    "  · contract v"@ + dec_of(n as nat)
                        + " already in the registry, and readable → the whole chain to SurrealDB works"@,
                ),
                Err(why) => Err("the registry has a contract it cannot read back: "@ + why),
            }
        } else {
            Err("the contract registry is not usable: "@ + e)
        },
    }
}

/// An answer with its texts as plain values.
pub open spec fn result_views(r: Result<String, String>) -> Result<Seq<char>, Seq<char>> {
    match r {
        Ok(t) => Ok(t@),
        Err(e) => Err(e@),
    }
}

/// A number, or why there is none.
pub open spec fn numbered(r: Result<u64, String>) -> Result<u64, Seq<char>> {
    match r {
        Ok(n) => Ok(n),
        Err(e) => Err(e@),
    }
}

/// What a registry showed, or why it cannot be used.
pub fn registry(published: Result<u64, String>, current: Result<u64, String>, path: &str) -> (r:
    Result<String, String>)
    ensures
        result_views(r) == registry_of(numbered(published), numbered(current), path@),
{
    match published {
        Ok(v) => Ok(
            "  · contract v".to_string().concat(dec(v).as_str()).concat(" published from ").concat(
                path,
            ).concat(" → registry → graph → SurrealDB, and the database's secret was granted"),
        ),
        Err(e) => {
            if already_published(e.as_str()) {
                match current {
                    Ok(n) => Ok(
                        "  · contract v".to_string().concat(dec(n).as_str()).concat(
                            " already in the registry, and readable → the whole chain to SurrealDB works",
                        ),
                    ),
                    Err(why) => Err(
                        "the registry has a contract it cannot read back: ".to_string().concat(
                            why.as_str(),
                        ),
                    ),
                }
            } else {
                Err("the contract registry is not usable: ".to_string().concat(e.as_str()))
            }
        },
    }
}

/// What is shown of a decomposed goal: that its doors serve, what the registry showed,
/// and what the answering model says that it is.
pub open spec fn parts_shown(parts: Seq<PartSpec>, registry: Seq<char>, model: Seq<char>) -> Seq<
    Seq<char>,
> {
    if parts.len() == 0 {
        Seq::empty()
    } else {
        seq![
            "  · the contract registry and the answer door serve"@,
            registry,
            "  · the answering model is reachable and says it is → "@ + model,
            "  · parts: "@ + join_of(parts.map_values(|p: PartSpec| p.name@), ", "@),
        ]
    }
}

/// What a smoke run says: what it showed, and what only a run that costs can show.
pub open spec fn smoke_text(
    parts: Seq<PartSpec>,
    driver: Seq<char>,
    registry: Seq<char>,
    model: Seq<char>,
    allow: Seq<Seq<char>>,
) -> Seq<Seq<char>> {
    seq![
        "\nSMOKE OK:"@,
        "  · both graphs started and serve → links, egress and secret GRANTS are correct"@,
        "  · driver reachable → "@ + driver,
    ] + parts_shown(parts, registry, model) + seq![
        "\nWhat smoke does NOT check (needs a real call, costs money):"@,
        "  · that the Anthropic key VALUE is accepted"@,
        "  · that the GitHub token VALUE can open a PR"@,
        "  · that `"@ + join_of(allow, " "@) + "` actually runs under the"@ + " gate"@,
    ] + (if parts.len() == 0 {
        Seq::empty()
    } else {
        seq!["  · that the parts negotiate — the first request costs one small call"@]
    }) + seq!["\nRun for real by dropping --smoke."@]
}

fn say(out: &mut Vec<String>, line: String)
    ensures
        strs(final(out)@) == strs(old(out)@).push(line@),
{
    let ghost o = out@;
    out.push(line);
    assert(strs(out@) =~= strs(o).push(line@));
}

/// What a smoke run says. `registry` and `model` are told only of a decomposed goal.
pub fn smoke(
    parts: &Vec<PartSpec>,
    driver: &str,
    registry: &str,
    model: &str,
    allow: &Vec<String>,
) -> (out: Vec<String>)
    ensures
        strs(out@) == smoke_text(parts@, driver@, registry@, model@, strs(allow@)),
{
    let mut out: Vec<String> = Vec::new();
    assert(strs(out@) =~= Seq::<Seq<char>>::empty());
    say(&mut out, "\nSMOKE OK:".to_string());
    say(
        &mut out,
        "  · both graphs started and serve → links, egress and secret GRANTS are correct".to_string(),
    );
    say(&mut out, "  · driver reachable → ".to_string().concat(driver));
    if parts.len() > 0 {
        say(&mut out, "  · the contract registry and the answer door serve".to_string());
        say(&mut out, registry.to_string());
        say(
            &mut out,
            "  · the answering model is reachable and says it is → ".to_string().concat(model),
        );
        say(&mut out, "  · parts: ".to_string().concat(part_names(parts).as_str()));
    }
    say(
        &mut out,
        "\nWhat smoke does NOT check (needs a real call, costs money):".to_string(),
    );
    say(&mut out, "  · that the Anthropic key VALUE is accepted".to_string());
    say(&mut out, "  · that the GitHub token VALUE can open a PR".to_string());
    say(
        &mut out,
        "  · that `".to_string().concat(join(allow, " ").as_str()).concat(
            "` actually runs under the",
        ).concat(" gate"),
    );
    if parts.len() > 0 {
        say(
            &mut out,
            "  · that the parts negotiate — the first request costs one small call".to_string(),
        );
    }
    say(&mut out, "\nRun for real by dropping --smoke.".to_string());
    assert(strs(out@) =~= smoke_text(parts@, driver@, registry@, model@, strs(allow@)));
    out
}

/// The registry is usable exactly where the contract was published, or where there was one
/// already and it could be read back.
pub proof fn law_when_the_registry_is_usable(
    published: Result<u64, Seq<char>>,
    current: Result<u64, Seq<char>>,
    path: Seq<char>,
)
    ensures
        registry_of(published, current, path) is Ok <==> published is Ok || (holds(
            published->Err_0,
            "already published"@,
        ) && current is Ok),
{
}

/// What is said of the parts is said only where there are parts, and a smoke always tells
/// what the driver answered.
pub proof fn law_a_smoke_tells_what_it_reached(
    parts: Seq<PartSpec>,
    driver: Seq<char>,
    registry: Seq<char>,
    model: Seq<char>,
    allow: Seq<Seq<char>>,
)
    ensures
        smoke_text(parts, driver, registry, model, allow)[2] == "  · driver reachable → "@ + driver,
        parts.len() > 0 ==> smoke_text(parts, driver, registry, model, allow)[4] == registry,
        parts.len() > 0 ==> smoke_text(parts, driver, registry, model, allow)[5]
            == "  · the answering model is reachable and says it is → "@ + model,
        parts.len() == 0 ==> parts_shown(parts, registry, model).len() == 0,
{
}

} // verus!
