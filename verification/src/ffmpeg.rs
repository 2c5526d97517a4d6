//! Re-encoding a video: where the result goes, what is run, and what a caller is told.

use vstd::prelude::*;
use vstd::string::*;

use crate::json::{Json, Tree, law_a_refusal_says_why, refusal, refusal_tree, single, text};
use crate::path::{with_extension, with_extension_of};
use crate::text::strs;

verus! {

/// Where the re-encoded video goes: beside its input, under the same name with the
/// target's extension.
pub fn output_path(input: &str) -> (out: String)
    ensures
        out@ == with_extension_of(input@, "mp4"@),
{
    with_extension(input, "mp4")
}

/// What the encoder is started with: it overwrites what an earlier run left.
pub fn arguments(input: &str, output: &str) -> (v: Vec<String>)
    ensures
        strs(v@) == seq!["-y"@, "-i"@, input@, output@],
{
    let mut v: Vec<String> = Vec::new();
    v.push("-y".to_string());
    v.push("-i".to_string());
    v.push(input.to_string());
    v.push(output.to_string());
    assert(strs(v@) =~= seq!["-y"@, "-i"@, input@, output@]);
    v
}

/// What became of a file that a caller named.
pub enum Run<'a> {
    /// No operator listed its directory.
    NotPermitted,
    /// It is not there.
    Missing,
    /// The encoder could not be started, and why.
    NotStarted(&'a str),
    /// The encoder ended: whether well, how it says so, and whether the output is there.
    Ended { ok: bool, status: &'a str, written: bool },
}

/// What a caller is told. A refusal and a missing file are different answers: the one is a
/// decision, the other a fact about the disk.
pub open spec fn answer_of(requested: Seq<char>, output: Seq<char>, run: Run) -> Tree {
    match run {
        Run::NotPermitted => refusal_tree("not-permitted"@, requested),
        Run::Missing => refusal_tree("no-such-file"@, requested),
        Run::NotStarted(e) => refusal_tree("unavailable"@, "failed to run ffmpeg: "@ + e@),
        Run::Ended { ok, status, written } => if ok && written {
            Tree::Object(seq![("output"@, Tree::Text(output))])
        } else {
            refusal_tree("unavailable"@, "ffmpeg exited "@ + status@)
        },
    }
}

/// What a caller is told.
pub fn answer(requested: &str, output: &str, run: Run) -> (j: Json)
    ensures
        j@ == answer_of(requested@, output@, run),
{
    match run {
        Run::NotPermitted => refusal("not-permitted", requested),
        Run::Missing => refusal("no-such-file", requested),
        Run::NotStarted(e) => refusal(
            "unavailable",
            "failed to run ffmpeg: ".to_string().concat(e).as_str(),
        ),
        Run::Ended { ok, status, written } => if ok && written {
            single("output", text(output))
        } else {
            refusal("unavailable", "ffmpeg exited ".to_string().concat(status).as_str())
        },
    }
}

/// What a caller is told of a run: where the output is, exactly where the encoder ended well and
/// wrote it; and otherwise which file was not permitted or not there, or how the encoder ended.
pub proof fn law_what_is_told_of_a_run(requested: Seq<char>, output: Seq<char>, run: Run)
    ensures
        answer_of(requested, output, run).field("output"@) is Some <==> (run matches Run::Ended {
            ok,
            written,
            ..
        } && ok && written),
        answer_of(requested, output, run).field("output"@) is Some ==> answer_of(
            requested,
            output,
            run,
        ).field("output"@) == Some(Tree::Text(output)),
        run is NotPermitted ==> answer_of(requested, output, run).field("error"@) == Some(Tree::Text("not-permitted"@)) && answer_of(requested, output, run).field("detail"@)
            == Some(Tree::Text(requested)),
        run is Missing ==> answer_of(requested, output, run).field("error"@) == Some(Tree::Text("no-such-file"@)) && answer_of(requested, output, run).field("detail"@)
            == Some(Tree::Text(requested)),
        run is NotStarted ==> answer_of(requested, output, run).field("error"@) == Some(Tree::Text("unavailable"@)) && answer_of(requested, output, run).field("detail"@)
            == Some(Tree::Text("failed to run ffmpeg: "@ + run->NotStarted_0@)),
        run matches Run::Ended { ok, status, written } ==> (!(ok && written) ==> answer_of(
            requested,
            output,
            run,
        ).field("error"@) == Some(Tree::Text("unavailable"@)) && answer_of(
            requested,
            output,
            run,
        ).field("detail"@) == Some(Tree::Text("ffmpeg exited "@ + status@))),
{
    reveal_with_fuel(crate::json::entry_from, 3);
    reveal_strlit("error");
    reveal_strlit("detail");
    reveal_strlit("output");
    assert("error"@.len() == 5);
    assert("detail"@.len() == 6);
    assert("output"@.len() == 6);
    assert("detail"@[0] != "output"@[0]);
}

} // verus!
