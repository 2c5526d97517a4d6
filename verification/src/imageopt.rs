//! Shrinking an image: where the result goes, when it is resized and how it is written,
//! and what a caller is told.

use vstd::prelude::*;
use vstd::string::*;

use crate::json::{Json, Tree, law_a_refusal_says_why, refusal, refusal_tree, single, text};
use crate::path::{below, extension, extension_of, join_name, last_name, name, name_parts, parent, parent_of, split_name};
use crate::text::{lower, lower_of, same};

verus! {

/// The name of the result: `.opt` goes before the extension.
pub open spec fn opt_name(name: Option<Seq<char>>) -> Seq<char> {
    match name {
        None => ".opt"@,
        Some(n) => match name_parts(n).1 {
            Some(ext) => name_parts(n).0 + ".opt."@ + ext,
            None => name_parts(n).0 + ".opt"@,
        },
    }
}

/// Where the result goes: beside the input, so that a caller keeps the original.
pub open spec fn output_of(input: Seq<char>) -> Seq<char> {
    match last_name(input) {
        Some(n) => below(parent_of(input), opt_name(Some(n))),
        None => below(input, opt_name(None)),
    }
}

/// Where the result goes.
pub fn output_path(input: &str) -> (out: String)
    ensures
        out@ == output_of(input@),
{
    match name(input) {
        None => join_name(input, ".opt"),
        Some(n) => {
            let (stem, ext) = split_name(n.as_str());
            let file = match ext {
                Some(e) => stem.concat(".opt.").concat(e.as_str()),
                None => stem.concat(".opt"),
            };
            join_name(parent(input).as_str(), file.as_str())
        },
    }
}

/// A path is written as a JPEG.
pub open spec fn jpeg(path: Seq<char>) -> bool {
    match extension_of(path) {
        Some(e) => lower_of(e) == "jpg"@ || lower_of(e) == "jpeg"@,
        None => false,
    }
}

/// Is a path written as a JPEG? That is the one format with a quality to choose.
pub fn is_jpeg(path: &str) -> (r: bool)
    ensures
        r == jpeg(path@),
{
    match extension(path) {
        Some(e) => {
            let l = lower(e.as_str());
            same(l.as_str(), "jpg") || same(l.as_str(), "jpeg")
        },
        None => false,
    }
}

/// Is an image too wide to stay as it is?
pub fn too_wide(width: u32, max_width: u32) -> (r: bool)
    ensures
        r == (width > max_width),
{
    width > max_width
}

/// What became of an image that a caller named.
pub enum Work<'a> {
    /// No operator listed its directory.
    NotPermitted,
    /// It is not there.
    Missing,
    /// It could not be read or written, and why.
    Failed(&'a str),
    /// It was written.
    Done,
}

/// What a caller is told.
pub open spec fn answer_of(requested: Seq<char>, output: Seq<char>, work: Work) -> Tree {
    match work {
        Work::NotPermitted => refusal_tree("not-permitted"@, requested),
        Work::Missing => refusal_tree("no-such-file"@, requested),
        Work::Failed(e) => refusal_tree("unavailable"@, e@),
        Work::Done => Tree::Object(seq![("output"@, Tree::Text(output))]),
    }
}

/// What a caller is told.
pub fn answer(requested: &str, output: &str, work: Work) -> (j: Json)
    ensures
        j@ == answer_of(requested@, output@, work),
{
    match work {
        Work::NotPermitted => refusal("not-permitted", requested),
        Work::Missing => refusal("no-such-file", requested),
        Work::Failed(e) => refusal("unavailable", e),
        Work::Done => single("output", text(output)),
    }
}

/// What a caller is told of the work: where the result is once it is done; and otherwise which
/// file was not permitted or not there, or what went wrong.
pub proof fn law_what_is_told_of_the_work(requested: Seq<char>, output: Seq<char>, work: Work)
    ensures
        work is Done ==> answer_of(requested, output, work).field("output"@) == Some(
            Tree::Text(output),
        ),
        work is NotPermitted ==> answer_of(requested, output, work).field("error"@) == Some(Tree::Text("not-permitted"@)) && answer_of(requested, output, work).field("detail"@)
            == Some(Tree::Text(requested)),
        work is Missing ==> answer_of(requested, output, work).field("error"@) == Some(Tree::Text("no-such-file"@)) && answer_of(requested, output, work).field("detail"@)
            == Some(Tree::Text(requested)),
        work is Failed ==> answer_of(requested, output, work).field("error"@) == Some(Tree::Text("unavailable"@)) && answer_of(requested, output, work).field("detail"@)
            == Some(Tree::Text(work->Failed_0@)),
{
    law_a_refusal_says_why("not-permitted"@, requested);
    law_a_refusal_says_why("no-such-file"@, requested);
    if work is Failed {
        law_a_refusal_says_why("unavailable"@, work->Failed_0@);
    }
}

/// A picture is a JPEG by its ending alone, however that is written.
pub proof fn law_what_a_jpeg_is(path: Seq<char>)
    ensures
        jpeg(path) <==> extension_of(path) is Some && (lower_of(extension_of(path)->0) == "jpg"@
            || lower_of(extension_of(path)->0) == "jpeg"@),
{
}

/// The result stands beside the picture: under its name, with `opt` before its ending.
pub proof fn law_where_the_result_stands(input: Seq<char>)
    ensures
        last_name(input) is Some && name_parts(last_name(input)->0).1 is Some ==> output_of(input)
            == below(
            parent_of(input),
            name_parts(last_name(input)->0).0 + ".opt."@ + name_parts(last_name(input)->0).1->0,
        ),
        last_name(input) is Some && name_parts(last_name(input)->0).1 is None ==> output_of(input)
            == below(parent_of(input), name_parts(last_name(input)->0).0 + ".opt"@),
{
}

} // verus!
