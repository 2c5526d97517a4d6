//! Run a candidate's checks, and report what passed: which commands and paths are
//! refused, what a result says, and how a request is framed.

use vstd::prelude::*;
use vstd::string::*;

use crate::json::{Json, Tree, entry_from, entry_trees, list, no_entries, object, put, text, trees};
use crate::number::{dec, dec_of, number_of, parse_number};
use crate::text::{chars_of, debug, debug_of, find_from, holds, is_char, join, join_of, lemma_assoc, lemma_holds_end, lemma_holds_itself, lemma_holds_longer, lemma_split_first, lines, lines_of, lossy, lossy_of, lower, lower_of, occurs_at, same, slice_text, split, split_of, split_once, split_once_of, strs, trim, trim_of, words, words_of};

verus! {

// ---------------------------------------------------------------- requests --

/// One thing to check about a candidate. A required one is what it is accepted by;
/// every one counts in the score.
#[derive(Debug, PartialEq, Eq)]
pub struct Check {
    pub id: String,
    pub required: bool,
    pub weight: u32,
    pub command: Vec<String>,
}

/// A file of a tree.
#[derive(Debug, PartialEq, Eq)]
pub struct FileChange {
    pub path: String,
    pub content: String,
}

/// How one check went.
#[derive(Debug, PartialEq, Eq)]
pub struct Result1 {
    pub id: String,
    pub required: bool,
    pub weight: u32,
    pub passed: bool,
    pub took_ms: u64,
    pub detail: String,
}

/// A path inside the tree, and not outside it.
pub open spec fn inside(p: Seq<char>) -> bool {
    &&& p.len() > 0
    &&& forall|i: int|
        0 <= i < split_of(p, '/').len() ==> (#[trigger] split_of(p, '/')[i]).len() > 0
            && split_of(p, '/')[i] != ".."@ && split_of(p, '/')[i] != "."@
    &&& forall|i: int| 0 <= i < p.len() ==> #[trigger] p[i] as u32 != 0
}

/// Is this a path inside the tree? An absolute one has an empty first part.
pub fn safe_path(p: &str) -> (r: bool)
    ensures
        r == inside(p@),
{
    let cs = chars_of(p);
    if cs.len() == 0 {
        return false;
    }
    let mut i: usize = 0;
    while i < cs.len()
        invariant
            i <= cs.len(),
            cs@ == p@,
            forall|k: int| 0 <= k < i ==> #[trigger] p@[k] as u32 != 0,
        decreases cs.len() - i,
    {
        if cs[i] as u32 == 0 {
            assert(p@[i as int] as u32 == 0);
            return false;
        }
        i = i + 1;
    }
    let parts = split(p, '/');
    let mut k: usize = 0;
    while k < parts.len()
        invariant
            k <= parts.len(),
            strs(parts@) == split_of(p@, '/'),
            forall|a: int|
                0 <= a < k ==> (#[trigger] split_of(p@, '/')[a]).len() > 0 && split_of(p@, '/')[a]
                    != ".."@ && split_of(p@, '/')[a] != "."@,
        decreases parts.len() - k,
    {
        let part = parts[k].as_str();
        assert(split_of(p@, '/')[k as int] == part@);
        if part.is_empty() || same(part, "..") || same(part, ".") {
            return false;
        }
        k = k + 1;
    }
    true
}

/// Why a path is refused, where it is.
pub fn bad_path(p: &str) -> (r: Option<String>)
    ensures
        r is Some <==> !inside(p@),
        r matches Some(t) ==> t@ == debug_of(p@) + " is not a path inside the tree"@,
{
    if safe_path(p) {
        None
    } else {
        Some(debug(p).concat(" is not a path inside the tree"))
    }
}

/// How many changes come before the first from `i` on that names no path inside the
/// tree.
pub open spec fn good_changes(cs: Seq<FileChange>, i: int) -> int
    decreases cs.len() - i,
{
    if i < 0 || i >= cs.len() || !inside(cs[i].path@) {
        i
    } else {
        good_changes(cs, i + 1)
    }
}

/// What changing a tree comes to: how many of the changes are written, in their order,
/// and why the next one is refused, where one is.
pub fn apply(cs: &Vec<FileChange>) -> (r: (usize, Option<String>))
    ensures
        r.0 == good_changes(cs@, 0),
        r.0 <= cs@.len(),
        forall|k: int| 0 <= k < r.0 ==> inside((#[trigger] cs@[k]).path@),
        r.1 is Some <==> r.0 < cs@.len(),
        r.1 matches Some(t) ==> t@ == debug_of(cs@[r.0 as int].path@)
            + " is not a path inside the tree"@,
{
    let mut i: usize = 0;
    while i < cs.len()
        invariant
            i <= cs.len(),
            good_changes(cs@, i as int) == good_changes(cs@, 0),
            forall|k: int| 0 <= k < i ==> inside((#[trigger] cs@[k]).path@),
        decreases cs.len() - i,
    {
        match bad_path(cs[i].path.as_str()) {
            Some(why) => {
                return (i, Some(why));
            },
            None => {},
        }
        i = i + 1;
    }
    (i, None)
}

/// A path inside the tree does not start at the root and does not step up.
pub proof fn law_a_change_cannot_escape_the_tree(p: Seq<char>)
    requires
        inside(p),
    ensures
        p[0] != '/',
        !split_of(p, '/').contains(".."@),
{
    if p[0] == '/' {
        lemma_split_first(p, is_char('/'));
    }
}

/// The allowed commands of an operator, each split into its words.
pub fn allow_list(allow: &Vec<String>) -> (out: Vec<Vec<String>>)
    ensures
        out@.len() == allow@.len(),
        forall|i: int|
            0 <= i < out@.len() ==> strs((#[trigger] out@[i])@) == words_of(allow@[i]@),
{
    let mut out: Vec<Vec<String>> = Vec::new();
    let mut i: usize = 0;
    while i < allow.len()
        invariant
            i <= allow.len(),
            out@.len() == i,
            forall|k: int|
                0 <= k < i ==> strs((#[trigger] out@[k])@) == words_of(allow@[k]@),
        decreases allow.len() - i,
    {
        out.push(words(allow[i].as_str()));
        i = i + 1;
    }
    out
}

/// A command begins with one that is allowed.
pub open spec fn allowed(allow: Seq<Vec<String>>, cmd: Seq<Seq<char>>) -> bool {
    exists|i: int| 0 <= i < allow.len() && strs((#[trigger] allow[i])@).is_prefix_of(cmd)
}

/// Is this command one that the operator allowed? Word by word: `cargo test` permits
/// what begins with it and refuses `cargo publish`.
pub fn permitted(allow: &Vec<Vec<String>>, cmd: &Vec<String>) -> (r: bool)
    ensures
        r == allowed(allow@, strs(cmd@)),
{
    let mut i: usize = 0;
    while i < allow.len()
        invariant
            i <= allow.len(),
            forall|k: int| 0 <= k < i ==> !strs((#[trigger] allow@[k])@).is_prefix_of(strs(cmd@)),
        decreases allow.len() - i,
    {
        let a = &allow[i];
        if a.len() <= cmd.len() {
            let mut k: usize = 0;
            while k < a.len() && same(a[k].as_str(), cmd[k].as_str())
                invariant
                    k <= a.len() <= cmd.len(),
                    forall|j: int| 0 <= j < k ==> #[trigger] a@[j]@ == cmd@[j]@,
                decreases a.len() - k,
            {
                k = k + 1;
            }
            if k == a.len() {
                assert(strs(a@) =~= strs(cmd@).take(a@.len() as int));
                assert(strs(allow@[i as int]@).is_prefix_of(strs(cmd@)));
                return true;
            }
            assert(strs(a@)[k as int] != strs(cmd@)[k as int]);
            assert(!strs(a@).is_prefix_of(strs(cmd@))) by {
                if strs(a@).is_prefix_of(strs(cmd@)) {
                    assert(strs(a@)[k as int] == strs(cmd@).take(a@.len() as int)[k as int]);
                }
            }
        }
        i = i + 1;
    }
    false
}

// ----------------------------------------------------------------- results --

/// The weight of a check: at least one.
pub open spec fn weight_of(c: Check) -> u32 {
    if c.weight < 1 {
        1
    } else {
        c.weight
    }
}

/// A result that says a check did not pass.
pub fn refuse(c: &Check, detail: String, took_ms: u64) -> (r: Result1)
    ensures
        r.id@ == c.id@,
        r.required == c.required,
        r.weight == weight_of(*c),
        !r.passed,
        r.took_ms == took_ms,
        r.detail == detail,
{
    Result1 {
        id: c.id.clone(),
        required: c.required,
        weight: if c.weight < 1 {
            1
        } else {
            c.weight
        },
        passed: false,
        took_ms,
        detail,
    }
}

/// Why a check does not run, where it does not.
pub open spec fn not_run(c: Check, allow: Seq<Vec<String>>) -> Option<Seq<char>> {
    if c.command@.len() == 0 {
        Some("no command"@)
    } else if !allowed(allow, strs(c.command@)) {
        Some("`"@ + join_of(strs(c.command@), " "@) + "` is not on this runner's allow-list"@)
    } else {
        None
    }
}

/// Why a check does not run, where it does not. It fails rather than being an error, so
/// that one bad check does not discard the others.
pub fn refused(c: &Check, allow: &Vec<Vec<String>>) -> (r: Option<String>)
    ensures
        (match r {
            Some(t) => Some(t@),
            None => None,
        }) == not_run(*c, allow@),
{
    if c.command.len() == 0 {
        return Some("no command".to_string());
    }
    if !permitted(allow, &c.command) {
        let cmd = join(&c.command, " ");
        return Some(
            "`".to_string().concat(cmd.as_str()).concat("` is not on this runner's allow-list"),
        );
    }
    None
}

/// What a check that hangs is said to have come to.
pub fn killed(timeout: u64) -> (out: String)
    ensures
        out@ == "killed after "@ + dec_of(timeout as nat) + "s"@,
{
    "killed after ".to_string().concat(dec(timeout).as_str()).concat("s")
}

/// The last `n` characters of a text.
pub open spec fn tail_of(s: Seq<char>, n: int) -> Seq<char> {
    if s.len() <= n {
        s
    } else {
        s.skip(s.len() - n)
    }
}

/// What a check said: what it wrote as errors, else what it wrote, the end of it.
pub open spec fn said(stdout: Seq<u8>, stderr: Seq<u8>) -> Seq<char> {
    let text = if trim_of(lossy_of(stderr)).len() == 0 {
        lossy_of(stdout)
    } else {
        lossy_of(stderr)
    };
    trim_of(tail_of(text, 600))
}

/// How a check that ran went. A failing suite says the useful part last, so its end is
/// kept.
pub fn run_check(c: &Check, success: bool, stdout: &[u8], stderr: &[u8], took_ms: u64) -> (r:
    Result1)
    ensures
        r.id@ == c.id@,
        r.required == c.required,
        r.weight == weight_of(*c),
        r.passed == success,
        r.took_ms == took_ms,
        r.detail@ == said(stdout@, stderr@),
{
    let errors = lossy(stderr);
    let blank = trim(errors.as_str());
    let all = if blank.as_str().is_empty() {
        lossy(stdout)
    } else {
        errors
    };
    let cs = chars_of(all.as_str());
    let from: usize = if cs.len() <= 600 {
        0
    } else {
        cs.len() - 600
    };
    let end = slice_text(&cs, from, cs.len());
    assert(end@ =~= tail_of(all@, 600));
    let detail = trim(end.as_str());
    Result1 {
        id: c.id.clone(),
        required: c.required,
        weight: if c.weight < 1 {
            1
        } else {
            c.weight
        },
        passed: success,
        took_ms,
        detail,
    }
}

/// The only variables that a check is given: it inherits nothing.
pub fn check_env(path: Option<String>, dir: &str) -> (out: Vec<(String, String)>)
    ensures
        out@.len() == 3,
        out@[0].0@ == "PATH"@,
        out@[0].1@ == match path {
            Some(p) => p@,
            None => "/usr/bin:/bin"@,
        },
        out@[1].0@ == "HOME"@,
        out@[1].1@ == dir@,
        out@[2].0@ == "CARGO_TERM_COLOR"@,
        out@[2].1@ == "never"@,
{
    let path = match path {
        Some(p) => p,
        None => "/usr/bin:/bin".to_string(),
    };
    let mut v: Vec<(String, String)> = Vec::new();
    v.push(("PATH".to_string(), path));
    v.push(("HOME".to_string(), dir.to_string()));
    v.push(("CARGO_TERM_COLOR".to_string(), "never".to_string()));
    v
}

// ------------------------------------------------------------------ report --

/// What came of all checks: whether the candidate may be accepted, and its score of a
/// thousand.
#[derive(Debug, PartialEq, Eq)]
pub struct Report {
    pub candidate: String,
    pub accepted: bool,
    pub score: u32,
    pub passed: usize,
    pub total: usize,
    pub results: Vec<Result1>,
}

/// Every required check passed.
pub open spec fn gate_open(rs: Seq<Result1>) -> bool {
    forall|i: int| 0 <= i < rs.len() && (#[trigger] rs[i]).required ==> rs[i].passed
}

/// The weights of all checks.
pub open spec fn total_weight(rs: Seq<Result1>) -> nat
    decreases rs.len(),
{
    if rs.len() == 0 {
        0
    } else {
        total_weight(rs.drop_last()) + rs.last().weight as nat
    }
}

/// The weights of the checks that passed.
pub open spec fn won_weight(rs: Seq<Result1>) -> nat
    decreases rs.len(),
{
    if rs.len() == 0 {
        0
    } else {
        won_weight(rs.drop_last()) + if rs.last().passed {
            rs.last().weight as nat
        } else {
            0nat
        }
    }
}

/// How many checks passed.
pub open spec fn count_passed(rs: Seq<Result1>) -> nat
    decreases rs.len(),
{
    if rs.len() == 0 {
        0
    } else {
        count_passed(rs.drop_last()) + if rs.last().passed {
            1nat
        } else {
            0nat
        }
    }
}

/// The weighted fraction that passed, of a thousand.
pub open spec fn score_of(rs: Seq<Result1>) -> nat {
    if total_weight(rs) == 0 {
        0
    } else {
        won_weight(rs) * 1000 / total_weight(rs)
    }
}

proof fn lemma_weights(rs: Seq<Result1>)
    ensures
        won_weight(rs) <= total_weight(rs),
        count_passed(rs) <= rs.len(),
    decreases rs.len(),
{
    if rs.len() > 0 {
        lemma_weights(rs.drop_last());
    }
}

/// Turn results into a verdict and a score. Nothing required means nothing failed;
/// nothing to check scores nothing.
pub fn report_of(candidate: &str, results: Vec<Result1>) -> (r: Report)
    ensures
        r.candidate@ == candidate@,
        r.accepted == gate_open(results@),
        r.accepted <==> (forall|i: int|
            0 <= i < results@.len() ==> (#[trigger] results@[i]).required ==> results@[i].passed),
        r.score == score_of(results@),
        r.passed == count_passed(results@),
        r.total == results@.len(),
        r.results == results,
{
    let mut accepted = true;
    let mut total: u128 = 0;
    let mut won: u128 = 0;
    let mut passed: usize = 0;
    let mut i: usize = 0;
    assert(results@.take(0) =~= Seq::empty());
    while i < results.len()
        invariant
            i <= results.len(),
            accepted == gate_open(results@.take(i as int)),
            total == total_weight(results@.take(i as int)),
            won == won_weight(results@.take(i as int)),
            won <= total <= i * u32::MAX,
            passed == count_passed(results@.take(i as int)),
            passed <= i,
        decreases results.len() - i,
    {
        let r = &results[i];
        let ghost before = results@.take(i as int);
        let ghost now = results@.take(i + 1);
        assert(now.drop_last() =~= before);
        proof {
            assert(now.last() == *r);
            assert(forall|k: int| 0 <= k < i ==> now[k] == before[k]);
            assert(gate_open(now) == (gate_open(before) && (r.required ==> r.passed))) by {
                if gate_open(now) {
                    assert forall|k: int| 0 <= k < before.len() && (
                    #[trigger] before[k]).required implies before[k].passed by {
                        assert(now[k] == before[k]);
                    }
                    assert(now[i as int].required ==> now[i as int].passed);
                }
            }
        }
        if r.required && !r.passed {
            accepted = false;
        }
        total = total + r.weight as u128;
        if r.passed {
            won = won + r.weight as u128;
            passed = passed + 1;
        }
        i = i + 1;
    }
    assert(results@.take(i as int) =~= results@);
    proof {
        law_a_score_is_of_a_thousand(results@);
    }
    let score: u32 = if total == 0 {
        0
    } else {
        ((won * 1000) / total) as u32
    };
    Report {
        candidate: candidate.to_string(),
        accepted,
        score,
        passed,
        total: results.len(),
        results,
    }
}

/// A score is at most a thousand, and is a thousand where all passed and something was
/// checked.
pub proof fn law_a_score_is_of_a_thousand(rs: Seq<Result1>)
    ensures
        score_of(rs) <= 1000,
        total_weight(rs) > 0 && won_weight(rs) == total_weight(rs) ==> score_of(rs) == 1000,
{
    lemma_weights(rs);
    let (w, t) = (won_weight(rs) as int, total_weight(rs) as int);
    if t > 0 {
        assert(w * 1000 / t <= 1000) by (nonlinear_arith)
            requires
                0 <= w <= t,
                t > 0,
        ;
        if w == t {
            assert(t * 1000 / t == 1000) by (nonlinear_arith)
                requires
                    t > 0,
            ;
        }
    }
}

/// Two lists of the same checks, and whatever passes in the first passes in the second.
pub open spec fn improves(a: Seq<Result1>, b: Seq<Result1>) -> bool {
    a.len() == b.len() && forall|i: int|
        0 <= i < a.len() ==> (#[trigger] a[i]).weight == b[i].weight && a[i].required
            == b[i].required && (a[i].passed ==> b[i].passed)
}

proof fn lemma_improves(a: Seq<Result1>, b: Seq<Result1>)
    requires
        improves(a, b),
    ensures
        total_weight(a) == total_weight(b),
        won_weight(a) <= won_weight(b),
    decreases a.len(),
{
    if a.len() > 0 {
        assert(a.drop_last().len() == b.drop_last().len());
        assert forall|i: int| 0 <= i < a.drop_last().len() implies (
        #[trigger] a.drop_last()[i]).weight == b.drop_last()[i].weight && a.drop_last()[i].required
            == b.drop_last()[i].required && (a.drop_last()[i].passed
            ==> b.drop_last()[i].passed) by {
            assert(a[i].weight == b[i].weight);
        }
        lemma_improves(a.drop_last(), b.drop_last());
        assert(a[a.len() - 1].weight == b[a.len() - 1].weight);
    }
}

/// A candidate that passes all that another does is accepted where the other is, and
/// scores no less: the score climbs before anything is accepted.
pub proof fn law_passing_more_never_scores_less(a: Seq<Result1>, b: Seq<Result1>)
    requires
        improves(a, b),
    ensures
        score_of(a) <= score_of(b),
        gate_open(a) ==> gate_open(b),
{
    lemma_improves(a, b);
    let (w, v, t) = (won_weight(a) as int, won_weight(b) as int, total_weight(a) as int);
    if t > 0 {
        assert(w * 1000 <= v * 1000);
        vstd::arithmetic::div_mod::lemma_div_is_ordered(w * 1000, v * 1000, t);
    }
    if gate_open(a) {
        assert forall|i: int| 0 <= i < b.len() && (#[trigger] b[i]).required implies b[i].passed by {
            assert(a[i].required == b[i].required);
        }
    }
}

/// Weights move the score and never the verdict.
pub proof fn law_weight_never_moves_the_verdict(a: Seq<Result1>, b: Seq<Result1>)
    requires
        a.len() == b.len(),
        forall|i: int|
            0 <= i < a.len() ==> (#[trigger] a[i]).required == b[i].required && a[i].passed
                == b[i].passed,
    ensures
        gate_open(a) == gate_open(b),
{
    if gate_open(a) {
        assert forall|i: int| 0 <= i < b.len() && (#[trigger] b[i]).required implies b[i].passed by {
            assert(a[i].required == b[i].required);
        }
    }
    if gate_open(b) {
        assert forall|i: int| 0 <= i < a.len() && (#[trigger] a[i]).required implies a[i].passed by {
            assert(b[i].required == a[i].required);
        }
    }
}

/// One result as it is answered.
pub open spec fn result_tree(r: Result1) -> Tree {
    Tree::Object(
        seq![
            ("id"@, Tree::Text(r.id@)),
            ("required"@, Tree::Bool(r.required)),
            ("weight"@, Tree::Unsigned(r.weight as u64)),
            ("passed"@, Tree::Bool(r.passed)),
            ("took_ms"@, Tree::Unsigned(r.took_ms)),
            ("detail"@, Tree::Text(r.detail@)),
        ],
    )
}

/// A report as it is answered.
pub open spec fn report_tree(r: Report) -> Tree {
    Tree::Object(
        seq![
            ("candidate"@, Tree::Text(r.candidate@)),
            ("accepted"@, Tree::Bool(r.accepted)),
            ("score"@, Tree::Unsigned(r.score as u64)),
            ("passed"@, Tree::Unsigned(r.passed as u64)),
            ("total"@, Tree::Unsigned(r.total as u64)),
            ("results"@, Tree::List(r.results@.map_values(|x: Result1| result_tree(x)))),
        ],
    )
}

/// A result is answered by its fields, and each is the result's own.
pub proof fn law_a_result_is_answered_whole(r: Result1)
    ensures
        result_tree(r).field("id"@) == Some(Tree::Text(r.id@)),
        result_tree(r).field("required"@) == Some(Tree::Bool(r.required)),
        result_tree(r).field("weight"@) == Some(Tree::Unsigned(r.weight as u64)),
        result_tree(r).field("passed"@) == Some(Tree::Bool(r.passed)),
        result_tree(r).field("took_ms"@) == Some(Tree::Unsigned(r.took_ms)),
        result_tree(r).field("detail"@) == Some(Tree::Text(r.detail@)),
{
    reveal_with_fuel(entry_from, 7);
    reveal_strlit("id");
    reveal_strlit("required");
    reveal_strlit("weight");
    reveal_strlit("passed");
    reveal_strlit("took_ms");
    reveal_strlit("detail");
    assert("id"@.len() == 2);
    assert("required"@.len() == 8);
    assert("weight"@.len() == 6);
    assert("passed"@.len() == 6);
    assert("took_ms"@.len() == 7);
    assert("detail"@.len() == 6);
    assert("weight"@[0] != "passed"@[0]);
    assert("weight"@[0] != "detail"@[0]);
    assert("passed"@[0] != "detail"@[0]);
}

/// A report is answered by its fields, and each is the report's own: the candidate, the
/// verdict, the score, how many passed of how many, and every result in its order.
pub proof fn law_a_report_is_answered_whole(r: Report)
    ensures
        report_tree(r).field("candidate"@) == Some(Tree::Text(r.candidate@)),
        report_tree(r).field("accepted"@) == Some(Tree::Bool(r.accepted)),
        report_tree(r).field("score"@) == Some(Tree::Unsigned(r.score as u64)),
        report_tree(r).field("passed"@) == Some(Tree::Unsigned(r.passed as u64)),
        report_tree(r).field("total"@) == Some(Tree::Unsigned(r.total as u64)),
        report_tree(r).field("results"@) is Some,
        report_tree(r).field("results"@)->0.items().len() == r.results@.len(),
        forall|i: int|
            0 <= i < r.results@.len() ==> {
                let t = #[trigger] report_tree(r).field("results"@)->0.items()[i];
                &&& t.field("id"@) == Some(Tree::Text(r.results@[i].id@))
                &&& t.field("required"@) == Some(Tree::Bool(r.results@[i].required))
                &&& t.field("weight"@) == Some(Tree::Unsigned(r.results@[i].weight as u64))
                &&& t.field("passed"@) == Some(Tree::Bool(r.results@[i].passed))
                &&& t.field("took_ms"@) == Some(Tree::Unsigned(r.results@[i].took_ms))
                &&& t.field("detail"@) == Some(Tree::Text(r.results@[i].detail@))
            },
{
    reveal_with_fuel(entry_from, 7);
    reveal_strlit("candidate");
    reveal_strlit("accepted");
    reveal_strlit("score");
    reveal_strlit("passed");
    reveal_strlit("total");
    reveal_strlit("results");
    assert("candidate"@.len() == 9);
    assert("accepted"@.len() == 8);
    assert("score"@.len() == 5);
    assert("passed"@.len() == 6);
    assert("total"@.len() == 5);
    assert("results"@.len() == 7);
    assert("score"@[0] != "total"@[0]);
    let t = report_tree(r);
    assert(t.field("results"@)->0.items() == r.results@.map_values(|x: Result1| result_tree(x)));
    assert forall|i: int| 0 <= i < r.results@.len() implies {
        let t = #[trigger] report_tree(r).field("results"@)->0.items()[i];
        &&& t.field("id"@) == Some(Tree::Text(r.results@[i].id@))
        &&& t.field("required"@) == Some(Tree::Bool(r.results@[i].required))
        &&& t.field("weight"@) == Some(Tree::Unsigned(r.results@[i].weight as u64))
        &&& t.field("passed"@) == Some(Tree::Bool(r.results@[i].passed))
        &&& t.field("took_ms"@) == Some(Tree::Unsigned(r.results@[i].took_ms))
        &&& t.field("detail"@) == Some(Tree::Text(r.results@[i].detail@))
    } by {
        law_a_result_is_answered_whole(r.results@[i]);
        assert(t.field("results"@)->0.items()[i] == result_tree(r.results@[i]));
    }
}

/// The answer for a report that was made from results says that the candidate is accepted
/// exactly where no result is required and failed. One required failure makes it false,
/// whatever else passed; and a failure that is not required never does.
pub proof fn law_the_answer_accepts_where_no_requirement_failed(r: Report)
    requires
        r.accepted == gate_open(r.results@),
    ensures
        report_tree(r).field("accepted"@) == Some(
            Tree::Bool(
                !exists|i: int|
                    0 <= i < r.results@.len() && (#[trigger] r.results@[i]).required
                        && !r.results@[i].passed,
            ),
        ),
        forall|i: int|
            0 <= i < r.results@.len() && (#[trigger] r.results@[i]).required && !r.results@[i].passed
                ==> report_tree(r).field("accepted"@) == Some(Tree::Bool(false)),
{
    law_a_report_is_answered_whole(r);
    let failed = exists|i: int|
        0 <= i < r.results@.len() && (#[trigger] r.results@[i]).required && !r.results@[i].passed;
    if r.accepted {
        assert(!failed);
    } else if !failed {
        assert(gate_open(r.results@));
    }
}

fn result_json(r: &Result1) -> (j: Json)
    ensures
        j@ == result_tree(*r),
{
    let mut es = no_entries();
    put(&mut es, "id", text(r.id.as_str()));
    put(&mut es, "required", Json::Bool(r.required));
    put(&mut es, "weight", Json::Unsigned(r.weight as u64));
    put(&mut es, "passed", Json::Bool(r.passed));
    put(&mut es, "took_ms", Json::Unsigned(r.took_ms));
    put(&mut es, "detail", text(r.detail.as_str()));
    assert(entry_trees(es@) =~= result_tree(*r)->Object_0);
    object(es)
}

/// A report as it is answered.
pub fn report_json(r: &Report) -> (j: Json)
    ensures
        j@ == report_tree(*r),
        j@.field("candidate"@) == Some(Tree::Text(r.candidate@)),
        j@.field("accepted"@) == Some(Tree::Bool(r.accepted)),
        j@.field("score"@) == Some(Tree::Unsigned(r.score as u64)),
        j@.field("passed"@) == Some(Tree::Unsigned(r.passed as u64)),
        j@.field("total"@) == Some(Tree::Unsigned(r.total as u64)),
        j@.field("results"@) is Some,
        j@.field("results"@)->0.items().len() == r.results@.len(),
        forall|i: int|
            0 <= i < r.results@.len() ==> {
                let t = #[trigger] j@.field("results"@)->0.items()[i];
                &&& t.field("id"@) == Some(Tree::Text(r.results@[i].id@))
                &&& t.field("required"@) == Some(Tree::Bool(r.results@[i].required))
                &&& t.field("weight"@) == Some(Tree::Unsigned(r.results@[i].weight as u64))
                &&& t.field("passed"@) == Some(Tree::Bool(r.results@[i].passed))
                &&& t.field("took_ms"@) == Some(Tree::Unsigned(r.results@[i].took_ms))
                &&& t.field("detail"@) == Some(Tree::Text(r.results@[i].detail@))
            },
{
    proof {
        law_a_report_is_answered_whole(*r);
    }
    let ghost want = r.results@.map_values(|x: Result1| result_tree(x));
    let mut items: Vec<Json> = Vec::new();
    let mut i: usize = 0;
    assert(trees(items@) =~= want.take(0));
    while i < r.results.len()
        invariant
            i <= r.results@.len(),
            want == r.results@.map_values(|x: Result1| result_tree(x)),
            trees(items@) == want.take(i as int),
        decreases r.results@.len() - i,
    {
        let j = result_json(&r.results[i]);
        let ghost o = items@;
        items.push(j);
        assert(trees(items@) =~= trees(o).push(j@));
        assert(want.take(i + 1) =~= want.take(i as int).push(want[i as int]));
        i = i + 1;
    }
    assert(want.take(i as int) =~= want);
    let mut es = no_entries();
    put(&mut es, "candidate", text(r.candidate.as_str()));
    put(&mut es, "accepted", Json::Bool(r.accepted));
    put(&mut es, "score", Json::Unsigned(r.score as u64));
    put(&mut es, "passed", Json::Unsigned(r.passed as u64));
    put(&mut es, "total", Json::Unsigned(r.total as u64));
    put(&mut es, "results", list(items));
    assert(entry_trees(es@) =~= report_tree(*r)->Object_0);
    object(es)
}

// -------------------------------------------------------------------- base --

/// What a candidate is laid over.
#[derive(Debug, PartialEq, Eq)]
pub enum Base {
    /// The tree that is cached for the commit.
    Cached,
    /// The tree that came with the request, once it is cached.
    Sent,
    /// The runner's own checkout.
    Checkout(String),
}

/// What the runner says when it cannot go on without the tree.
#[derive(Debug, PartialEq, Eq)]
pub struct NeedTree {
    pub base_commit: String,
    pub detail: String,
}

/// What a candidate is laid over, or what is missing. A commit that the runner has not
/// seen is asked for rather than guessed at: its own checkout would be the wrong tree.
pub fn ensure_base(base_commit: &str, cached: bool, sent: bool, checkout: &Option<String>) -> (r:
    Result<Base, NeedTree>)
    ensures
        base_commit@.len() > 0 ==> match r {
            Ok(Base::Cached) => cached,
            Ok(Base::Sent) => !cached && sent,
            Ok(Base::Checkout(_)) => false,
            Err(n) => !cached && !sent && n.base_commit@ == base_commit@ && n.detail@
                == "this runner has not seen that commit; post `base_tree` with it"@,
        },
        base_commit@.len() == 0 ==> match r {
            Ok(Base::Checkout(b)) => checkout matches Some(c) && b@ == c@,
            Ok(_) => false,
            Err(n) => checkout is None && n.base_commit@.len() == 0 && n.detail@
                == "no `base_commit` given and this runner was started without --base"@,
        },
{
    if !base_commit.is_empty() {
        if cached {
            return Ok(Base::Cached);
        }
        if sent {
            return Ok(Base::Sent);
        }
        return Err(
            NeedTree {
                base_commit: base_commit.to_string(),
                detail: "this runner has not seen that commit; post `base_tree` with it".to_string(),
            },
        );
    }
    match checkout {
        Some(b) => Ok(Base::Checkout(b.clone())),
        None => Err(
            NeedTree {
                base_commit: String::new(),
                detail: "no `base_commit` given and this runner was started without --base".to_string(),
            },
        ),
    }
}

/// What the runner says when it could not keep the tree that came.
pub fn uncached(base_commit: &str, why: &str) -> (n: NeedTree)
    ensures
        n.base_commit@ == base_commit@,
        n.detail@ == "could not cache the tree: "@ + why@,
{
    NeedTree {
        base_commit: base_commit.to_string(),
        detail: "could not cache the tree: ".to_string().concat(why),
    }
}

/// A missing tree as it is answered.
pub open spec fn need_tree(n: NeedTree) -> Tree {
    Tree::Object(
        seq![
            ("need_base_tree"@, Tree::Bool(true)),
            ("base_commit"@, Tree::Text(n.base_commit@)),
            ("detail"@, Tree::Text(n.detail@)),
        ],
    )
}

/// A runner that misses a tree says so, and names the commit whose tree it wants and why.
pub proof fn law_a_missing_tree_is_asked_for(n: NeedTree)
    ensures
        need_tree(n).field("need_base_tree"@) == Some(Tree::Bool(true)),
        need_tree(n).field("base_commit"@) == Some(Tree::Text(n.base_commit@)),
        need_tree(n).field("detail"@) == Some(Tree::Text(n.detail@)),
{
    reveal_with_fuel(entry_from, 4);
    reveal_strlit("need_base_tree");
    reveal_strlit("base_commit");
    reveal_strlit("detail");
    assert("need_base_tree"@.len() == 14);
    assert("base_commit"@.len() == 11);
    assert("detail"@.len() == 6);
}

/// A missing tree as it is answered.
pub fn need_json(n: &NeedTree) -> (j: Json)
    ensures
        j@ == need_tree(*n),
        j@.field("need_base_tree"@) == Some(Tree::Bool(true)),
        j@.field("base_commit"@) == Some(Tree::Text(n.base_commit@)),
        j@.field("detail"@) == Some(Tree::Text(n.detail@)),
{
    proof {
        law_a_missing_tree_is_asked_for(*n);
    }
    let mut es = no_entries();
    put(&mut es, "need_base_tree", Json::Bool(true));
    put(&mut es, "base_commit", text(n.base_commit.as_str()));
    put(&mut es, "detail", text(n.detail.as_str()));
    assert(entry_trees(es@) =~= need_tree(*n)->Object_0);
    object(es)
}

// ----------------------------------------------------------------- framing --

/// A line's end.
pub open spec fn crlf() -> Seq<u8> {
    seq![13u8, 10u8]
}

/// The end of the headers.
pub open spec fn blank_line() -> Seq<u8> {
    seq![13u8, 10u8, 13u8, 10u8]
}

fn find_bytes(h: &[u8], n: &Vec<u8>, from: usize) -> (r: Option<usize>)
    requires
        from <= h@.len(),
    ensures
        (match r {
            Some(i) => Some(i as int),
            None => None,
        }) == find_from(h@, n@, from as int),
        r matches Some(i) ==> from <= i && i + n@.len() <= h@.len(),
{
    let mut i: usize = from;
    let total = h.len();
    while n.len() <= total - i
        invariant
            from <= i <= total,
            total == h@.len(),
            find_from(h@, n@, i as int) == find_from(h@, n@, from as int),
        decreases total - i,
    {
        let mut k: usize = 0;
        while k < n.len() && h[i + k] == n[k]
            invariant
                k <= n@.len() <= total - i,
                i <= total,
                total == h@.len(),
                forall|j: int| 0 <= j < k ==> #[trigger] n@[j] == h@[i + j],
            decreases n@.len() - k,
        {
            k = k + 1;
        }
        if k == n.len() {
            assert(h@.subrange(i as int, i + n@.len()) =~= n@);
            return Some(i);
        }
        assert(!occurs_at(h@, n@, i as int)) by {
            if occurs_at(h@, n@, i as int) {
                assert(h@.subrange(i as int, i + n@.len())[k as int] == h@[i + k]);
            }
        }
        if i == total {
            assert(n@.len() == 0);
            return None;
        }
        i = i + 1;
    }
    None
}

/// Where the body begins.
pub open spec fn body_at(buf: Seq<u8>) -> Option<int> {
    match find_from(buf, blank_line(), 0) {
        Some(i) => Some(i + 4),
        None => None,
    }
}

/// Where the body begins: behind the first empty line.
pub fn find_headers_end(buf: &[u8]) -> (r: Option<usize>)
    ensures
        (match r {
            Some(i) => Some(i as int),
            None => None,
        }) == body_at(buf@),
        r matches Some(i) ==> 4 <= i <= buf@.len(),
{
    let mark: Vec<u8> = vec![13u8, 10u8, 13u8, 10u8];
    assert(mark@ =~= blank_line());
    let n = buf.len();
    match find_bytes(buf, &mark, 0) {
        Some(i) => Some(i + 4),
        None => None,
    }
}

/// A header line's name, in lower case, and its value, trimmed.
pub open spec fn header_in(line: Seq<char>) -> Option<(Seq<char>, Seq<char>)> {
    match split_once_of(line, ':') {
        Some((k, v)) => Some((lower_of(k), trim_of(v))),
        None => None,
    }
}

/// A header says that the body comes in chunks.
pub open spec fn says_chunked(line: Seq<char>) -> bool {
    match header_in(line) {
        Some((k, v)) => k == "transfer-encoding"@ && lower_of(v) == "chunked"@,
        None => false,
    }
}

/// The headers say that the body comes in chunks.
pub open spec fn chunked_in(head: Seq<u8>) -> bool {
    exists|i: int|
        0 <= i < lines_of(lossy_of(head)).len() && says_chunked(
            #[trigger] lines_of(lossy_of(head))[i],
        )
}

/// Do the headers say that the body comes in chunks?
pub fn is_chunked(head: &[u8]) -> (r: bool)
    ensures
        r == chunked_in(head@),
{
    let t = lossy(head);
    let ls = lines(t.as_str());
    let mut i: usize = 0;
    while i < ls.len()
        invariant
            i <= ls.len(),
            strs(ls@) == lines_of(lossy_of(head@)),
            forall|k: int|
                0 <= k < i ==> !says_chunked(#[trigger] lines_of(lossy_of(head@))[k]),
        decreases ls.len() - i,
    {
        assert(lines_of(lossy_of(head@))[i as int] == ls@[i as int]@);
        match split_once(ls[i].as_str(), ':') {
            Some((k, v)) => {
                let key = lower(k.as_str());
                let value = trim(v.as_str());
                let low = lower(value.as_str());
                if same(key.as_str(), "transfer-encoding") && same(low.as_str(), "chunked") {
                    assert(says_chunked(lines_of(lossy_of(head@))[i as int]));
                    return true;
                }
            },
            None => {},
        }
        i = i + 1;
    }
    false
}

/// The value of the first length header from line `i` on.
pub open spec fn length_from(ls: Seq<Seq<char>>, i: int) -> Option<Seq<char>>
    decreases ls.len() - i,
{
    if i < 0 || i >= ls.len() {
        None
    } else {
        match header_in(ls[i]) {
            Some((k, v)) => if k == "content-length"@ {
                Some(v)
            } else {
                length_from(ls, i + 1)
            },
            None => length_from(ls, i + 1),
        }
    }
}

/// The length that the headers state, where it is a number that fits.
pub open spec fn length_in(head: Seq<u8>) -> Option<int> {
    match length_from(lines_of(lossy_of(head)), 0) {
        None => None,
        Some(v) => match number_of(v, 10) {
            Some(n) => if n <= usize::MAX {
                Some(n)
            } else {
                None
            },
            None => None,
        },
    }
}

/// The length that the headers state.
pub fn content_length(head: &[u8]) -> (r: Option<usize>)
    ensures
        (match r {
            Some(n) => Some(n as int),
            None => None,
        }) == length_in(head@),
{
    let t = lossy(head);
    let ls = lines(t.as_str());
    let ghost all = lines_of(lossy_of(head@));
    let mut i: usize = 0;
    while i < ls.len()
        invariant
            i <= ls.len(),
            strs(ls@) == all,
            all == lines_of(lossy_of(head@)),
            length_from(all, i as int) == length_from(all, 0),
        decreases ls.len() - i,
    {
        assert(all[i as int] == ls@[i as int]@);
        match split_once(ls[i].as_str(), ':') {
            Some((k, v)) => {
                let key = lower(k.as_str());
                if same(key.as_str(), "content-length") {
                    let value = trim(v.as_str());
                    return match parse_number(value.as_str(), 10, usize::MAX as u64) {
                        Some(n) => Some(n as usize),
                        None => None,
                    };
                }
            },
            None => {},
        }
        i = i + 1;
    }
    None
}

/// The size of the chunk at `i`, and where its bytes begin.
pub open spec fn chunk_at(body: Seq<u8>, i: int) -> Option<(int, int)> {
    if i < 0 || i >= body.len() {
        None
    } else {
        match find_from(body, crlf(), i) {
            None => None,
            Some(nl) => match number_of(trim_of(lossy_of(body.subrange(i, nl))), 16) {
                Some(n) => if n <= usize::MAX {
                    Some((n, nl + 2))
                } else {
                    None
                },
                None => None,
            },
        }
    }
}

fn read_chunk(body: &[u8], i: usize) -> (r: Option<(usize, usize)>)
    requires
        i <= body@.len(),
    ensures
        (match r {
            Some((n, at)) => Some((n as int, at as int)),
            None => None,
        }) == chunk_at(body@, i as int),
        r matches Some((n, at)) ==> i < at <= body@.len(),
{
    let total = body.len();
    if i >= total {
        return None;
    }
    let mark: Vec<u8> = vec![13u8, 10u8];
    assert(mark@ =~= crlf());
    match find_bytes(body, &mark, i) {
        None => None,
        Some(nl) => {
            let mut head: Vec<u8> = Vec::new();
            let mut k: usize = i;
            while k < nl
                invariant
                    i <= k <= nl <= body@.len(),
                    head@ =~= body@.subrange(i as int, k as int),
                decreases nl - k,
            {
                assert(body@.subrange(i as int, k + 1) =~= body@.subrange(i as int, k as int).push(
                    body@[k as int],
                ));
                head.push(body[k]);
                k = k + 1;
            }
            let t = lossy(head.as_slice());
            let size = trim(t.as_str());
            match parse_number(size.as_str(), 16, usize::MAX as u64) {
                Some(n) => Some((n as usize, nl + 2)),
                None => None,
            }
        },
    }
}

/// The last chunk, which is empty, has arrived, looking from `i` on.
pub open spec fn complete_from(body: Seq<u8>, i: int) -> bool
    decreases body.len() - i,
{
    match chunk_at(body, i) {
        None => false,
        Some((n, at)) => if n == 0 {
            true
        } else if n < 0 || at <= i || at + n + 2 > body.len() {
            false
        } else {
            complete_from(body, at + n + 2)
        },
    }
}

/// Has the last chunk arrived?
pub fn chunk_body_complete(body: &[u8]) -> (r: bool)
    ensures
        r == complete_from(body@, 0),
{
    let total = body.len();
    let mut i: usize = 0;
    while i < total
        invariant
            total == body@.len(),
            i <= total,
            complete_from(body@, i as int) == complete_from(body@, 0),
        decreases total - i,
    {
        match read_chunk(body, i) {
            None => {
                return false;
            },
            Some((n, at)) => {
                if n == 0 {
                    return true;
                }
                if n > total - at || total - at - n < 2 {
                    return false;
                }
                i = at + n + 2;
            },
        }
    }
    false
}

/// The bytes of the chunks from `i` on.
pub open spec fn dechunked_from(body: Seq<u8>, i: int) -> Seq<u8>
    decreases body.len() - i,
{
    match chunk_at(body, i) {
        None => Seq::empty(),
        Some((n, at)) => if n <= 0 || at <= i {
            Seq::empty()
        } else {
            let end = if at + n < body.len() {
                at + n
            } else {
                body.len() as int
            };
            if end + 2 > body.len() {
                body.subrange(at, end)
            } else {
                body.subrange(at, end) + dechunked_from(body, end + 2)
            }
        },
    }
}

/// The bytes of a body that comes in chunks, as far as it came.
pub fn dechunk(body: &[u8]) -> (out: Vec<u8>)
    ensures
        out@ == dechunked_from(body@, 0),
{
    let total = body.len();
    let mut out: Vec<u8> = Vec::new();
    let mut i: usize = 0;
    assert(out@ + dechunked_from(body@, 0) =~= dechunked_from(body@, 0));
    loop
        invariant
            total == body@.len(),
            i <= total,
            out@ + dechunked_from(body@, i as int) == dechunked_from(body@, 0),
        decreases total - i,
    {
        match read_chunk(body, i) {
            None => {
                assert(out@ + Seq::<u8>::empty() =~= out@);
                return out;
            },
            Some((n, at)) => {
                if n == 0 {
                    assert(out@ + Seq::<u8>::empty() =~= out@);
                    return out;
                }
                let end: usize = if n < total - at {
                    at + n
                } else {
                    total
                };
                let ghost o = out@;
                let mut k: usize = at;
                while k < end
                    invariant
                        at <= k <= end <= body@.len(),
                        out@ =~= o + body@.subrange(at as int, k as int),
                    decreases end - k,
                {
                    assert(body@.subrange(at as int, k + 1) =~= body@.subrange(
                        at as int,
                        k as int,
                    ).push(body@[k as int]));
                    out.push(body[k]);
                    k = k + 1;
                }
                if total - end < 2 {
                    return out;
                }
                assert(out@ + dechunked_from(body@, end + 2) =~= o + (body@.subrange(
                    at as int,
                    end as int,
                ) + dechunked_from(body@, end + 2)));
                i = end + 2;
            },
        }
    }
}

proof fn lemma_find_longer(h: Seq<u8>, more: Seq<u8>, n: Seq<u8>, i: int)
    requires
        find_from(h, n, i) is Some,
        0 <= i,
    ensures
        find_from(h + more, n, i) == find_from(h, n, i),
        i <= find_from(h, n, i)->Some_0,
        find_from(h, n, i)->Some_0 + n.len() <= h.len(),
    decreases h.len() + 1 - i,
{
    assert((h + more).subrange(i, i + n.len()) =~= h.subrange(i, i + n.len()));
    if !occurs_at(h, n, i) {
        lemma_find_longer(h, more, n, i + 1);
    }
}

proof fn lemma_chunk_longer(body: Seq<u8>, more: Seq<u8>, i: int)
    requires
        chunk_at(body, i) is Some,
    ensures
        chunk_at(body + more, i) == chunk_at(body, i),
        i < chunk_at(body, i)->Some_0.1 <= body.len(),
{
    lemma_find_longer(body, more, crlf(), i);
    let nl = find_from(body, crlf(), i)->Some_0;
    assert((body + more).subrange(i, nl) =~= body.subrange(i, nl));
}

proof fn lemma_complete_longer(body: Seq<u8>, more: Seq<u8>, i: int)
    requires
        complete_from(body, i),
    ensures
        complete_from(body + more, i),
        dechunked_from(body + more, i) == dechunked_from(body, i),
    decreases body.len() - i,
{
    lemma_chunk_longer(body, more, i);
    let (n, at) = chunk_at(body, i)->Some_0;
    if n > 0 {
        lemma_complete_longer(body, more, at + n + 2);
        assert((body + more).subrange(at, at + n) =~= body.subrange(at, at + n));
    }
}

/// Once the last chunk has arrived the body is whole: nothing that comes after changes
/// it.
pub proof fn law_a_complete_body_is_whole(body: Seq<u8>, more: Seq<u8>)
    requires
        complete_from(body, 0),
    ensures
        complete_from(body + more, 0),
        dechunked_from(body + more, 0) == dechunked_from(body, 0),
{
    lemma_complete_longer(body, more, 0);
}

/// A request that is being read.
#[derive(Debug, PartialEq, Eq)]
pub struct Incoming {
    pub buf: Vec<u8>,
    /// Where the body begins and how long it is, where the headers state it.
    pub want: Option<(usize, usize)>,
    pub chunked: bool,
}

/// What the headers that came say of the body: where it begins and how long it is, and
/// whether it comes in chunks.
pub open spec fn framing(i: Incoming) -> (Option<(usize, usize)>, bool) {
    if i.want is Some || i.chunked {
        (i.want, i.chunked)
    } else {
        match body_at(i.buf@) {
            None => (None, false),
            Some(pos) => {
                let head = i.buf@.take(pos);
                if chunked_in(head) {
                    (None, true)
                } else {
                    (
                        match length_in(head) {
                            Some(n) => Some((pos as usize, n as usize)),
                            None => None,
                        },
                        false,
                    )
                }
            },
        }
    }
}

/// Is the request whole? A guest streams its body, so it may come in chunks and with no
/// length.
pub open spec fn whole(i: Incoming) -> bool {
    ||| (i.want matches Some((pos, n)) && i.buf@.len() >= pos + n)
    ||| (i.chunked && match body_at(i.buf@) {
        Some(pos) => complete_from(i.buf@.skip(pos), 0),
        None => false,
    })
}

pub(crate) fn tail_bytes(buf: &Vec<u8>, from: usize) -> (out: Vec<u8>)
    requires
        from <= buf@.len(),
    ensures
        out@ == buf@.skip(from as int),
{
    let mut out: Vec<u8> = Vec::new();
    let mut i: usize = from;
    while i < buf.len()
        invariant
            from <= i <= buf@.len(),
            out@ =~= buf@.subrange(from as int, i as int),
        decreases buf@.len() - i,
    {
        assert(buf@.subrange(from as int, i + 1) =~= buf@.subrange(from as int, i as int).push(
            buf@[i as int],
        ));
        out.push(buf[i]);
        i = i + 1;
    }
    assert(out@ =~= buf@.skip(from as int));
    out
}

pub(crate) fn head_bytes(buf: &Vec<u8>, to: usize) -> (out: Vec<u8>)
    requires
        to <= buf@.len(),
    ensures
        out@ == buf@.take(to as int),
{
    let mut out: Vec<u8> = Vec::new();
    let mut i: usize = 0;
    while i < to
        invariant
            i <= to <= buf@.len(),
            out@ =~= buf@.take(i as int),
        decreases to - i,
    {
        assert(buf@.take(i + 1) =~= buf@.take(i as int).push(buf@[i as int]));
        out.push(buf[i]);
        i = i + 1;
    }
    out
}

impl Incoming {
    /// Nothing came yet.
    pub fn new() -> (i: Incoming)
        ensures
            i.buf@ == Seq::<u8>::empty(),
            i.want is None,
            !i.chunked,
    {
        Incoming { buf: Vec::new(), want: None, chunked: false }
    }

    /// Take some bytes. Is the request whole?
    pub fn take(&mut self, bytes: &Vec<u8>) -> (r: bool)
        ensures
            final(self).buf@ == old(self).buf@ + bytes@,
            (final(self).want, final(self).chunked) == framing(
                (Incoming { buf: final(self).buf, ..*old(self) }),
            ),
            r == whole(*final(self)),
    {
        let ghost before = *self;
        let mut i: usize = 0;
        while i < bytes.len()
            invariant
                i <= bytes@.len(),
                self.buf@ =~= before.buf@ + bytes@.take(i as int),
                self.want == before.want,
                self.chunked == before.chunked,
            decreases bytes@.len() - i,
        {
            assert(bytes@.take(i + 1) =~= bytes@.take(i as int).push(bytes@[i as int]));
            self.buf.push(bytes[i]);
            i = i + 1;
        }
        assert(bytes@.take(i as int) =~= bytes@);
        let at = find_headers_end(self.buf.as_slice());
        if self.want.is_none() && !self.chunked {
            match at {
                Some(pos) => {
                    let head = head_bytes(&self.buf, pos);
                    if is_chunked(head.as_slice()) {
                        self.chunked = true;
                    } else {
                        self.want = match content_length(head.as_slice()) {
                            Some(n) => Some((pos, n)),
                            None => None,
                        };
                    }
                },
                None => {},
            }
        }
        let have = self.buf.len();
        match self.want {
            Some((pos, n)) => if have >= pos && have - pos >= n {
                return true;
            },
            None => {},
        }
        if self.chunked {
            match at {
                Some(pos) => {
                    let body = tail_bytes(&self.buf, pos);
                    chunk_body_complete(body.as_slice())
                },
                None => false,
            }
        } else {
            false
        }
    }

    /// The body of the request, or none where its headers never ended.
    pub fn body(&self) -> (r: Option<Vec<u8>>)
        ensures
            match body_at(self.buf@) {
                None => r is None,
                Some(pos) => r matches Some(b) && b@ == if self.chunked {
                    dechunked_from(self.buf@.skip(pos), 0)
                } else {
                    self.buf@.skip(pos)
                },
            },
    {
        match find_headers_end(self.buf.as_slice()) {
            None => None,
            Some(pos) => {
                let raw = tail_bytes(&self.buf, pos);
                if self.chunked {
                    Some(dechunk(raw.as_slice()))
                } else {
                    Some(raw)
                }
            },
        }
    }
}

/// Why a runner does not start: one that allows nothing would fail every check, which
/// reads like every candidate being bad.
pub open spec fn unstarted_of(allowed: nat, base: Option<(Seq<char>, bool)>) -> Option<Seq<char>> {
    if allowed == 0 {
        Some("no --allow given; this runner would refuse every check"@)
    } else {
        match base {
            Some((b, is_dir)) => if is_dir {
                None
            } else {
                Some("--base "@ + b + " is not a directory"@)
            },
            None => None,
        }
    }
}

/// Why a runner does not start, from how many commands it allows and the checkout it was
/// given, with whether that is a directory.
pub fn unstarted(allowed: usize, base: Option<(&str, bool)>) -> (r: Option<String>)
    ensures
        (match r {
            Some(e) => Some(e@),
            None => None,
        }) == unstarted_of(
            allowed as nat,
            match base {
                Some((b, d)) => Some((b@, d)),
                None => None,
            },
        ),
{
    if allowed == 0 {
        return Some("no --allow given; this runner would refuse every check".to_string());
    }
    match base {
        Some((b, is_dir)) => if is_dir {
            None
        } else {
            Some("--base ".to_string().concat(b).concat(" is not a directory"))
        },
        None => None,
    }
}

/// What is noted of a report.
pub open spec fn note_of(r: Report) -> Seq<char> {
    "comp-checks: "@ + (if r.candidate@.len() == 0 {
        "(unnamed)"@
    } else {
        r.candidate@
    }) + " — "@ + dec_of(r.passed as nat) + "/"@ + dec_of(r.total as nat) + " passed, score "@
        + dec_of(r.score as nat) + ", "@ + (if r.accepted {
        "ACCEPTED"@
    } else {
        "rejected"@
    })
}

/// What is noted of a report.
pub fn note(r: &Report) -> (out: String)
    ensures
        out@ == note_of(*r),
{
    let name = if r.candidate.as_str().is_empty() {
        "(unnamed)"
    } else {
        r.candidate.as_str()
    };
    let word = if r.accepted {
        "ACCEPTED"
    } else {
        "rejected"
    };
    "comp-checks: ".to_string().concat(name).concat(" — ").concat(
        dec(r.passed as u64).as_str(),
    ).concat("/").concat(dec(r.total as u64).as_str()).concat(" passed, score ").concat(
        dec(r.score as u64).as_str(),
    ).concat(", ").concat(word)
}

/// What is answered, as it is sent.
pub open spec fn response_of(status: u16, body: Seq<char>) -> Seq<char> {
    "HTTP/1.1 "@ + dec_of(status as nat)
        + " OK\r\ncontent-type: application/json\r\ncontent-length: "@ + dec_of(
        vstd::utf8::encode_utf8(body).len(),
    ) + "\r\nconnection: close\r\n\r\n"@ + body
}

/// What is answered, as it is sent. The length counts bytes.
pub fn respond(status: u16, body: &str) -> (out: String)
    ensures
        out@ == response_of(status, body@),
{
    let n = body.as_bytes().len();
    "HTTP/1.1 ".to_string().concat(dec(status as u64).as_str()).concat(
        " OK\r\ncontent-type: application/json\r\ncontent-length: ",
    ).concat(dec(n as u64).as_str()).concat("\r\nconnection: close\r\n\r\n").concat(body)
}

/// What became of a request. A need and a report are given as the text of their
/// documents, what could not be read or done as the text of the error.
pub enum Ended<'a> {
    NoHeaders,
    Unreadable(&'a str),
    Needs(&'a str),
    Judged(&'a str),
    Broke(&'a str),
}

/// The status and the body that a request is answered with: a need is a conflict, a
/// report is a success whatever it says, and the caller is told which errors are its own.
pub open spec fn answer_of(e: Ended) -> (u16, Seq<char>) {
    match e {
        Ended::NoHeaders => (400, "{\"error\":\"no headers\"}"@),
        Ended::Unreadable(why) => (400, "{\"error\":\"bad request: "@ + why@ + "\"}"@),
        Ended::Needs(need) => (409, need@),
        Ended::Judged(report) => (200, report@),
        Ended::Broke(why) => (500, "{\"error\":\""@ + why@ + "\"}"@),
    }
}

/// What a request is answered with, as it is sent.
pub fn answer(e: Ended) -> (out: String)
    ensures
        out@ == response_of(answer_of(e).0, answer_of(e).1),
{
    match e {
        Ended::NoHeaders => respond(400, "{\"error\":\"no headers\"}"),
        Ended::Unreadable(why) => respond(
            400,
            "{\"error\":\"bad request: ".to_string().concat(why).concat("\"}").as_str(),
        ),
        Ended::Needs(need) => respond(409, need),
        Ended::Judged(report) => respond(200, report),
        Ended::Broke(why) => respond(
            500,
            "{\"error\":\"".to_string().concat(why).concat("\"}").as_str(),
        ),
    }
}

// --------------------------------------------------------------------- laws --

/// A check is run exactly where it has a command and the runner allows how the command begins.
pub proof fn law_when_a_check_is_run(c: Check, allow: Seq<Vec<String>>)
    ensures
        not_run(c, allow) is None <==> c.command@.len() > 0 && exists|i: int|
            0 <= i < allow.len() && strs((#[trigger] allow[i])@).is_prefix_of(strs(c.command@)),
{
}

/// A check weighs what it says, and at least one.
pub proof fn law_every_check_weighs_something(c: Check)
    ensures
        weight_of(c) >= 1,
        c.weight >= 1 ==> weight_of(c) == c.weight,
        c.weight == 0 ==> weight_of(c) == 1,
{
}

/// One more result adds its weight to what could be won, and to what was won where it passed;
/// and it counts among those that passed exactly where it did.
pub proof fn law_a_result_adds_its_weight(rs: Seq<Result1>, r: Result1)
    ensures
        total_weight(rs.push(r)) == total_weight(rs) + r.weight,
        r.passed ==> won_weight(rs.push(r)) == won_weight(rs) + r.weight && count_passed(rs.push(r))
            == count_passed(rs) + 1,
        !r.passed ==> won_weight(rs.push(r)) == won_weight(rs) && count_passed(rs.push(r))
            == count_passed(rs),
        total_weight(Seq::empty()) == 0,
        won_weight(Seq::empty()) == 0,
        count_passed(Seq::empty()) == 0,
{
    assert(rs.push(r).drop_last() =~= rs);
}

/// A score is the weight that was won, in thousandths of the weight that there was to win,
/// rounded down.
pub proof fn law_a_score_is_what_was_won(rs: Seq<Result1>)
    ensures
        total_weight(rs) > 0 ==> score_of(rs) * total_weight(rs) <= 1000 * won_weight(rs) < (score_of(
            rs,
        ) + 1) * total_weight(rs),
        total_weight(rs) == 0 ==> score_of(rs) == 0,
{
    let (w, t) = (won_weight(rs) as int, total_weight(rs) as int);
    if t > 0 {
        let q = w * 1000 / t;
        assert(q * t <= 1000 * w < (q + 1) * t) by (nonlinear_arith)
            requires
                t > 0,
                w >= 0,
                q == w * 1000 / t,
        ;
    }
}

/// A candidate is accepted exactly where no required check failed: one required failure is
/// enough to turn it down, and nothing that is not required ever does.
pub proof fn law_one_required_failure_turns_a_candidate_down(rs: Seq<Result1>, r: Result1)
    ensures
        gate_open(rs.push(r)) <==> gate_open(rs) && (r.passed || !r.required),
        gate_open(Seq::empty()),
{
    let all = rs.push(r);
    if gate_open(all) {
        assert(all[rs.len() as int] == r);
        assert forall|i: int| 0 <= i < rs.len() && (#[trigger] rs[i]).required implies rs[i].passed by {
            assert(all[i] == rs[i]);
        }
    }
    if gate_open(rs) && (r.passed || !r.required) {
        assert forall|i: int| 0 <= i < all.len() && (#[trigger] all[i]).required implies all[i].passed by {
            if i < rs.len() {
                assert(all[i] == rs[i]);
            }
        }
    }
}

/// What a check said is the end of what it complained of, or of what it printed where it
/// complained of nothing; no more than six hundred characters.
pub proof fn law_what_a_check_said(stdout: Seq<u8>, stderr: Seq<u8>)
    ensures
        trim_of(lossy_of(stderr)).len() > 0 ==> said(stdout, stderr) == trim_of(
            tail_of(lossy_of(stderr), 600),
        ),
        trim_of(lossy_of(stderr)).len() == 0 ==> said(stdout, stderr) == trim_of(
            tail_of(lossy_of(stdout), 600),
        ),
        forall|s: Seq<char>| (#[trigger] tail_of(s, 600)).len() <= 600 && tail_of(s, 600).is_suffix_of(s),
{
    assert forall|s: Seq<char>| (#[trigger] tail_of(s, 600)).len() <= 600 && tail_of(
        s,
        600,
    ).is_suffix_of(s) by {
        let t = tail_of(s, 600);
        assert(s.subrange(s.len() - t.len(), s.len() as int) =~= t);
    }
}

/// How many changes are applied: all up to the first whose path leaves the tree.
pub proof fn law_changes_are_applied_up_to_the_first_bad_one(cs: Seq<FileChange>, i: int)
    requires
        0 <= i <= cs.len(),
    ensures
        i <= good_changes(cs, i) <= cs.len(),
        forall|k: int| i <= k < good_changes(cs, i) ==> inside((#[trigger] cs[k]).path@),
        good_changes(cs, i) < cs.len() ==> !inside(cs[good_changes(cs, i)].path@),
    decreases cs.len() - i,
{
    if i < cs.len() && inside(cs[i].path@) {
        law_changes_are_applied_up_to_the_first_bad_one(cs, i + 1);
    }
}

/// A path is inside the tree exactly where it is not empty, holds no null, and none of what
/// stands between its slashes is empty or steps anywhere.
pub proof fn law_what_is_inside(p: Seq<char>)
    ensures
        inside(p) <==> p.len() > 0 && !split_of(p, '/').contains(Seq::empty()) && !split_of(
            p,
            '/',
        ).contains(".."@) && !split_of(p, '/').contains("."@) && forall|i: int|
            0 <= i < p.len() ==> #[trigger] p[i] as u32 != 0,
{
    let parts = split_of(p, '/');
    if inside(p) {
        assert forall|x: Seq<char>| parts.contains(x) implies x.len() > 0 && x != ".."@ && x
            != "."@ by {
            let i = choose|i: int| 0 <= i < parts.len() && parts[i] == x;
            assert(parts[i].len() > 0);
        }
    }
    if !parts.contains(Seq::empty()) && !parts.contains(".."@) && !parts.contains("."@) {
        assert forall|i: int| 0 <= i < parts.len() implies (#[trigger] parts[i]).len() > 0
            && parts[i] != ".."@ && parts[i] != "."@ by {
            assert(parts.contains(parts[i]));
            if parts[i].len() == 0 {
                assert(parts[i] =~= Seq::empty());
            }
        }
    }
}

/// How a request ends: without headers or with a body that cannot be read it is the caller's
/// fault; a tree that is missing is asked for; a judgement is answered as it is; and a runner
/// that broke says so.
pub proof fn law_how_a_request_is_answered(e: Ended)
    ensures
        e is NoHeaders || e is Unreadable <==> answer_of(e).0 == 400,
        e is Needs <==> answer_of(e).0 == 409,
        e is Judged <==> answer_of(e).0 == 200,
        e is Broke <==> answer_of(e).0 == 500,
        e is Needs ==> answer_of(e).1 == e->Needs_0@,
        e is Judged ==> answer_of(e).1 == e->Judged_0@,
{
}

/// A runner starts exactly where it may run something, and its base, where it has one, is a
/// directory.
pub proof fn law_when_a_runner_starts(allowed: nat, base: Option<(Seq<char>, bool)>)
    ensures
        unstarted_of(allowed, base) is None <==> allowed > 0 && (base is None || base->Some_0.1),
{
}

/// A request is whole exactly where as much came as its header announced, or where its last
/// chunk did.
pub proof fn law_when_a_request_is_whole(i: Incoming)
    ensures
        whole(i) <==> (i.want is Some && i.buf@.len() >= i.want->Some_0.0 + i.want->Some_0.1) || (
        i.chunked && body_at(i.buf@) is Some && complete_from(
            i.buf@.skip(body_at(i.buf@)->Some_0),
            0,
        )),
{
}

/// What is noted of a report: how many checks passed of how many, and the score.
pub proof fn law_a_note_tells_the_verdict(r: Report)
    ensures
        holds(note_of(r), "comp-checks: "@ + (if r.candidate@.len() == 0 {
        "(unnamed)"@
    } else {
        r.candidate@
    }) + " — "@),
        holds(note_of(r), " — "@ + dec_of(r.passed as nat) + "/"@ + dec_of(r.total as nat) + " passed, score "@ + dec_of(r.score as nat) + ", "@),
        holds(note_of(r), ", "@ + (if r.accepted {
        "ACCEPTED"@
    } else {
        "rejected"@
    })),
{
    let c0 = "comp-checks: "@;
    let c1 = (if r.candidate@.len() == 0 {
        "(unnamed)"@
    } else {
        r.candidate@
    });
    let c2 = " — "@;
    let c3 = dec_of(r.passed as nat);
    let c4 = "/"@;
    let c5 = dec_of(r.total as nat);
    let c6 = " passed, score "@;
    let c7 = dec_of(r.score as nat);
    let c8 = ", "@;
    let c9 = (if r.accepted {
        "ACCEPTED"@
    } else {
        "rejected"@
    });
    let s0 = c0;
    let s1 = s0 + c1;
    let s2 = s1 + c2;
    let s3 = s2 + c3;
    let s4 = s3 + c4;
    let s5 = s4 + c5;
    let s6 = s5 + c6;
    let s7 = s6 + c7;
    let s8 = s7 + c8;
    let s9 = s8 + c9;
    lemma_holds_itself(s2);
    lemma_holds_longer(s2, s2, c3);
    lemma_holds_longer(s3, s2, c4);
    lemma_holds_longer(s4, s2, c5);
    lemma_holds_longer(s5, s2, c6);
    lemma_holds_longer(s6, s2, c7);
    lemma_holds_longer(s7, s2, c8);
    lemma_holds_longer(s8, s2, c9);
    lemma_assoc(s1, c2, c3);
    lemma_assoc(s1, c2 + c3, c4);
    lemma_assoc(s1, c2 + c3 + c4, c5);
    lemma_assoc(s1, c2 + c3 + c4 + c5, c6);
    lemma_assoc(s1, c2 + c3 + c4 + c5 + c6, c7);
    lemma_assoc(s1, c2 + c3 + c4 + c5 + c6 + c7, c8);
    lemma_holds_end(s1, c2 + c3 + c4 + c5 + c6 + c7 + c8);
    lemma_holds_longer(s8, c2 + c3 + c4 + c5 + c6 + c7 + c8, c9);
    lemma_assoc(s7, c8, c9);
    lemma_holds_end(s7, c8 + c9);
}

/// A response tells its status and as many bytes as its body has, and then the body.
pub proof fn law_a_response_announces_its_length(status: u16, body: Seq<char>)
    ensures
        holds(response_of(status, body), "HTTP/1.1 "@ + dec_of(status as nat)),
        holds(response_of(status, body), " OK\r\ncontent-type: application/json\r\ncontent-length: "@ + dec_of(vstd::utf8::encode_utf8(body).len()) + "\r\nconnection: close\r\n\r\n"@ + body),
{
    let c0 = "HTTP/1.1 "@;
    let c1 = dec_of(status as nat);
    let c2 = " OK\r\ncontent-type: application/json\r\ncontent-length: "@;
    let c3 = dec_of(vstd::utf8::encode_utf8(body).len());
    let c4 = "\r\nconnection: close\r\n\r\n"@;
    let c5 = body;
    let s0 = c0;
    let s1 = s0 + c1;
    let s2 = s1 + c2;
    let s3 = s2 + c3;
    let s4 = s3 + c4;
    let s5 = s4 + c5;
    lemma_holds_itself(s1);
    lemma_holds_longer(s1, s1, c2);
    lemma_holds_longer(s2, s1, c3);
    lemma_holds_longer(s3, s1, c4);
    lemma_holds_longer(s4, s1, c5);
    lemma_assoc(s1, c2, c3);
    lemma_assoc(s1, c2 + c3, c4);
    lemma_assoc(s1, c2 + c3 + c4, c5);
    lemma_holds_end(s1, c2 + c3 + c4 + c5);
}

/// How much of a request is still to come is settled once, when its header ended: by its chunks
/// where it says so, else by the length that it announces.
pub proof fn law_how_a_request_is_framed(i: Incoming)
    ensures
        i.want is Some || i.chunked ==> framing(i) == (i.want, i.chunked),
        i.want is None && !i.chunked && body_at(i.buf@) is None ==> framing(i) == (
            None::<(usize, usize)>,
            false,
        ),
        i.want is None && !i.chunked && body_at(i.buf@) is Some ==> (framing(i).1 <==> chunked_in(
            i.buf@.take(body_at(i.buf@)->0),
        )),
        i.want is None && !i.chunked && body_at(i.buf@) is Some && !chunked_in(
            i.buf@.take(body_at(i.buf@)->0),
        ) && length_in(i.buf@.take(body_at(i.buf@)->0)) is Some ==> framing(i).0 == Some(
            (
                body_at(i.buf@)->0 as usize,
                length_in(i.buf@.take(body_at(i.buf@)->0))->0 as usize,
            ),
        ),
{
}

/// A header is its name in small letters and its value without the space around it; a request is
/// chunked where a header says so, and its length is the first that a header gives.
pub proof fn law_how_a_header_is_read(line: Seq<char>)
    ensures
        header_in(line) is Some <==> split_once_of(line, ':') is Some,
        header_in(line) matches Some(h) ==> h.0 == lower_of(split_once_of(line, ':')->Some_0.0)
            && h.1 == trim_of(split_once_of(line, ':')->Some_0.1),
        says_chunked(line) <==> header_in(line) is Some && header_in(line)->Some_0.0
            == "transfer-encoding"@ && lower_of(header_in(line)->Some_0.1) == "chunked"@,
{
}

/// The body of a request begins right behind the first blank line.
pub proof fn law_where_a_body_begins(buf: Seq<u8>)
    ensures
        body_at(buf) matches Some(i) ==> 4 <= i <= buf.len() && buf.subrange(i - 4, i) == seq![
            13u8,
            10u8,
            13u8,
            10u8,
        ] && forall|k: int|
            0 <= k < i - 4 ==> !crate::text::occurs_at(buf, seq![13u8, 10u8, 13u8, 10u8], k),
{
    crate::text::lemma_find(buf, blank_line(), 0);
}

/// The end of a text: all of one that is short enough, else exactly as much as was asked for.
pub proof fn law_how_much_the_end_of_a_text_is(s: Seq<char>, n: int)
    requires
        0 <= n,
    ensures
        s.len() <= n ==> tail_of(s, n) == s,
        s.len() > n ==> tail_of(s, n).len() == n,
        tail_of(s, n).is_suffix_of(s),
{
    let t = tail_of(s, n);
    assert(s.subrange(s.len() - t.len(), s.len() as int) =~= t);
}

} // verus!
