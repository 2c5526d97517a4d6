//! A decomposed goal: parts that build against one contract and are joined into one
//! pull request.

use vstd::prelude::*;
use vstd::string::*;

use crate::goal::context::{Shown, first_line, first_line_of, join_failure_owners, owns, shown_views};
use crate::goal::run::{Entry, landing_json, landing_tree, last_of, last_texts, plan, plan_tree, title, title_of};
use crate::goal::spec::{GoalSpec, PartSpec};
use crate::json::Json;
use crate::number::{dec, dec_of};
use crate::text::{chars_of, contains, holds, join, join_of, lemma_assoc, lemma_holds_end, lemma_holds_longer, lines, lines_of, pad_end, pad_end_of, same, slice_text, strs, trim, trim_of};

verus! {

// ------------------------------------------------------------ the contract --

/// A contract as the registry holds it.
#[derive(Debug, PartialEq, Eq)]
pub struct Registered {
    pub number: u64,
    pub body: String,
}

/// Why the parts cannot agree on a contract.
#[derive(Debug, PartialEq, Eq)]
pub enum ContractRefusal {
    /// A contract is registered and cannot be read, for this reason.
    Unreadable(String),
    /// The registered contract is not what the file says.
    Differs { number: u64, registered: String, file: String },
    /// The registry would not take it, for this reason.
    Unpublished(String),
}

/// What a refusal says.
pub enum ContractRefusalView {
    Unreadable(Seq<char>),
    Differs { number: u64, registered: Seq<char>, file: Seq<char> },
    Unpublished(Seq<char>),
}

impl View for ContractRefusal {
    type V = ContractRefusalView;

    open spec fn view(&self) -> ContractRefusalView {
        match self {
            ContractRefusal::Unreadable(e) => ContractRefusalView::Unreadable(e@),
            ContractRefusal::Differs { number, registered, file } => ContractRefusalView::Differs {
                number: *number,
                registered: registered@,
                file: file@,
            },
            ContractRefusal::Unpublished(e) => ContractRefusalView::Unpublished(e@),
        }
    }
}

/// The first ninety characters of the first line.
pub open spec fn opening(body: Seq<char>) -> Seq<char> {
    let ls = lines_of(body);
    if ls.len() == 0 {
        Seq::empty()
    } else if ls[0].len() <= 90 {
        ls[0]
    } else {
        ls[0].take(90)
    }
}

fn opening_text(body: &str) -> (out: String)
    ensures
        out@ == opening(body@),
{
    let all = lines(body);
    if all.len() == 0 {
        return String::new();
    }
    assert(strs(all@)[0] == all[0]@);
    let cs = chars_of(all[0].as_str());
    let n: usize = if cs.len() <= 90 {
        cs.len()
    } else {
        90
    };
    assert(cs@.subrange(0, n as int) =~= opening(body@));
    slice_text(&cs, 0, n)
}

/// What is said where the parts have nothing to build against.
pub open spec fn contract_refusal_text(r: ContractRefusalView, path: Seq<char>) -> Seq<char> {
    match r {
        ContractRefusalView::Unreadable(e) => "a contract is registered but unreadable: "@ + e,
        ContractRefusalView::Unpublished(e) => "publishing the contract: "@ + e,
        ContractRefusalView::Differs { number, registered, file } => "the registry holds a contract v"@
            + dec_of(number as nat) + " that is not what "@ + path
            + " says.\n\nIf an earlier run amended it, that is the amendment and the file is stale — amendments are made through ask/answer, not by editing the file. If this is a different goal, it wants a database of its own.\n\nregistered: "@
            + registered + "\n\nthe file:   "@ + file,
    }
}

/// What is said where the parts have nothing to build against. `path` is the contract's
/// file.
pub fn contract_refused(r: &ContractRefusal, path: &str) -> (out: String)
    ensures
        out@ == contract_refusal_text(r@, path@),
{
    match r {
        ContractRefusal::Unreadable(e) => "a contract is registered but unreadable: ".to_string().concat(
            e.as_str(),
        ),
        ContractRefusal::Unpublished(e) => "publishing the contract: ".to_string().concat(
            e.as_str(),
        ),
        ContractRefusal::Differs { number, registered, file } => "the registry holds a contract v".to_string().concat(
            dec(*number).as_str(),
        ).concat(" that is not what ").concat(path).concat(
            " says.\n\nIf an earlier run amended it, that is the amendment and the file is stale — amendments are made through ask/answer, not by editing the file. If this is a different goal, it wants a database of its own.\n\nregistered: ",
        ).concat(registered.as_str()).concat("\n\nthe file:   ").concat(file.as_str()),
    }
}

/// The version that the parts build against: the one just published; or the one that
/// was registered before, where it says what the file says. One that differs is
/// refused, since it would have every part build against what nobody can see.
pub open spec fn contract_of(
    published: Result<u64, Seq<char>>,
    current: Result<(u64, Seq<char>), Seq<char>>,
    file: Seq<char>,
) -> Result<u64, ContractRefusalView> {
    match published {
        Ok(v) => Ok(v),
        Err(e) => if holds(e, "already published"@) {
            match current {
                Err(why) => Err(ContractRefusalView::Unreadable(why)),
                Ok(c) => if trim_of(c.1) == trim_of(file) {
                    Ok(c.0)
                } else {
                    Err(
                        ContractRefusalView::Differs {
                            number: c.0,
                            registered: opening(c.1),
                            file: opening(file),
                        },
                    )
                },
            }
        } else {
            Err(ContractRefusalView::Unpublished(e))
        },
    }
}

/// What the registry answered, seen through its views.
pub open spec fn published_view(r: Result<u64, String>) -> Result<u64, Seq<char>> {
    match r {
        Ok(v) => Ok(v),
        Err(e) => Err(e@),
    }
}

/// What is registered, seen through its views.
pub open spec fn current_view(r: Result<Registered, String>) -> Result<(u64, Seq<char>), Seq<char>> {
    match r {
        Ok(c) => Ok((c.number, c.body@)),
        Err(e) => Err(e@),
    }
}

/// Does the registry say that a contract was there before?
pub fn already_published(e: &str) -> (r: bool)
    ensures
        r == holds(e@, "already published"@),
{
    contains(e, "already published")
}

/// The version that the parts build against. `current` is what the registry holds;
/// it is looked at only where publishing found a contract there.
pub fn contract_version(
    published: Result<u64, String>,
    current: Result<Registered, String>,
    file: &str,
) -> (r: Result<u64, ContractRefusal>)
    ensures
        r matches Ok(v) ==> contract_of(published_view(published), current_view(current), file@)
            == Ok::<u64, ContractRefusalView>(v),
        r matches Err(e) ==> contract_of(published_view(published), current_view(current), file@)
            == Err::<u64, ContractRefusalView>(e@),
{
    match published {
        Ok(v) => Ok(v),
        Err(e) => {
            if !already_published(e.as_str()) {
                return Err(ContractRefusal::Unpublished(e));
            }
            match current {
                Err(why) => Err(ContractRefusal::Unreadable(why)),
                Ok(c) => {
                    let held = trim(c.body.as_str());
                    let said = trim(file);
                    if same(held.as_str(), said.as_str()) {
                        Ok(c.number)
                    } else {
                        Err(
                            ContractRefusal::Differs {
                                number: c.number,
                                registered: opening_text(c.body.as_str()),
                                file: opening_text(file),
                            },
                        )
                    }
                },
            }
        },
    }
}

/// A repeat run of one goal goes on with its own contract: publishing a body that is
/// already registered gives the registered version.
pub proof fn law_a_repeat_run_keeps_its_contract(e: Seq<char>, number: u64, body: Seq<char>)
    requires
        holds(e, "already published"@),
    ensures
        contract_of(Err(e), Ok((number, body)), body) == Ok::<u64, ContractRefusalView>(number),
{
}

// --------------------------------------------------------------- the parts --

/// The plan that a part runs from: its own files and its own checks, never the
/// goal's.
pub fn part_plan(p: &PartSpec, context: &Vec<Shown>, base_commit: &str, attempts: u32) -> (j: Json)
    ensures
        j@ == plan_tree(
            p.text@,
            strs(p.writable@),
            shown_views(context@),
            p.checks@,
            base_commit@,
            attempts,
        ),
{
    plan(p.text.as_str(), &p.writable, context, &p.checks, base_commit, attempts)
}

/// The names of the parts, for the header of a run.
pub fn part_names(parts: &Vec<PartSpec>) -> (out: String)
    ensures
        out@ == join_of(parts@.map_values(|p: PartSpec| p.name@), ", "@),
{
    let ghost want = parts@.map_values(|p: PartSpec| p.name@);
    let mut names: Vec<String> = Vec::new();
    let mut i: usize = 0;
    assert(strs(names@) =~= want.take(0));
    while i < parts.len()
        invariant
            i <= parts.len(),
            want == parts@.map_values(|p: PartSpec| p.name@),
            strs(names@) == want.take(i as int),
        decreases parts.len() - i,
    {
        let n = parts[i].name.clone();
        let ghost o = names@;
        names.push(n);
        proof {
            assert(strs(names@) =~= strs(o).push(n@));
            assert(want.take(i + 1) =~= want.take(i as int).push(n@));
        }
        i = i + 1;
    }
    assert(want.take(i as int) =~= want);
    join(&names, ", ")
}

/// What one branch of one part is recorded under: the part's name is in it.
pub open spec fn attempt_key(part: Seq<char>, branch: Seq<char>) -> Seq<char> {
    part + "/"@ + branch
}

/// What one branch of one part is recorded under.
pub fn attempt_branch(part: &str, branch: &str) -> (out: String)
    ensures
        out@ == attempt_key(part@, branch@),
{
    part.to_string().concat("/").concat(branch)
}

/// Two parts that run a branch of one name are recorded apart, and so are two
/// branches of one part.
pub proof fn law_two_parts_do_not_share_one_attempt(
    a: Seq<char>,
    b: Seq<char>,
    x: Seq<char>,
    y: Seq<char>,
)
    ensures
        a != b ==> attempt_key(a, x) != attempt_key(b, x),
        x != y ==> attempt_key(a, x) != attempt_key(a, y),
{
    if attempt_key(a, x) == attempt_key(b, x) {
        let k = attempt_key(a, x);
        assert(k.len() == attempt_key(b, x).len());
        assert(a.len() == b.len());
        assert(k.take(a.len() as int) =~= a);
        assert(attempt_key(b, x).take(a.len() as int) =~= b);
    }
    if attempt_key(a, x) == attempt_key(a, y) {
        let k = attempt_key(a, x);
        let n = a.len() + "/"@.len();
        assert(k.skip(n as int) =~= x);
        assert(attempt_key(a, y).skip(n as int) =~= y);
    }
}

/// What a branch of a part is recorded as: one that left no file at all did not
/// fail, it errored.
pub fn part_outcome(e: &Entry) -> (r: &'static str)
    ensures
        r@ == if e.accepted {
            "passed"@
        } else if e.files == 0 {
            "errored"@
        } else {
            "failed"@
        },
{
    if e.accepted {
        "passed"
    } else if e.files == 0 {
        "errored"
    } else {
        "failed"
    }
}

/// What is said of a part: how its best branch did, and what it was built against.
pub fn part_line(part: &str, accepted: bool, best: Option<u64>, generations: usize, version: u64) -> (out:
    String)
    ensures
        out@ == "  "@ + pad_end_of(part@, 16) + " accepted="@ + pad_end_of(
            if accepted {
                "true"@
            } else {
                "false"@
            },
            5,
        ) + " score="@ + pad_end_of(
            dec_of(
                match best {
                    Some(s) => s as nat,
                    None => 0,
                },
            ),
            5,
        ) + " generations="@ + dec_of(generations as nat) + " against contract v"@ + dec_of(
            version as nat,
        ),
{
    let word = if accepted {
        "true"
    } else {
        "false"
    };
    let score: u64 = match best {
        Some(s) => s,
        None => 0,
    };
    "  ".to_string().concat(pad_end(part, 16).as_str()).concat(" accepted=").concat(
        pad_end(word, 5).as_str(),
    ).concat(" score=").concat(pad_end(dec(score).as_str(), 5).as_str()).concat(
        " generations=",
    ).concat(dec(generations as u64).as_str()).concat(" against contract v").concat(
        dec(version).as_str(),
    )
}

/// What is said of the parts that the pool now links to their goal; nothing where none
/// could be.
pub open spec fn linked_of(written: nat, parts: nat) -> Option<Seq<char>> {
    if written == 0 {
        None
    } else {
        Some(
            "knowledge: "@ + dec_of(written) + "/"@ + dec_of(parts)
                + " part(s) linked to this goal — a later run can ask what it broke into"@,
        )
    }
}

/// What is said of the parts that the pool now links to their goal.
pub fn linked(written: usize, parts: usize) -> (r: Option<String>)
    ensures
        (match r {
            Some(t) => Some(t@),
            None => None,
        }) == linked_of(written as nat, parts as nat),
{
    if written == 0 {
        None
    } else {
        Some(
            "knowledge: ".to_string().concat(dec(written as u64).as_str()).concat("/").concat(
                dec(parts as u64).as_str(),
            ).concat(
                " part(s) linked to this goal — a later run can ask what it broke into",
            ),
        )
    }
}

/// What is said of a contract that was registered before.
pub fn registered_line(number: u64) -> (out: String)
    ensures
        out@ == "contract v"@ + dec_of(number as nat) + " already registered"@ + (if number > 1 {
            " (amended by an earlier run)"@
        } else {
            ""@
        }),
{
    let tail = if number > 1 {
        " (amended by an earlier run)"
    } else {
        ""
    };
    "contract v".to_string().concat(dec(number).as_str()).concat(" already registered").concat(tail)
}

// -------------------------------------------------------------- a join that failed --

/// A line that holds more than white space.
pub open spec fn says_something(line: Seq<char>) -> bool {
    trim_of(line).len() > 0
}

/// The last six lines of a check's detail that say something: a failing command says
/// at the end what went wrong.
pub open spec fn detail_tail(detail: Seq<char>) -> Seq<char> {
    join_of(
        last_of(lines_of(detail).filter(|l: Seq<char>| says_something(l)), 6),
        "\n      "@,
    )
}

/// The last lines of a check's detail that say something.
pub fn failing_detail(detail: &str) -> (out: String)
    ensures
        out@ == detail_tail(detail@),
{
    let all = lines(detail);
    let ghost ls = strs(all@);
    let ghost f = |l: Seq<char>| says_something(l);
    let mut kept: Vec<String> = Vec::new();
    let mut i: usize = 0;
    assert(strs(kept@) =~= ls.take(0).filter(f)) by {
        reveal(Seq::filter);
    }
    while i < all.len()
        invariant
            i <= all.len(),
            ls == strs(all@),
            f == (|l: Seq<char>| says_something(l)),
            strs(kept@) == ls.take(i as int).filter(f),
        decreases all.len() - i,
    {
        let bare = trim(all[i].as_str());
        proof {
            assert(ls.take(i + 1) =~= ls.take(i as int).push(ls[i as int]));
            ls.take(i as int).lemma_filter_push(ls[i as int], f);
        }
        if !bare.as_str().is_empty() {
            let line = all[i].clone();
            let ghost o = kept@;
            kept.push(line);
            assert(strs(kept@) =~= strs(o).push(line@));
        }
        i = i + 1;
    }
    assert(ls.take(i as int) =~= ls);
    let tail = last_texts(&kept, 6);
    join(&tail, "\n      ")
}

/// The names of the parts that own a failure.
pub open spec fn owner_names(failure: Seq<char>, parts: Seq<PartSpec>) -> Seq<Seq<char>> {
    parts.filter(|p: PartSpec| owns(failure, p)).map_values(|p: PartSpec| p.name@)
}

/// Who a join failure is about, as one line of the report.
pub open spec fn blame_of(failure: Seq<char>, parts: Seq<PartSpec>) -> Seq<char> {
    let owners = owner_names(failure, parts);
    if owners.len() == 0 {
        "the JOIN owns this, not a part: "@ + first_line_of(failure)
    } else {
        "owned by "@ + join_of(owners, " and "@) + ": "@ + first_line_of(failure)
    }
}

/// Who a join failure is about, as one line of the report.
pub fn blame(failure: &str, parts: &Vec<PartSpec>) -> (out: String)
    ensures
        out@ == blame_of(failure@, parts@),
{
    let owners = join_failure_owners(failure, parts);
    let line = first_line(failure);
    assert(owners.len() == owner_names(failure@, parts@).len());
    if owners.len() == 0 {
        "the JOIN owns this, not a part: ".to_string().concat(line.as_str())
    } else {
        let names = join(&owners, " and ");
        "owned by ".to_string().concat(names.as_str()).concat(": ").concat(line.as_str())
    }
}

/// How a part ended: whether its best branch was accepted, and the checks that it still
/// failed, each with what it said.
#[derive(Debug, PartialEq, Eq)]
pub struct Ending {
    pub part: String,
    pub accepted: bool,
    pub failures: Vec<(String, String)>,
}

/// What a part still failed: nothing where it was accepted or no check says why.
pub open spec fn failing_lines(e: Ending) -> Seq<Seq<char>> {
    if e.accepted || e.failures@.len() == 0 {
        Seq::empty()
    } else {
        seq!["\n  "@ + e.part@ + " was still failing:"@] + e.failures@.map_values(
            |f: (String, String)| "    · "@ + f.0@ + ": "@ + detail_tail(f.1@),
        )
    }
}

/// What the parts still failed.
pub open spec fn all_failing(es: Seq<Ending>) -> Seq<Seq<char>>
    decreases es.len(),
{
    if es.len() == 0 {
        Seq::empty()
    } else {
        all_failing(es.drop_last()) + failing_lines(es.last())
    }
}

/// What is told of a run that lands nothing: what blocked it, what each part still failed,
/// and, where the parts were joined at all, who each failure of the join is about.
pub open spec fn unlanded_of(
    blocked: Seq<Seq<char>>,
    es: Seq<Ending>,
    parts: Seq<PartSpec>,
    joined: bool,
) -> Seq<Seq<char>> {
    seq!["\nNo PR opened:"@] + blocked.map_values(|b: Seq<char>| "  · "@ + b) + all_failing(es)
        + (if joined {
        blocked.map_values(|b: Seq<char>| "  · "@ + blame_of(b, parts))
    } else {
        Seq::empty()
    })
}

fn tell(out: &mut Vec<String>, line: String)
    ensures
        strs(final(out)@) == strs(old(out)@).push(line@),
{
    let ghost o = out@;
    out.push(line);
    assert(strs(out@) =~= strs(o).push(line@));
}

fn tell_failing(out: &mut Vec<String>, e: &Ending)
    ensures
        strs(final(out)@) == strs(old(out)@) + failing_lines(*e),
{
    let ghost o = strs(out@);
    if e.accepted || e.failures.len() == 0 {
        assert(o + failing_lines(*e) =~= o);
        return;
    }
    let head = "\n  ".to_string().concat(e.part.as_str()).concat(" was still failing:");
    let ghost want = failing_lines(*e);
    tell(out, head);
    let mut i: usize = 0;
    assert(strs(out@) =~= o + want.take(1));
    while i < e.failures.len()
        invariant
            i <= e.failures.len(),
            e.failures@.len() > 0,
            !e.accepted,
            want == failing_lines(*e),
            strs(out@) == o + want.take(1 + i),
        decreases e.failures.len() - i,
    {
        let detail = failing_detail(e.failures[i].1.as_str());
        let line = "    · ".to_string().concat(e.failures[i].0.as_str()).concat(": ").concat(
            detail.as_str(),
        );
        assert(line@ == want[1 + i]);
        tell(out, line);
        assert(want.take(2 + i) =~= want.take(1 + i).push(want[1 + i]));
        assert(strs(out@) =~= o + want.take(2 + i));
        i = i + 1;
    }
    assert(want.take(1 + i) =~= want);
}

/// What is told of a run that lands nothing.
pub fn unlanded(blocked: &Vec<String>, es: &Vec<Ending>, parts: &Vec<PartSpec>, joined: bool) -> (out:
    Vec<String>)
    ensures
        strs(out@) == unlanded_of(strs(blocked@), es@, parts@, joined),
{
    let mut out: Vec<String> = Vec::new();
    assert(strs(out@) =~= Seq::<Seq<char>>::empty());
    tell(&mut out, "\nNo PR opened:".to_string());
    let ghost head = seq!["\nNo PR opened:"@];
    let ghost all = strs(blocked@).map_values(|b: Seq<char>| "  · "@ + b);
    let mut i: usize = 0;
    assert(strs(out@) =~= head + all.take(0));
    while i < blocked.len()
        invariant
            i <= blocked.len(),
            all == strs(blocked@).map_values(|b: Seq<char>| "  · "@ + b),
            strs(out@) == head + all.take(i as int),
        decreases blocked.len() - i,
    {
        tell(&mut out, "  · ".to_string().concat(blocked[i].as_str()));
        assert(all.take(i + 1) =~= all.take(i as int).push(all[i as int]));
        assert(strs(out@) =~= head + all.take(i + 1));
        i = i + 1;
    }
    assert(all.take(i as int) =~= all);
    let ghost first = head + all;
    i = 0;
    assert(es@.take(0) =~= Seq::empty());
    assert(strs(out@) =~= first + all_failing(es@.take(0)));
    while i < es.len()
        invariant
            i <= es.len(),
            strs(out@) == first + all_failing(es@.take(i as int)),
        decreases es.len() - i,
    {
        tell_failing(&mut out, &es[i]);
        assert(es@.take(i + 1).drop_last() =~= es@.take(i as int));
        assert(strs(out@) =~= first + all_failing(es@.take(i + 1)));
        i = i + 1;
    }
    assert(es@.take(i as int) =~= es@);
    let ghost second = first + all_failing(es@);
    if joined {
        let ghost who = strs(blocked@).map_values(|b: Seq<char>| "  · "@ + blame_of(b, parts@));
        i = 0;
        assert(strs(out@) =~= second + who.take(0));
        while i < blocked.len()
            invariant
                i <= blocked.len(),
                who == strs(blocked@).map_values(|b: Seq<char>| "  · "@ + blame_of(b, parts@)),
                strs(out@) == second + who.take(i as int),
            decreases blocked.len() - i,
        {
            let b = blame(blocked[i].as_str(), parts);
            tell(&mut out, "  · ".to_string().concat(b.as_str()));
            assert(who.take(i + 1) =~= who.take(i as int).push(who[i as int]));
            assert(strs(out@) =~= second + who.take(i + 1));
            i = i + 1;
        }
        assert(who.take(i as int) =~= who);
    }
    assert(strs(out@) =~= unlanded_of(strs(blocked@), es@, parts@, joined));
    out
}

// ------------------------------------------------------------- the landing --

/// How the parts came to agree: one item per line of the log, or the word that they
/// needed nothing.
pub open spec fn history_of(log: Seq<Seq<char>>) -> Seq<char> {
    if log.len() == 0 {
        "The parts needed nothing from each other."@
    } else {
        join_of(log.map_values(|l: Seq<char>| "- "@ + l), "\n"@)
    }
}

fn history(log: &Vec<String>) -> (out: String)
    ensures
        out@ == history_of(strs(log@)),
{
    if log.len() == 0 {
        return "The parts needed nothing from each other.".to_string();
    }
    let ghost want = strs(log@).map_values(|l: Seq<char>| "- "@ + l);
    let mut items: Vec<String> = Vec::new();
    let mut i: usize = 0;
    assert(strs(items@) =~= want.take(0));
    while i < log.len()
        invariant
            i <= log.len(),
            want == strs(log@).map_values(|l: Seq<char>| "- "@ + l),
            strs(items@) == want.take(i as int),
        decreases log.len() - i,
    {
        let item = "- ".to_string().concat(log[i].as_str());
        let ghost o = items@;
        items.push(item);
        proof {
            assert(strs(items@) =~= strs(o).push(item@));
            assert(want.take(i + 1) =~= want.take(i as int).push(item@));
        }
        i = i + 1;
    }
    assert(want.take(i as int) =~= want);
    join(&items, "\n")
}

/// The body of a composed run's pull request.
pub open spec fn composed_body(
    parts: nat,
    version: u64,
    score: u64,
    goal_text: Seq<char>,
    log: Seq<Seq<char>>,
) -> Seq<char> {
    "Automated candidate from a decomposed graph-engineering run.\n\n"@ + dec_of(parts)
        + " part(s) built against contract v"@ + dec_of(version as nat)
        + "; the join passed at score "@ + dec_of(score as nat) + ".\n\n## Goal\n\n"@ + goal_text
        + "\n\n## How the interface got there\n\n"@ + history_of(log) + "\n"@
}

/// What lands a composed run: every part's work, and the negotiation behind it.
pub fn composed_landing(
    goal: &GoalSpec,
    base: &str,
    now_secs: u64,
    version: u64,
    score: u64,
    log: &Vec<String>,
) -> (j: Json)
    ensures
        j@ == landing_tree(
            "comp/goal-"@ + dec_of(now_secs as nat),
            base@,
            title_of(*goal, "a composed candidate"@),
            composed_body(goal.parts@.len(), version, score, goal.text@, strs(log@)),
        ),
{
    let t = title(goal, "a composed candidate");
    let now = dec(now_secs);
    let branch = "comp/goal-".to_string().concat(now.as_str());
    let n = dec(goal.parts.len() as u64);
    let v = dec(version);
    let s = dec(score);
    let h = history(log);
    let body =
        "Automated candidate from a decomposed graph-engineering run.\n\n".to_string().concat(
        n.as_str(),
    ).concat(" part(s) built against contract v").concat(v.as_str()).concat(
        "; the join passed at score ",
    ).concat(s.as_str()).concat(".\n\n## Goal\n\n").concat(goal.text.as_str()).concat(
        "\n\n## How the interface got there\n\n",
    ).concat(h.as_str()).concat("\n");
    landing_json(branch.as_str(), base, t.as_str(), body.as_str())
}

// --------------------------------------------------------------------- laws --

/// Which contract a run stands on: the one that it published; where there was one already,
/// that one if it says the same; and none in any other case.
pub proof fn law_which_contract_a_run_stands_on(
    published: Result<u64, Seq<char>>,
    current: Result<(u64, Seq<char>), Seq<char>>,
    file: Seq<char>,
)
    ensures
        published is Ok ==> contract_of(published, current, file) == Ok::<u64, ContractRefusalView>(
            published->Ok_0,
        ),
        published is Err ==> (contract_of(published, current, file) is Ok <==> holds(
            published->Err_0,
            "already published"@,
        ) && current is Ok && trim_of(current->Ok_0.1) == trim_of(file)),
        published is Err && contract_of(published, current, file) is Ok ==> contract_of(
            published,
            current,
            file,
        )->Ok_0 == current->Ok_0.0,
        published is Err && !holds(published->Err_0, "already published"@) ==> contract_of(
            published,
            current,
            file,
        ) == Err::<u64, ContractRefusalView>(ContractRefusalView::Unpublished(published->Err_0)),
        published is Err && holds(published->Err_0, "already published"@) && current is Err
            ==> contract_of(published, current, file) == Err::<u64, ContractRefusalView>(
            ContractRefusalView::Unreadable(current->Err_0),
        ),
{
}

/// A part owns a failure exactly where the failure names the part or a file that the part
/// may write.
pub proof fn law_who_owns_a_failure(failure: Seq<char>, parts: Seq<PartSpec>, name: Seq<char>)
    ensures
        owner_names(failure, parts).contains(name) <==> exists|i: int|
            0 <= i < parts.len() && (#[trigger] parts[i]).name@ == name && (holds(
                failure,
                parts[i].name@,
            ) || exists|k: int|
                0 <= k < parts[i].writable@.len() && holds(
                    failure,
                    (#[trigger] parts[i].writable@[k])@,
                )),
    decreases parts.len(),
{
    let mine = |p: PartSpec| owns(failure, p);
    let called = |p: PartSpec| p.name@;
    reveal(Seq::filter);
    if parts.len() > 0 {
        let ps = parts.drop_last();
        law_who_owns_a_failure(failure, ps, name);
        let f = ps.filter(mine);
        let (earlier, now) = (owner_names(failure, ps), owner_names(failure, parts));
        assert(earlier == f.map_values(called));
        assert(f.push(parts.last()).map_values(called) =~= earlier.push(parts.last().name@));
        assert(now == if owns(failure, parts.last()) {
            earlier.push(parts.last().name@)
        } else {
            earlier
        });
        if earlier.contains(name) {
            let k = choose|k: int| 0 <= k < earlier.len() && earlier[k] == name;
            assert(now[k] == name);
            let i = choose|i: int|
                0 <= i < ps.len() && (#[trigger] ps[i]).name@ == name && owns(failure, ps[i]);
            assert(parts[i].name@ == name && owns(failure, parts[i]));
        }
        assert(parts[parts.len() - 1] == parts.last());
        if owns(failure, parts.last()) && parts.last().name@ == name {
            assert(now[earlier.len() as int] == name);
        }
        if exists|i: int|
            0 <= i < parts.len() && (#[trigger] parts[i]).name@ == name && owns(failure, parts[i]) {
            let i = choose|i: int|
                0 <= i < parts.len() && (#[trigger] parts[i]).name@ == name && owns(
                    failure,
                    parts[i],
                );
            if i < ps.len() {
                assert(ps[i].name@ == name && owns(failure, ps[i]));
            }
        }
        if now.contains(name) && !earlier.contains(name) {
            let k = choose|k: int| 0 <= k < now.len() && now[k] == name;
            if k < earlier.len() {
                assert(earlier[k] == name);
            }
        }
    } else {
        assert(owner_names(failure, parts) =~= Seq::empty());
    }
}

/// What stands in the way of a landing is told, line by line; and where the parts were joined
/// it is told who owns it.
pub proof fn law_what_stands_in_the_way_is_told(
    blocked: Seq<Seq<char>>,
    es: Seq<Ending>,
    parts: Seq<PartSpec>,
    joined: bool,
    i: int,
)
    requires
        0 <= i < blocked.len(),
    ensures
        unlanded_of(blocked, es, parts, joined).contains("  · "@ + blocked[i]),
        joined ==> unlanded_of(blocked, es, parts, joined).contains(
            "  · "@ + blame_of(blocked[i], parts),
        ),
{
    let all = unlanded_of(blocked, es, parts, joined);
    assert(all[1 + i] == "  · "@ + blocked[i]);
    if joined {
        let n = 1 + blocked.len() + all_failing(es).len();
        assert(all[n + i] == "  · "@ + blame_of(blocked[i], parts));
    }
}

/// A part that passed has nothing to tell of; one that did not tells each failure by the
/// check's own name.
pub proof fn law_a_failing_part_tells_each_failure(e: Ending, k: int)
    ensures
        e.accepted || e.failures@.len() == 0 ==> failing_lines(e).len() == 0,
        !e.accepted && e.failures@.len() > 0 ==> failing_lines(e).len() == e.failures@.len() + 1,
        !e.accepted && 0 <= k < e.failures@.len() ==> failing_lines(e)[k + 1] == "    · "@
            + e.failures@[k].0@ + ": "@ + detail_tail(e.failures@[k].1@),
{
}

/// A line of a failure is shown only where it says something, and of those the last six.
pub proof fn law_a_tail_is_of_what_was_said(detail: Seq<char>)
    ensures
        detail_tail(detail) == join_of(
            last_of(lines_of(detail).filter(|l: Seq<char>| trim_of(l).len() > 0), 6),
            "\n      "@,
        ),
{
    assert((|l: Seq<char>| says_something(l)) =~= (|l: Seq<char>| trim_of(l).len() > 0));
}

/// Parts are linked only where some were written.
pub proof fn law_nothing_written_is_nothing_linked(written: nat, parts: nat)
    ensures
        linked_of(written, parts) is None <==> written == 0,
{
}

/// The body of a composed pull request tells how many parts there were, against which contract and
/// at what score the join passed, the goal, and how the interface got there.
pub proof fn law_a_composed_request_carries_its_goal(parts: nat, version: u64, score: u64, goal_text: Seq<char>, log: Seq<Seq<char>>)
    ensures
        holds(composed_body(parts, version, score, goal_text, log), dec_of(parts) + " part(s) built against contract v"@ + dec_of(version as nat)),
        holds(composed_body(parts, version, score, goal_text, log), "; the join passed at score "@ + dec_of(score as nat)),
        holds(composed_body(parts, version, score, goal_text, log), ".\n\n## Goal\n\n"@ + goal_text + "\n\n## How the interface got there\n\n"@),
        holds(composed_body(parts, version, score, goal_text, log), "\n\n## How the interface got there\n\n"@ + history_of(log) + "\n"@),
{
    let c0 = "Automated candidate from a decomposed graph-engineering run.\n\n"@;
    let c1 = dec_of(parts);
    let c2 = " part(s) built against contract v"@;
    let c3 = dec_of(version as nat);
    let c4 = "; the join passed at score "@;
    let c5 = dec_of(score as nat);
    let c6 = ".\n\n## Goal\n\n"@;
    let c7 = goal_text;
    let c8 = "\n\n## How the interface got there\n\n"@;
    let c9 = history_of(log);
    let c10 = "\n"@;
    let s0 = c0;
    let s1 = s0 + c1;
    let s2 = s1 + c2;
    let s3 = s2 + c3;
    let s4 = s3 + c4;
    let s5 = s4 + c5;
    let s6 = s5 + c6;
    let s7 = s6 + c7;
    let s8 = s7 + c8;
    let s9 = s8 + c9;
    let s10 = s9 + c10;
    lemma_assoc(s0, c1, c2);
    lemma_assoc(s0, c1 + c2, c3);
    lemma_holds_end(s0, c1 + c2 + c3);
    lemma_holds_longer(s3, c1 + c2 + c3, c4);
    lemma_holds_longer(s4, c1 + c2 + c3, c5);
    lemma_holds_longer(s5, c1 + c2 + c3, c6);
    lemma_holds_longer(s6, c1 + c2 + c3, c7);
    lemma_holds_longer(s7, c1 + c2 + c3, c8);
    lemma_holds_longer(s8, c1 + c2 + c3, c9);
    lemma_holds_longer(s9, c1 + c2 + c3, c10);
    lemma_assoc(s3, c4, c5);
    lemma_holds_end(s3, c4 + c5);
    lemma_holds_longer(s5, c4 + c5, c6);
    lemma_holds_longer(s6, c4 + c5, c7);
    lemma_holds_longer(s7, c4 + c5, c8);
    lemma_holds_longer(s8, c4 + c5, c9);
    lemma_holds_longer(s9, c4 + c5, c10);
    lemma_assoc(s5, c6, c7);
    lemma_assoc(s5, c6 + c7, c8);
    lemma_holds_end(s5, c6 + c7 + c8);
    lemma_holds_longer(s8, c6 + c7 + c8, c9);
    lemma_holds_longer(s9, c6 + c7 + c8, c10);
    lemma_assoc(s7, c8, c9);
    lemma_assoc(s7, c8 + c9, c10);
    lemma_holds_end(s7, c8 + c9 + c10);
}

/// What is said of a contract that is refused: why it could not be read or published, or what is
/// registered and what the file says instead.
pub proof fn law_what_is_said_of_a_refused_contract(r: ContractRefusalView, path: Seq<char>)
    ensures
        r is Unreadable ==> contract_refusal_text(r, path)
            == "a contract is registered but unreadable: "@ + r->Unreadable_0,
        r is Unpublished ==> contract_refusal_text(r, path) == "publishing the contract: "@
            + r->Unpublished_0,
        r is Differs ==> ("\n\nthe file:   "@ + r->file).is_suffix_of(contract_refusal_text(r, path)),
        r is Differs ==> ("the registry holds a contract v"@ + dec_of(
            r->number as nat,
        )).is_prefix_of(contract_refusal_text(r, path)),
{
    let t = contract_refusal_text(r, path);
    if let ContractRefusalView::Differs { number, registered, file } = r {
        let end = "\n\nthe file:   "@ + file;
        assert(t.subrange(t.len() - end.len(), t.len() as int) =~= end);
        let head = "the registry holds a contract v"@ + dec_of(number as nat);
        assert(t.subrange(0, head.len() as int) =~= head);
    }
}

/// What a text opens with: its first line, and no more than ninety characters of it.
pub proof fn law_what_a_text_opens_with(body: Seq<char>)
    ensures
        opening(body).len() <= 90,
        lines_of(body).len() > 0 ==> opening(body).is_prefix_of(lines_of(body)[0]),
        lines_of(body).len() > 0 && lines_of(body)[0].len() <= 90 ==> opening(body)
            == lines_of(body)[0],
        lines_of(body).len() == 0 ==> opening(body).len() == 0,
{
    if lines_of(body).len() > 0 {
        let l = lines_of(body)[0];
        assert(l.subrange(0, opening(body).len() as int) =~= opening(body));
    }
}

/// A failure is blamed on the parts that own it, by name; and on the join where none does.
pub proof fn law_who_is_blamed(failure: Seq<char>, parts: Seq<PartSpec>)
    ensures
        owner_names(failure, parts).len() == 0 ==> blame_of(failure, parts)
            == "the JOIN owns this, not a part: "@ + first_line_of(failure),
        owner_names(failure, parts).len() > 0 ==> blame_of(failure, parts) == "owned by "@ + join_of(
            owner_names(failure, parts),
            " and "@,
        ) + ": "@ + first_line_of(failure),
{
}

/// What the parts asked of each other is told, one line each.
pub proof fn law_every_exchange_is_told(log: Seq<Seq<char>>, i: int)
    requires
        0 <= i < log.len(),
    ensures
        holds(history_of(log), "- "@ + log[i]),
{
    let parts = log.map_values(|l: Seq<char>| "- "@ + l);
    let r = crate::text::lemma_join_around(parts, i, "\n"@);
    lemma_holds_end(r.0, parts[i]);
    lemma_holds_longer(r.0 + parts[i], parts[i], r.1);
}

/// A refusal of a contract is seen with all that it tells.
pub proof fn law_a_contract_refusal_is_seen_whole(r: ContractRefusal)
    ensures
        r matches ContractRefusal::Unreadable(e) ==> r@ == ContractRefusalView::Unreadable(e@),
        r matches ContractRefusal::Differs { number, registered, file } ==> r@ == (
        ContractRefusalView::Differs { number, registered: registered@, file: file@ }),
        r matches ContractRefusal::Unpublished(e) ==> r@ == ContractRefusalView::Unpublished(e@),
{
}

} // verus!
