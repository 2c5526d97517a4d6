//! One run of a goal: what is asked of each branch, which candidate wins, and how
//! the run ends.

use vstd::prelude::*;
use vstd::string::*;

use crate::goal::context::{Shown, ShownView, shown_views};
use crate::goal::manifest::{trim_members, trimmed};
use crate::goal::spec::{CheckSpec, GoalSpec, checks_from};
use crate::json::{Json, Tree, entry_from, entry_trees, list, no_entries, object, put, text, text_trees, texts, trees};
use crate::number::{dec, dec_of, number_of, parse_u64};
use crate::order::{sorted_set, sorted_set_of};
use crate::text::{ascii, chars_of, debug, debug_of, holds, join, join_of, lemma_assoc, lemma_holds_end, lemma_holds_itself, lemma_holds_longer, lines, lines_of, pad_end, pad_end_of, rsplit_once, rsplit_once_of, same, slice_text, strs};

verus! {

/// The run ended as it should.
pub const SUCCESS: i32 = 0;

/// Every branch was judged and none passed.
pub const EXHAUSTED: i32 = 3;

/// The checks could not judge, so nothing was tried.
pub const GATE_REFUSED: i32 = 4;

// ------------------------------------------------------------ the base tree --

/// A file of the base tree as it is shipped: the workspace manifest with its
/// members trimmed, any other file as it is.
pub open spec fn shipped_file(f: ShownView, manifest: Seq<char>, keep: Seq<Seq<char>>) -> ShownView {
    if f.path == manifest {
        ShownView { path: f.path, content: trimmed(f.content, keep) }
    } else {
        f
    }
}

/// The base tree as it is shipped.
pub open spec fn shipped(tree: Seq<ShownView>, goal: GoalSpec) -> Seq<ShownView> {
    match goal.workspace_manifest {
        Some(m) => if goal.keep_members@.len() > 0 {
            tree.map_values(|f: ShownView| shipped_file(f, m@, strs(goal.keep_members@)))
        } else {
            tree
        },
        None => tree,
    }
}

/// The base tree with a shared workspace manifest trimmed to the goal's members, so
/// that one crate of a big workspace builds alone.
pub fn ship_tree(tree: Vec<Shown>, goal: &GoalSpec) -> (out: Vec<Shown>)
    ensures
        shown_views(out@) == shipped(shown_views(tree@), *goal),
{
    match &goal.workspace_manifest {
        Some(m) => {
            if goal.keep_members.len() == 0 {
                return tree;
            }
            let ghost want = shipped(shown_views(tree@), *goal);
            let mut out: Vec<Shown> = Vec::new();
            let mut i: usize = 0;
            while i < tree.len()
                invariant
                    i <= tree.len(),
                    goal.workspace_manifest == Some(*m),
                    goal.keep_members@.len() > 0,
                    want == shipped(shown_views(tree@), *goal),
                    shown_views(out@) == want.take(i as int),
                decreases tree.len() - i,
            {
                let f = &tree[i];
                let content = if same(f.path.as_str(), m.as_str()) {
                    trim_members(f.content.as_str(), &goal.keep_members)
                } else {
                    f.content.clone()
                };
                let s = Shown { path: f.path.clone(), content };
                let ghost o = out@;
                out.push(s);
                proof {
                    assert(shown_views(tree@)[i as int] == f@);
                    assert(shown_views(out@) =~= shown_views(o).push(s@));
                    assert(want.take(i + 1) =~= want.take(i as int).push(s@));
                }
                i = i + 1;
            }
            assert(want.take(i as int) =~= want);
            out
        },
        None => tree,
    }
}

// -------------------------------------------------------------- the checks --

/// A check as a plan carries it.
pub open spec fn check_tree(c: CheckSpec) -> Tree {
    Tree::Object(
        seq![
            ("id"@, Tree::Text(c.id@)),
            ("required"@, Tree::Bool(c.required)),
            ("weight"@, Tree::Unsigned(c.weight as u64)),
            ("command"@, Tree::List(text_trees(strs(c.command@)))),
            ("needs"@, Tree::List(text_trees(strs(c.needs@)))),
        ],
    )
}

/// The checks as a plan carries them.
pub open spec fn check_trees(cs: Seq<CheckSpec>) -> Tree {
    Tree::List(cs.map_values(|c: CheckSpec| check_tree(c)))
}

/// A check in a plan is looked up by its fields, and each is the check's own: its name,
/// whether it is required, its weight, its command and what it needs.
pub proof fn law_a_check_is_carried_whole(c: CheckSpec)
    ensures
        check_tree(c).field("id"@) == Some(Tree::Text(c.id@)),
        check_tree(c).field("required"@) == Some(Tree::Bool(c.required)),
        check_tree(c).field("weight"@) == Some(Tree::Unsigned(c.weight as u64)),
        check_tree(c).field("command"@) is Some,
        check_tree(c).field("command"@)->0.items().len() == c.command@.len(),
        forall|i: int|
            0 <= i < c.command@.len() ==> check_tree(c).field("command"@)->0.items()[i]
                == Tree::Text((#[trigger] c.command@[i])@),
        check_tree(c).field("needs"@) is Some,
        check_tree(c).field("needs"@)->0.items().len() == c.needs@.len(),
        forall|i: int|
            0 <= i < c.needs@.len() ==> check_tree(c).field("needs"@)->0.items()[i] == Tree::Text(
                (#[trigger] c.needs@[i])@,
            ),
        check_tree(c).field("may_pass_base"@) is None,
{
    reveal_with_fuel(entry_from, 6);
    reveal_strlit("id");
    reveal_strlit("required");
    reveal_strlit("weight");
    reveal_strlit("command");
    reveal_strlit("needs");
    reveal_strlit("may_pass_base");
    assert("id"@.len() == 2);
    assert("required"@.len() == 8);
    assert("weight"@.len() == 6);
    assert("command"@.len() == 7);
    assert("needs"@.len() == 5);
    assert("may_pass_base"@.len() == 13);
}

/// Whether a check may pass on the base is nobody's business but this side's: two checks
/// that differ in that alone are carried alike, and two that differ in whether they are
/// required, in their name, their weight, their command or their needs are not.
pub proof fn law_what_tells_two_checks_apart(a: CheckSpec, b: CheckSpec)
    ensures
        a.id@ == b.id@ && a.required == b.required && a.weight == b.weight && strs(a.command@)
            == strs(b.command@) && strs(a.needs@) == strs(b.needs@) ==> check_tree(a) == check_tree(
            b,
        ),
        a.required != b.required ==> check_tree(a) != check_tree(b),
        a.id@ != b.id@ ==> check_tree(a) != check_tree(b),
        a.weight != b.weight ==> check_tree(a) != check_tree(b),
        strs(a.command@) != strs(b.command@) ==> check_tree(a) != check_tree(b),
        strs(a.needs@) != strs(b.needs@) ==> check_tree(a) != check_tree(b),
{
    law_a_check_is_carried_whole(a);
    law_a_check_is_carried_whole(b);
    if check_tree(a) == check_tree(b) {
        assert(strs(a.command@) =~= strs(b.command@)) by {
            assert forall|i: int| 0 <= i < a.command@.len() implies strs(a.command@)[i] == strs(
                b.command@,
            )[i] by {
                assert(Tree::Text(a.command@[i]@) == Tree::Text(b.command@[i]@));
            }
        }
        assert(strs(a.needs@) =~= strs(b.needs@)) by {
            assert forall|i: int| 0 <= i < a.needs@.len() implies strs(a.needs@)[i] == strs(
                b.needs@,
            )[i] by {
                assert(Tree::Text(a.needs@[i]@) == Tree::Text(b.needs@[i]@));
            }
        }
    }
}

fn check_json(c: &CheckSpec) -> (j: Json)
    ensures
        j@ == check_tree(*c),
{
    let mut es = no_entries();
    put(&mut es, "id", text(c.id.as_str()));
    put(&mut es, "required", Json::Bool(c.required));
    put(&mut es, "weight", Json::Unsigned(c.weight as u64));
    put(&mut es, "command", texts(&c.command));
    put(&mut es, "needs", texts(&c.needs));
    assert(entry_trees(es@) =~= check_tree(*c)->Object_0);
    object(es)
}

/// The checks as a plan carries them.
pub fn checks_json(cs: &Vec<CheckSpec>) -> (j: Json)
    ensures
        j@ == check_trees(cs@),
        j@.items().len() == cs@.len(),
        forall|i: int|
            0 <= i < cs@.len() ==> {
                let t = #[trigger] j@.items()[i];
                &&& t.field("id"@) == Some(Tree::Text(cs@[i].id@))
                &&& t.field("required"@) == Some(Tree::Bool(cs@[i].required))
                &&& t.field("weight"@) == Some(Tree::Unsigned(cs@[i].weight as u64))
                &&& t.field("command"@) == Some(Tree::List(text_trees(strs(cs@[i].command@))))
                &&& t.field("needs"@) == Some(Tree::List(text_trees(strs(cs@[i].needs@))))
            },
{
    let ghost want = cs@.map_values(|c: CheckSpec| check_tree(c));
    let mut items: Vec<Json> = Vec::new();
    let mut i: usize = 0;
    assert(trees(items@) =~= want.take(0));
    while i < cs.len()
        invariant
            i <= cs.len(),
            want == cs@.map_values(|c: CheckSpec| check_tree(c)),
            trees(items@) == want.take(i as int),
        decreases cs.len() - i,
    {
        let item = check_json(&cs[i]);
        let ghost o = items@;
        items.push(item);
        proof {
            assert(trees(items@) =~= trees(o).push(item@));
            assert(want.take(i + 1) =~= want.take(i as int).push(item@));
        }
        i = i + 1;
    }
    assert(want.take(i as int) =~= want);
    proof {
        law_a_list_of_checks_carries_each(cs@);
    }
    list(items)
}

/// A list of checks carries one entry for each check, in their order, and each entry is
/// that check's own.
pub proof fn law_a_list_of_checks_carries_each(cs: Seq<CheckSpec>)
    ensures
        check_trees(cs).items().len() == cs.len(),
        forall|i: int|
            0 <= i < cs.len() ==> {
                let t = #[trigger] check_trees(cs).items()[i];
                &&& t.field("id"@) == Some(Tree::Text(cs[i].id@))
                &&& t.field("required"@) == Some(Tree::Bool(cs[i].required))
                &&& t.field("weight"@) == Some(Tree::Unsigned(cs[i].weight as u64))
                &&& t.field("command"@) == Some(Tree::List(text_trees(strs(cs[i].command@))))
                &&& t.field("needs"@) == Some(Tree::List(text_trees(strs(cs[i].needs@))))
            },
{
    assert forall|i: int| 0 <= i < cs.len() implies {
        let t = #[trigger] check_trees(cs).items()[i];
        &&& t.field("id"@) == Some(Tree::Text(cs[i].id@))
        &&& t.field("required"@) == Some(Tree::Bool(cs[i].required))
        &&& t.field("weight"@) == Some(Tree::Unsigned(cs[i].weight as u64))
        &&& t.field("command"@) == Some(Tree::List(text_trees(strs(cs[i].command@))))
        &&& t.field("needs"@) == Some(Tree::List(text_trees(strs(cs[i].needs@))))
    } by {
        assert(check_trees(cs).items()[i] == check_tree(cs[i]));
        reveal_with_fuel(entry_from, 6);
        reveal_strlit("id");
        reveal_strlit("required");
        reveal_strlit("weight");
        reveal_strlit("command");
        reveal_strlit("needs");
        assert("id"@.len() == 2);
        assert("required"@.len() == 8);
        assert("weight"@.len() == 6);
        assert("command"@.len() == 7);
        assert("needs"@.len() == 5);
    }
}

/// The first word of each check's command, where it has one.
pub open spec fn tools_of(cs: Seq<CheckSpec>) -> Seq<Seq<char>>
    decreases cs.len(),
{
    if cs.len() == 0 {
        Seq::empty()
    } else {
        let before = tools_of(cs.drop_last());
        if cs.last().command@.len() > 0 {
            before.push(cs.last().command@[0]@)
        } else {
            before
        }
    }
}

proof fn lemma_tools_split(a: Seq<CheckSpec>, b: Seq<CheckSpec>)
    ensures
        tools_of(a + b) == tools_of(a) + tools_of(b),
    decreases b.len(),
{
    if b.len() == 0 {
        assert(a + b =~= a);
        assert(tools_of(a) + tools_of(b) =~= tools_of(a));
    } else {
        lemma_tools_split(a, b.drop_last());
        assert((a + b).drop_last() =~= a + b.drop_last());
        assert(tools_of(a + b) =~= tools_of(a) + tools_of(b));
    }
}

fn push_tools(out: &mut Vec<String>, cs: &Vec<CheckSpec>)
    ensures
        strs(final(out)@) == strs(old(out)@) + tools_of(cs@),
{
    let ghost start = strs(out@);
    let mut i: usize = 0;
    assert(strs(out@) =~= start + tools_of(cs@.take(0)));
    while i < cs.len()
        invariant
            i <= cs.len(),
            strs(out@) == start + tools_of(cs@.take(i as int)),
        decreases cs.len() - i,
    {
        assert(cs@.take(i + 1).drop_last() =~= cs@.take(i as int));
        if cs[i].command.len() > 0 {
            let ghost o = out@;
            out.push(cs[i].command[0].clone());
            assert(strs(out@) =~= strs(o).push(cs[i as int].command@[0]@));
            assert(strs(out@) =~= start + tools_of(cs@.take(i + 1)));
        }
        i = i + 1;
    }
    assert(cs@.take(i as int) =~= cs@);
}

/// The commands that checks may run: the first word of every check of the goal
/// and of its parts, in order and each once.
pub fn allowed_commands(goal: &GoalSpec) -> (out: Vec<String>)
    ensures
        sorted_set_of(strs(out@), tools_of(goal.every_check())),
{
    let mut all: Vec<String> = Vec::new();
    assert(strs(all@) =~= Seq::<Seq<char>>::empty());
    push_tools(&mut all, &goal.checks);
    let mut i: usize = 0;
    assert(strs(all@) =~= tools_of(checks_from(goal.checks@, goal.parts@.take(0))));
    while i < goal.parts.len()
        invariant
            i <= goal.parts.len(),
            strs(all@) == tools_of(checks_from(goal.checks@, goal.parts@.take(i as int))),
        decreases goal.parts.len() - i,
    {
        push_tools(&mut all, &goal.parts[i].checks);
        proof {
            assert(goal.parts@.take(i + 1).drop_last() =~= goal.parts@.take(i as int));
            lemma_tools_split(
                checks_from(goal.checks@, goal.parts@.take(i as int)),
                goal.parts@[i as int].checks@,
            );
        }
        i = i + 1;
    }
    assert(goal.parts@.take(i as int) =~= goal.parts@);
    sorted_set(&all)
}

/// Seconds that a branch's attempts need, one model call after another.
pub fn needed_secs(attempts: u32) -> (r: u64)
    ensures
        r == attempts * 150 + 30,
{
    attempts as u64 * 150 + 30
}

/// What the operator is warned of where the timeout cannot hold the attempts.
pub open spec fn timeout_warning(timeout: u64, attempts: u32) -> Option<Seq<char>> {
    if timeout < attempts * 150 + 30 {
        Some(
            "WARNING: --timeout "@ + dec_of(timeout as nat) + "s cannot hold "@ + dec_of(
                attempts as nat,
            ) + " sequential model calls (~"@ + dec_of((attempts * 150 + 30) as nat)
                + "s needed).\n                      A branch that runs out dies with `error sending request` and NO attempts.\n                      Raise --timeout or lower --attempts."@,
        )
    } else {
        None
    }
}

/// The warning about a timeout that cannot hold the attempts.
pub fn warn_timeout(timeout: u64, attempts: u32) -> (out: Option<String>)
    ensures
        out is Some <==> timeout_warning(timeout, attempts) is Some,
        out matches Some(s) ==> timeout_warning(timeout, attempts) == Some(s@),
{
    let needed = needed_secs(attempts);
    if timeout < needed {
        let t = dec(timeout);
        let a = dec(attempts as u64);
        let n = dec(needed);
        Some(
            "WARNING: --timeout ".to_string().concat(t.as_str()).concat("s cannot hold ").concat(
                a.as_str(),
            ).concat(" sequential model calls (~").concat(n.as_str()).concat(
                "s needed).\n                      A branch that runs out dies with `error sending request` and NO attempts.\n                      Raise --timeout or lower --attempts.",
            ),
        )
    } else {
        None
    }
}

// ---------------------------------------------------------------- the plan --

/// A shown file as a plan carries it.
pub open spec fn shown_tree(s: ShownView) -> Tree {
    Tree::Object(seq![("path"@, Tree::Text(s.path)), ("content"@, Tree::Text(s.content))])
}

/// Shown files as a plan carries them.
pub fn shown_json(v: &Vec<Shown>) -> (j: Json)
    ensures
        j@ == Tree::List(shown_views(v@).map_values(|s: ShownView| shown_tree(s))),
{
    let ghost want = shown_views(v@).map_values(|s: ShownView| shown_tree(s));
    let mut items: Vec<Json> = Vec::new();
    let mut i: usize = 0;
    assert(trees(items@) =~= want.take(0));
    while i < v.len()
        invariant
            i <= v.len(),
            want == shown_views(v@).map_values(|s: ShownView| shown_tree(s)),
            trees(items@) == want.take(i as int),
        decreases v.len() - i,
    {
        let mut es = no_entries();
        put(&mut es, "path", text(v[i].path.as_str()));
        put(&mut es, "content", text(v[i].content.as_str()));
        assert(entry_trees(es@) =~= shown_tree(v[i as int]@)->Object_0);
        let item = object(es);
        let ghost o = items@;
        items.push(item);
        proof {
            assert(item@ == shown_tree(shown_views(v@)[i as int]));
            assert(trees(items@) =~= trees(o).push(item@));
            assert(want.take(i + 1) =~= want.take(i as int).push(item@));
        }
        i = i + 1;
    }
    assert(want.take(i as int) =~= want);
    list(items)
}

/// The plan that a branch runs from. It names the base commit and carries no tree:
/// the runner holds the bytes.
pub open spec fn plan_tree(
    goal_text: Seq<char>,
    writable: Seq<Seq<char>>,
    context: Seq<ShownView>,
    checks: Seq<CheckSpec>,
    base_commit: Seq<char>,
    max_attempts: u32,
) -> Tree {
    Tree::Object(
        seq![
            ("text"@, Tree::Text(goal_text)),
            ("writable"@, Tree::List(text_trees(writable))),
            ("context"@, Tree::List(context.map_values(|s: ShownView| shown_tree(s)))),
            ("previous"@, Tree::List(Seq::empty())),
            ("checks"@, check_trees(checks)),
            ("base_commit"@, Tree::Text(base_commit)),
            ("base_tree"@, Tree::List(Seq::empty())),
            ("max_attempts"@, Tree::Unsigned(max_attempts as u64)),
            ("seed"@, Tree::Unsigned(1)),
        ],
    )
}

/// A plan holds what it was made from, each under its own name: the goal's text, what may
/// be written, the files that are shown, the checks in their order with what each of them
/// says, the base commit and how many attempts there may be. Nothing came before it, and
/// it carries no tree.
pub proof fn law_a_plan_holds_what_it_was_given(
    goal_text: Seq<char>,
    writable: Seq<Seq<char>>,
    context: Seq<ShownView>,
    checks: Seq<CheckSpec>,
    base_commit: Seq<char>,
    max_attempts: u32,
)
    ensures
        ({
            let p = plan_tree(goal_text, writable, context, checks, base_commit, max_attempts);
            &&& p.field("text"@) == Some(Tree::Text(goal_text))
            &&& p.field("writable"@) == Some(Tree::List(text_trees(writable)))
            &&& p.field("context"@) is Some
            &&& p.field("context"@)->0.items().len() == context.len()
            &&& forall|i: int|
                0 <= i < context.len() ==> {
                    let t = #[trigger] p.field("context"@)->0.items()[i];
                    &&& t.field("path"@) == Some(Tree::Text(context[i].path))
                    &&& t.field("content"@) == Some(Tree::Text(context[i].content))
                }
            &&& p.field("previous"@) is Some
            &&& p.field("previous"@)->0.items().len() == 0
            &&& p.field("checks"@) is Some
            &&& p.field("checks"@)->0.items().len() == checks.len()
            &&& forall|i: int|
                0 <= i < checks.len() ==> {
                    let t = #[trigger] p.field("checks"@)->0.items()[i];
                    &&& t.field("id"@) == Some(Tree::Text(checks[i].id@))
                    &&& t.field("required"@) == Some(Tree::Bool(checks[i].required))
                    &&& t.field("weight"@) == Some(Tree::Unsigned(checks[i].weight as u64))
                    &&& t.field("command"@) == Some(Tree::List(text_trees(strs(checks[i].command@))))
                    &&& t.field("needs"@) == Some(Tree::List(text_trees(strs(checks[i].needs@))))
                }
            &&& p.field("base_commit"@) == Some(Tree::Text(base_commit))
            &&& p.field("base_tree"@) is Some
            &&& p.field("base_tree"@)->0.items().len() == 0
            &&& p.field("max_attempts"@) == Some(Tree::Unsigned(max_attempts as u64))
            &&& p.field("seed"@) == Some(Tree::Unsigned(1))
        }),
{
    let p = plan_tree(goal_text, writable, context, checks, base_commit, max_attempts);
    reveal_with_fuel(entry_from, 10);
    reveal_strlit("text");
    reveal_strlit("writable");
    reveal_strlit("context");
    reveal_strlit("previous");
    reveal_strlit("checks");
    reveal_strlit("base_commit");
    reveal_strlit("base_tree");
    reveal_strlit("max_attempts");
    reveal_strlit("seed");
    assert("text"@.len() == 4);
    assert("writable"@.len() == 8);
    assert("context"@.len() == 7);
    assert("previous"@.len() == 8);
    assert("checks"@.len() == 6);
    assert("base_commit"@.len() == 11);
    assert("base_tree"@.len() == 9);
    assert("max_attempts"@.len() == 12);
    assert("seed"@.len() == 4);
    assert("text"@[0] != "seed"@[0]);
    assert("writable"@[0] != "previous"@[0]);
    law_a_list_of_checks_carries_each(checks);
    assert(p.field("checks"@) == Some(check_trees(checks)));
    assert(p.field("context"@)->0.items() == context.map_values(|s: ShownView| shown_tree(s)));
    assert forall|i: int| 0 <= i < context.len() implies {
        let t = #[trigger] p.field("context"@)->0.items()[i];
        &&& t.field("path"@) == Some(Tree::Text(context[i].path))
        &&& t.field("content"@) == Some(Tree::Text(context[i].content))
    } by {
        law_a_shown_file_is_carried_whole(context[i]);
        assert(p.field("context"@)->0.items()[i] == shown_tree(context[i]));
    }
}

/// A shown file in a plan is its path and its content, each under its own name.
pub proof fn law_a_shown_file_is_carried_whole(s: ShownView)
    ensures
        shown_tree(s).field("path"@) == Some(Tree::Text(s.path)),
        shown_tree(s).field("content"@) == Some(Tree::Text(s.content)),
{
    reveal_with_fuel(entry_from, 3);
    reveal_strlit("path");
    reveal_strlit("content");
    assert("path"@.len() == 4);
    assert("content"@.len() == 7);
}

/// The plan that a branch, or a part, runs from.
pub fn plan(
    goal_text: &str,
    writable: &Vec<String>,
    context: &Vec<Shown>,
    checks: &Vec<CheckSpec>,
    base_commit: &str,
    max_attempts: u32,
) -> (j: Json)
    ensures
        j@ == plan_tree(
            goal_text@,
            strs(writable@),
            shown_views(context@),
            checks@,
            base_commit@,
            max_attempts,
        ),
        j@.field("text"@) == Some(Tree::Text(goal_text@)),
        j@.field("writable"@) == Some(Tree::List(text_trees(strs(writable@)))),
        j@.field("context"@) is Some,
        j@.field("context"@)->0.items().len() == context@.len(),
        forall|i: int|
            0 <= i < context@.len() ==> {
                let t = #[trigger] j@.field("context"@)->0.items()[i];
                &&& t.field("path"@) == Some(Tree::Text(context@[i].path@))
                &&& t.field("content"@) == Some(Tree::Text(context@[i].content@))
            },
        j@.field("previous"@) is Some,
        j@.field("previous"@)->0.items().len() == 0,
        j@.field("checks"@) is Some,
        j@.field("checks"@)->0.items().len() == checks@.len(),
        forall|i: int|
            0 <= i < checks@.len() ==> {
                let t = #[trigger] j@.field("checks"@)->0.items()[i];
                &&& t.field("id"@) == Some(Tree::Text(checks@[i].id@))
                &&& t.field("required"@) == Some(Tree::Bool(checks@[i].required))
                &&& t.field("weight"@) == Some(Tree::Unsigned(checks@[i].weight as u64))
                &&& t.field("command"@) == Some(Tree::List(text_trees(strs(checks@[i].command@))))
                &&& t.field("needs"@) == Some(Tree::List(text_trees(strs(checks@[i].needs@))))
            },
        j@.field("base_commit"@) == Some(Tree::Text(base_commit@)),
        j@.field("base_tree"@) is Some,
        j@.field("base_tree"@)->0.items().len() == 0,
        j@.field("max_attempts"@) == Some(Tree::Unsigned(max_attempts as u64)),
        j@.field("seed"@) == Some(Tree::Unsigned(1)),
{
    let nothing: Vec<Json> = Vec::new();
    let none = list(nothing);
    assert(trees(nothing@) =~= Seq::<Tree>::empty());
    let more: Vec<Json> = Vec::new();
    let empty = list(more);
    assert(trees(more@) =~= Seq::<Tree>::empty());
    let mut es = no_entries();
    put(&mut es, "text", text(goal_text));
    put(&mut es, "writable", texts(writable));
    put(&mut es, "context", shown_json(context));
    put(&mut es, "previous", none);
    put(&mut es, "checks", checks_json(checks));
    put(&mut es, "base_commit", text(base_commit));
    put(&mut es, "base_tree", empty);
    put(&mut es, "max_attempts", Json::Unsigned(max_attempts as u64));
    put(&mut es, "seed", Json::Unsigned(1));
    assert(entry_trees(es@) =~= plan_tree(
        goal_text@,
        strs(writable@),
        shown_views(context@),
        checks@,
        base_commit@,
        max_attempts,
    )->Object_0);
    proof {
        law_a_plan_holds_what_it_was_given(
            goal_text@,
            strs(writable@),
            shown_views(context@),
            checks@,
            base_commit@,
            max_attempts,
        );
        assert forall|i: int| 0 <= i < context@.len() implies (
        #[trigger] shown_views(context@)[i]).path == context@[i].path@ && shown_views(context@)[i].content
            == context@[i].content@ by {}
    }
    object(es)
}

/// The plan of the free round trip that proves the rig: nothing may be attempted.
pub fn smoke_plan(goal: &GoalSpec, context: &Vec<Shown>, base_commit: &str) -> (j: Json)
    ensures
        j@ == plan_tree(
            goal.text@,
            strs(goal.writable@),
            shown_views(context@),
            goal.checks@,
            base_commit@,
            0,
        ),
{
    plan(goal.text.as_str(), &goal.writable, context, &goal.checks, base_commit, 0)
}

fn push_checks(items: &mut Vec<Json>, cs: &Vec<CheckSpec>)
    ensures
        trees(final(items)@) == trees(old(items)@) + cs@.map_values(|c: CheckSpec| check_tree(c)),
{
    let ghost first = trees(items@);
    let ghost want = cs@.map_values(|c: CheckSpec| check_tree(c));
    let mut i: usize = 0;
    assert(first + want.take(0) =~= first);
    while i < cs.len()
        invariant
            i <= cs.len(),
            want == cs@.map_values(|c: CheckSpec| check_tree(c)),
            trees(items@) == first + want.take(i as int),
        decreases cs.len() - i,
    {
        let j = check_json(&cs[i]);
        let ghost o = items@;
        items.push(j);
        assert(trees(items@) =~= trees(o).push(j@));
        assert(first + want.take(i + 1) =~= (first + want.take(i as int)).push(want[i as int]));
        i = i + 1;
    }
    assert(want.take(i as int) =~= want);
}

/// Every check of a goal and of its parts, as the critic is handed them.
pub fn every_check(goal: &GoalSpec) -> (j: Json)
    ensures
        j@ == check_trees(goal.every_check()),
{
    let mut items: Vec<Json> = Vec::new();
    assert(trees(items@) =~= Seq::<Tree>::empty());
    push_checks(&mut items, &goal.checks);
    let mut i: usize = 0;
    let ghost f = |c: CheckSpec| check_tree(c);
    assert(checks_from(goal.checks@, goal.parts@.take(0)) =~= goal.checks@);
    assert(trees(items@) =~= checks_from(goal.checks@, goal.parts@.take(0)).map_values(f));
    while i < goal.parts.len()
        invariant
            i <= goal.parts.len(),
            f == (|c: CheckSpec| check_tree(c)),
            trees(items@) == checks_from(goal.checks@, goal.parts@.take(i as int)).map_values(f),
        decreases goal.parts.len() - i,
    {
        push_checks(&mut items, &goal.parts[i].checks);
        proof {
            assert(goal.parts@.take(i + 1).drop_last() =~= goal.parts@.take(i as int));
            let a = checks_from(goal.checks@, goal.parts@.take(i as int));
            let b = goal.parts@[i as int].checks@;
            assert((a + b).map_values(f) =~= a.map_values(f) + b.map_values(f));
        }
        i = i + 1;
    }
    assert(goal.parts@.take(i as int) =~= goal.parts@);
    list(items)
}

// --------------------------------------------------------------- the header --

/// The texts between quotes, in brackets.
pub open spec fn listed_of(v: Seq<Seq<char>>) -> Seq<char> {
    "["@ + join_of(v.map_values(|t: Seq<char>| debug_of(t)), ", "@) + "]"@
}

fn listed(v: &Vec<String>) -> (out: String)
    ensures
        out@ == listed_of(strs(v@)),
{
    let ghost want = strs(v@).map_values(|t: Seq<char>| debug_of(t));
    let mut items: Vec<String> = Vec::new();
    let mut i: usize = 0;
    assert(strs(items@) =~= want.take(0));
    while i < v.len()
        invariant
            i <= v.len(),
            want == strs(v@).map_values(|t: Seq<char>| debug_of(t)),
            strs(items@) == want.take(i as int),
        decreases v.len() - i,
    {
        let t = debug(v[i].as_str());
        let ghost o = items@;
        items.push(t);
        assert(strs(items@) =~= strs(o).push(t@));
        assert(want.take(i + 1) =~= want.take(i as int).push(want[i as int]));
        i = i + 1;
    }
    assert(want.take(i as int) =~= want);
    "[".to_string().concat(join(&items, ", ").as_str()).concat("]")
}

/// What is said of the commands that checks may run. A runner that somebody else started
/// has a list of its own, so that is said differently.
pub open spec fn allowance_of(allow: Seq<Seq<char>>, remote: Option<Seq<char>>) -> Seq<char> {
    match remote {
        None => "gate allows: "@ + listed_of(allow),
        Some(u) => "gate needs: "@ + listed_of(allow) + " — and this run does not set that: "@ + u
            + " was started by somebody else, with its own --allow"@,
    }
}

/// What is said of the commands that checks may run.
pub fn allowance(allow: &Vec<String>, remote: Option<&String>) -> (out: String)
    ensures
        out@ == allowance_of(
            strs(allow@),
            match remote {
                Some(u) => Some(u@),
                None => None,
            },
        ),
{
    match remote {
        None => "gate allows: ".to_string().concat(listed(allow).as_str()),
        Some(u) => "gate needs: ".to_string().concat(listed(allow).as_str()).concat(
            " — and this run does not set that: ",
        ).concat(u.as_str()).concat(" was started by somebody else, with its own --allow"),
    }
}

/// What is said of the host that checks run: one that is not there fails like bad work.
pub fn host_line(path: &str, found: bool) -> (out: String)
    ensures
        out@ == "gate host:   "@ + path@ + " ("@ + (if found {
            "found"@
        } else {
            "MISSING — every check that runs the app will fail"@
        }) + ")"@,
{
    let word = if found {
        "found"
    } else {
        "MISSING — every check that runs the app will fail"
    };
    "gate host:   ".to_string().concat(path).concat(" (").concat(word).concat(")")
}

// ------------------------------------------------------------ the branches --

/// What one branch of one generation came to.
#[derive(Debug, PartialEq, Eq)]
pub struct Entry {
    pub branch: String,
    pub accepted: bool,
    pub score: u64,
    pub spent_tokens: u64,
    pub attempts: u64,
    /// How many files the branch left.
    pub files: usize,
    pub note: String,
}

/// What is said of a branch of generation `r`.
pub open spec fn branch_line_of(r: nat, e: Entry) -> Seq<char> {
    "  gen "@ + dec_of(r) + " "@ + pad_end_of(e.branch@, 9) + " accepted="@ + pad_end_of(
        if e.accepted {
            "true"@
        } else {
            "false"@
        },
        5,
    ) + " score="@ + pad_end_of(dec_of(e.score as nat), 5) + " attempts="@ + dec_of(
        e.attempts as nat,
    ) + " tokens="@ + dec_of(e.spent_tokens as nat) + " "@ + (if e.note@.len() == 0 {
        ""@
    } else {
        "["@ + e.note@ + "]"@
    })
}

/// What is said of a branch of generation `r`.
pub fn branch_line(r: u64, e: &Entry) -> (out: String)
    ensures
        out@ == branch_line_of(r as nat, *e),
{
    let word = if e.accepted {
        "true"
    } else {
        "false"
    };
    let note = if e.note.as_str().is_empty() {
        "".to_string()
    } else {
        "[".to_string().concat(e.note.as_str()).concat("]")
    };
    "  gen ".to_string().concat(dec(r).as_str()).concat(" ").concat(
        pad_end(e.branch.as_str(), 9).as_str(),
    ).concat(" accepted=").concat(pad_end(word, 5).as_str()).concat(" score=").concat(
        pad_end(dec(e.score).as_str(), 5).as_str(),
    ).concat(" attempts=").concat(dec(e.attempts).as_str()).concat(" tokens=").concat(
        dec(e.spent_tokens).as_str(),
    ).concat(" ").concat(note.as_str())
}

/// What is said of the verdicts that the pool took.
pub fn recorded_line(recorded: usize, total: usize) -> (out: String)
    ensures
        out@ == "knowledge: "@ + dec_of(recorded as nat) + "/"@ + dec_of(total as nat)
            + " verdicts recorded — a later run asking for this goal \n               will see them"@,
{
    "knowledge: ".to_string().concat(dec(recorded as u64).as_str()).concat("/").concat(
        dec(total as u64).as_str(),
    ).concat(" verdicts recorded — a later run asking for this goal \n               will see them")
}

/// What is told where no branch passed, with the score of the best.
pub fn nothing_passed(best: Option<u64>) -> (out: String)
    ensures
        out@ == "\nNothing passed the"@ + " gate (best score "@ + dec_of(
            match best {
                Some(s) => s as nat,
                None => 0,
            },
        ) + "). No PR opened."@,
{
    let score: u64 = match best {
        Some(s) => s,
        None => 0,
    };
    "\nNothing passed the".to_string().concat(" gate (best score ").concat(
        dec(score).as_str(),
    ).concat("). No PR opened.")
}

/// Entry `w` wins: it was accepted, no accepted entry scores higher, and none
/// before it scores as high.
pub open spec fn wins(es: Seq<Entry>, w: int) -> bool {
    &&& 0 <= w < es.len()
    &&& es[w].accepted
    &&& forall|i: int| 0 <= i < es.len() && #[trigger] es[i].accepted ==> es[i].score <= es[w].score
    &&& forall|i: int| 0 <= i < w && #[trigger] es[i].accepted ==> es[i].score < es[w].score
}

/// The accepted entry with the highest score, the earliest of equals.
pub fn winner(es: &Vec<Entry>) -> (r: Option<usize>)
    ensures
        r matches Some(w) ==> wins(es@, w as int),
        r is None <==> forall|i: int| 0 <= i < es.len() ==> !(#[trigger] es[i]).accepted,
{
    let mut best: Option<usize> = None;
    let mut i: usize = 0;
    while i < es.len()
        invariant
            i <= es.len(),
            best matches Some(w) ==> w < i && wins(es@.take(i as int), w as int),
            best is None ==> forall|k: int| 0 <= k < i ==> !(#[trigger] es[k]).accepted,
        decreases es.len() - i,
    {
        let ghost before = es@.take(i as int);
        let ghost after = es@.take(i + 1);
        let better = match best {
            Some(w) => es[i].accepted && es[i].score > es[w].score,
            None => es[i].accepted,
        };
        assert forall|k: int| 0 <= k < i implies before[k] == #[trigger] after[k] by {}
        if better {
            best = Some(i);
        }
        proof {
            match best {
                Some(w) => {
                    assert(after[w as int] == es[w as int]);
                    assert forall|k: int| 0 <= k < after.len() && #[trigger] after[k].accepted implies after[k].score
                        <= after[w as int].score by {
                        if k < i {
                            assert(before[k] == es[k]);
                        }
                    }
                    assert forall|k: int| 0 <= k < w && #[trigger] after[k].accepted implies after[k].score
                        < after[w as int].score by {
                        assert(before[k] == es[k]);
                    }
                },
                None => {},
            }
        }
        i = i + 1;
    }
    assert(es@.take(i as int) =~= es@);
    best
}

/// What an attempt is recorded as.
pub fn attempt_outcome(accepted: bool) -> (r: &'static str)
    ensures
        r@ == if accepted {
            "passed"@
        } else {
            "failed"@
        },
{
    if accepted {
        "passed"
    } else {
        "failed"
    }
}

/// The number behind the last dash of a branch's name.
pub open spec fn branch_number(branch: Seq<char>) -> Option<int> {
    match rsplit_once_of(branch, '-') {
        Some(p) => number_of(p.1, 10),
        None => number_of(branch, 10),
    }
}

/// Which branch a name numbers.
pub fn branch_index(branch: &str) -> (r: Option<u64>)
    ensures
        r matches Some(n) ==> branch_number(branch@) == Some(n as int),
        r is None ==> (branch_number(branch@) matches Some(n) ==> n > u64::MAX),
{
    match rsplit_once(branch, '-') {
        Some(p) => parse_u64(p.1.as_str()),
        None => parse_u64(branch),
    }
}

/// A branch that never ran: it carries a note, or it spent nothing and was not
/// accepted.
pub open spec fn silent(e: Entry) -> bool {
    e.note@.len() > 0 || (e.spent_tokens == 0 && !e.accepted)
}

/// Does any branch want the logs to explain it?
pub fn wants_logs(es: &Vec<Entry>) -> (r: bool)
    ensures
        r <==> exists|i: int| 0 <= i < es.len() && silent(#[trigger] es[i]),
{
    let mut i: usize = 0;
    while i < es.len()
        invariant
            i <= es.len(),
            forall|k: int| 0 <= k < i ==> !silent(#[trigger] es[k]),
        decreases es.len() - i,
    {
        if !es[i].note.as_str().is_empty() || (es[i].spent_tokens == 0 && !es[i].accepted) {
            assert(silent(es[i as int]));
            return true;
        }
        i = i + 1;
    }
    false
}

/// The last `n` of the parts, or all of them.
pub open spec fn last_of<T>(s: Seq<T>, n: nat) -> Seq<T> {
    if s.len() <= n {
        s
    } else {
        s.skip(s.len() - n)
    }
}

/// The last `n` texts.
pub fn last_texts(v: &Vec<String>, n: usize) -> (out: Vec<String>)
    ensures
        strs(out@) == last_of(strs(v@), n as nat),
{
    let start: usize = if v.len() <= n {
        0
    } else {
        v.len() - n
    };
    let ghost vs = strs(v@);
    let mut out: Vec<String> = Vec::new();
    let mut i: usize = start;
    assert(strs(out@) =~= vs.subrange(start as int, start as int));
    while i < v.len()
        invariant
            start <= i <= v.len(),
            vs == strs(v@),
            strs(out@) == vs.subrange(start as int, i as int),
        decreases v.len() - i,
    {
        let t = v[i].clone();
        let ghost o = out@;
        out.push(t);
        proof {
            assert(strs(out@) =~= strs(o).push(t@));
            assert(vs.subrange(start as int, i + 1) =~= vs.subrange(start as int, i as int).push(
                t@,
            ));
        }
        i = i + 1;
    }
    assert(vs.subrange(start as int, i as int) =~= last_of(vs, n as nat));
    out
}

/// The last `n` lines of the log of `what`, under a heading.
pub fn log_tail(what: &str, s: &str, n: usize) -> (out: String)
    ensures
        out@ == "\n===== "@ + what@ + " (last "@ + dec_of(n as nat) + " lines) =====\n"@ + join_of(
            last_of(lines_of(s@), n as nat),
            "\n"@,
        ),
{
    let all = lines(s);
    let kept = last_texts(&all, n);
    "\n===== ".to_string().concat(what).concat(" (last ").concat(dec(n as u64).as_str()).concat(
        " lines) =====\n",
    ).concat(join(&kept, "\n").as_str())
}

/// What is said of a run before it begins.
pub struct Header<'a> {
    pub text: &'a str,
    pub repo: &'a str,
    pub base: &'a str,
    pub branches: u16,
    pub rounds: u16,
    pub model: &'a str,
}

/// What is said of a run before it begins: its goal's first line, and how it is run.
pub open spec fn header_of(h: Header) -> Seq<char> {
    "goal: "@ + (if lines_of(h.text@).len() > 0 {
        lines_of(h.text@)[0]
    } else {
        Seq::empty()
    }) + "\nrepo: "@ + h.repo@ + "  base: "@ + h.base@ + "  branches: "@ + dec_of(h.branches as nat)
        + "  rounds: "@ + dec_of(h.rounds as nat) + "  model: "@ + h.model@
}

/// What is said of a run before it begins.
pub fn header(h: &Header) -> (out: String)
    ensures
        out@ == header_of(*h),
{
    let all = lines(h.text);
    let first = if all.len() > 0 {
        assert(all@[0]@ == strs(all@)[0]);
        all[0].clone()
    } else {
        String::new()
    };
    assert(first@ =~= if lines_of(h.text@).len() > 0 {
        lines_of(h.text@)[0]
    } else {
        Seq::empty()
    });
    "goal: ".to_string().concat(first.as_str()).concat("\nrepo: ").concat(h.repo).concat(
        "  base: ",
    ).concat(h.base).concat("  branches: ").concat(dec(h.branches as u64).as_str()).concat(
        "  rounds: ",
    ).concat(dec(h.rounds as u64).as_str()).concat("  model: ").concat(h.model)
}

/// What is said once the runner of checks holds the base tree.
pub open spec fn seeded_base_of(commit: Seq<char>, files: nat) -> Seq<char> {
    "gate: base "@ + (if commit.len() > 8 {
        commit.take(8)
    } else {
        commit
    }) + " seeded ("@ + dec_of(files) + " files)"@
}

/// What is said once the runner of checks holds the base tree, with the short form of its
/// commit.
pub fn seeded_base(commit: &str, files: usize) -> (out: String)
    requires
        ascii(commit@),
    ensures
        out@ == seeded_base_of(commit@, files as nat),
{
    let cs = chars_of(commit);
    let n: usize = if cs.len() > 8 {
        8
    } else {
        cs.len()
    };
    let short = slice_text(&cs, 0, n);
    assert(short@ =~= if commit@.len() > 8 {
        commit@.take(8)
    } else {
        commit@
    });
    "gate: base ".to_string().concat(short.as_str()).concat(" seeded (").concat(
        dec(files as u64).as_str(),
    ).concat(" files)")
}

/// What a dry run says of what passed: the winner of a search with its score, or the join of
/// parts; where it was written, or that it is lost.
pub open spec fn dry_run_of(
    searched: Option<u64>,
    written: Result<Seq<char>, Seq<char>>,
) -> Seq<char> {
    match searched {
        Some(score) => "\n[dry run] a candidate passed (score "@ + dec_of(score as nat)
            + "); not opening a PR.\n"@ + match written {
            Ok(dir) => "  the winning files are in "@ + dir + "\n  apply:   rsync -a "@ + dir
                + "/ .\n  inspect: diff -ru . "@ + dir + " | head -n 100"@,
            Err(e) => "  WARNING: the winner could not be written out ("@ + e + ") — it is lost"@,
        },
        None => "\n[dry run] the join passed; not opening a PR.\n"@ + match written {
            Ok(dir) => "  the joined tree is in "@ + dir + "\n  apply: rsync -a "@ + dir + "/ ."@,
            Err(e) => "  WARNING: the joined tree could not be written out ("@ + e
                + ") — it is lost"@,
        },
    }
}

/// What a dry run says of what passed.
pub fn dry_run(searched: Option<u64>, written: &Result<String, String>) -> (out: String)
    ensures
        out@ == dry_run_of(
            searched,
            match *written {
                Ok(d) => Ok(d@),
                Err(e) => Err(e@),
            },
        ),
{
    match searched {
        Some(score) => {
            let said = match written {
                Ok(dir) => "  the winning files are in ".to_string().concat(dir.as_str()).concat(
                    "\n  apply:   rsync -a ",
                ).concat(dir.as_str()).concat("/ .\n  inspect: diff -ru . ").concat(
                    dir.as_str(),
                ).concat(" | head -n 100"),
                Err(e) => "  WARNING: the winner could not be written out (".to_string().concat(
                    e.as_str(),
                ).concat(") — it is lost"),
            };
            "\n[dry run] a candidate passed (score ".to_string().concat(dec(score).as_str()).concat(
                "); not opening a PR.\n",
            ).concat(said.as_str())
        },
        None => {
            let said = match written {
                Ok(dir) => "  the joined tree is in ".to_string().concat(dir.as_str()).concat(
                    "\n  apply: rsync -a ",
                ).concat(dir.as_str()).concat("/ ."),
                Err(e) => "  WARNING: the joined tree could not be written out (".to_string().concat(
                    e.as_str(),
                ).concat(") — it is lost"),
            };
            "\n[dry run] the join passed; not opening a PR.\n".to_string().concat(said.as_str())
        },
    }
}

/// What is said where the runner of checks did not take the base tree.
pub fn unseeded(why: &str) -> (out: String)
    ensures
        out@ == "could not give the"@ + " gate runner the base tree: "@ + why@
            + "\n\nNothing was spent. Every branch would have failed identically, because the plan carries the commit and the runner is what holds the bytes."@,
{
    "could not give the".to_string().concat(" gate runner the base tree: ").concat(why).concat(
        "\n\nNothing was spent. Every branch would have failed identically, because the plan carries the commit and the runner is what holds the bytes.",
    )
}

// -------------------------------------------------------------- the landing --

/// The title of the pull request: the goal's own, or its first line, or `otherwise`
/// where it has none.
pub open spec fn title_of(goal: GoalSpec, otherwise: Seq<char>) -> Seq<char> {
    match goal.title {
        Some(t) => t@,
        None => if lines_of(goal.text@).len() > 0 {
            lines_of(goal.text@)[0]
        } else {
            otherwise
        },
    }
}

/// The title of the pull request.
pub fn title(goal: &GoalSpec, otherwise: &str) -> (out: String)
    ensures
        out@ == title_of(*goal, otherwise@),
{
    match &goal.title {
        Some(t) => t.clone(),
        None => {
            let all = lines(goal.text.as_str());
            if all.len() > 0 {
                assert(strs(all@)[0] == all[0]@);
                all[0].clone()
            } else {
                otherwise.to_string()
            }
        },
    }
}

/// What the forge is asked to open.
pub open spec fn landing_tree(
    branch: Seq<char>,
    base: Seq<char>,
    title: Seq<char>,
    body: Seq<char>,
) -> Tree {
    Tree::Object(
        seq![
            ("branch"@, Tree::Text(branch)),
            ("base"@, Tree::Text(base)),
            ("title"@, Tree::Text(title)),
            ("body"@, Tree::Text(body)),
            ("message"@, Tree::Text(title)),
        ],
    )
}

/// What the forge is asked to open names the branch, the base, the title and the body, each
/// as its own, and commits under the title.
pub proof fn law_the_forge_is_asked_for_what_was_given(
    branch: Seq<char>,
    base: Seq<char>,
    title: Seq<char>,
    body: Seq<char>,
)
    ensures
        landing_tree(branch, base, title, body).field("branch"@) == Some(Tree::Text(branch)),
        landing_tree(branch, base, title, body).field("base"@) == Some(Tree::Text(base)),
        landing_tree(branch, base, title, body).field("title"@) == Some(Tree::Text(title)),
        landing_tree(branch, base, title, body).field("body"@) == Some(Tree::Text(body)),
        landing_tree(branch, base, title, body).field("message"@) == Some(Tree::Text(title)),
{
    reveal_with_fuel(entry_from, 6);
    reveal_strlit("branch");
    reveal_strlit("base");
    reveal_strlit("title");
    reveal_strlit("body");
    reveal_strlit("message");
    assert("branch"@.len() == 6);
    assert("base"@.len() == 4);
    assert("title"@.len() == 5);
    assert("body"@.len() == 4);
    assert("message"@.len() == 7);
    assert("base"@[1] != "body"@[1]);
}

/// What the forge is asked to open; the commit message is the title.
pub fn landing_json(branch: &str, base: &str, title: &str, body: &str) -> (j: Json)
    ensures
        j@ == landing_tree(branch@, base@, title@, body@),
        j@.field("branch"@) == Some(Tree::Text(branch@)),
        j@.field("base"@) == Some(Tree::Text(base@)),
        j@.field("title"@) == Some(Tree::Text(title@)),
        j@.field("body"@) == Some(Tree::Text(body@)),
        j@.field("message"@) == Some(Tree::Text(title@)),
{
    proof {
        law_the_forge_is_asked_for_what_was_given(branch@, base@, title@, body@);
    }
    let mut es = no_entries();
    put(&mut es, "branch", text(branch));
    put(&mut es, "base", text(base));
    put(&mut es, "title", text(title));
    put(&mut es, "body", text(body));
    put(&mut es, "message", text(title));
    assert(entry_trees(es@) =~= landing_tree(branch@, base@, title@, body@)->Object_0);
    object(es)
}

/// The body of an ordinary run's pull request.
pub open spec fn body_of(explored: nat, goal_text: Seq<char>) -> Seq<char> {
    "Automated candidate from a graph-engineering run.\n\n"@ + dec_of(explored)
        + " branch(es) explored this goal; the winner passed the"@ + " gate.\n\nGoal:\n\n"@
        + goal_text + "\n"@
}

/// What lands an ordinary run's winner. Each run has a branch of its own.
pub fn landing(goal: &GoalSpec, base: &str, seed: u64, explored: usize) -> (j: Json)
    ensures
        j@ == landing_tree(
            "graph/"@ + dec_of(seed as nat),
            base@,
            title_of(*goal, "a candidate"@),
            body_of(explored as nat, goal.text@),
        ),
{
    let t = title(goal, "a candidate");
    let s = dec(seed);
    let branch = "graph/".to_string().concat(s.as_str());
    let n = dec(explored as u64);
    let body = "Automated candidate from a graph-engineering run.\n\n".to_string().concat(
        n.as_str(),
    ).concat(" branch(es) explored this goal; the winner passed the").concat(
        " gate.\n\nGoal:\n\n",
    ).concat(goal.text.as_str()).concat("\n");
    landing_json(branch.as_str(), base, t.as_str(), body.as_str())
}

// --------------------------------------------------------------------- laws --

/// Shipping a tree keeps every file and its path. What a file holds is kept too, unless it is
/// the workspace's manifest and the goal names the members to keep.
pub proof fn law_shipping_touches_the_manifest_alone(tree: Seq<ShownView>, goal: GoalSpec, i: int)
    requires
        0 <= i < tree.len(),
    ensures
        shipped(tree, goal).len() == tree.len(),
        shipped(tree, goal)[i].path == tree[i].path,
        goal.workspace_manifest is None || goal.keep_members@.len() == 0
            || goal.workspace_manifest->0@ != tree[i].path ==> shipped(tree, goal)[i] == tree[i],
        goal.workspace_manifest is Some && goal.keep_members@.len() > 0
            && goal.workspace_manifest->0@ == tree[i].path ==> shipped(tree, goal)[i].content
            == trimmed(tree[i].content, strs(goal.keep_members@)),
{
}

/// The commands that a runner must allow are exactly those that some check starts with.
pub proof fn law_the_tools_are_those_of_the_checks(cs: Seq<CheckSpec>, t: Seq<char>)
    ensures
        tools_of(cs).contains(t) <==> exists|i: int|
            0 <= i < cs.len() && (#[trigger] cs[i]).command@.len() > 0 && cs[i].command@[0]@ == t,
    decreases cs.len(),
{
    if cs.len() > 0 {
        let p = cs.drop_last();
        law_the_tools_are_those_of_the_checks(p, t);
        let (earlier, now) = (tools_of(p), tools_of(cs));
        if earlier.contains(t) {
            let k = choose|k: int| 0 <= k < earlier.len() && earlier[k] == t;
            assert(now[k] == t);
            let i = choose|i: int|
                0 <= i < p.len() && (#[trigger] p[i]).command@.len() > 0 && p[i].command@[0]@ == t;
            assert(cs[i].command@.len() > 0 && cs[i].command@[0]@ == t);
        }
        assert(cs[cs.len() - 1] == cs.last());
        if cs.last().command@.len() > 0 && cs.last().command@[0]@ == t {
            assert(now[earlier.len() as int] == t);
        }
        if exists|i: int|
            0 <= i < cs.len() && (#[trigger] cs[i]).command@.len() > 0 && cs[i].command@[0]@ == t {
            let i = choose|i: int|
                0 <= i < cs.len() && (#[trigger] cs[i]).command@.len() > 0 && cs[i].command@[0]@
                    == t;
            if i < p.len() {
                assert(p[i].command@.len() > 0 && p[i].command@[0]@ == t);
            }
        }
        if now.contains(t) && !earlier.contains(t) {
            let k = choose|k: int| 0 <= k < now.len() && now[k] == t;
            if k < earlier.len() {
                assert(earlier[k] == t);
            }
        }
    }
}

/// A pull request is titled as the goal says, else by the goal's first line.
pub proof fn law_what_a_pull_request_is_called(goal: GoalSpec, otherwise: Seq<char>)
    ensures
        goal.title is Some ==> title_of(goal, otherwise) == goal.title->0@,
        goal.title is None && lines_of(goal.text@).len() > 0 ==> title_of(goal, otherwise)
            == lines_of(goal.text@)[0],
        goal.title is None && lines_of(goal.text@).len() == 0 ==> title_of(goal, otherwise)
            == otherwise,
{
}

/// The last lines are the last ones: as many as were asked for, or all there are, and each is
/// as far from the end as it was.
pub proof fn law_the_last_are_the_last<T>(s: Seq<T>, n: nat, k: int)
    ensures
        last_of(s, n).len() == (if s.len() < n {
            s.len()
        } else {
            n
        }),
        0 <= k < last_of(s, n).len() ==> last_of(s, n)[last_of(s, n).len() - 1 - k] == s[s.len() - 1
            - k],
{
}

/// A warning comes exactly where the time cannot hold the attempts: two and a half minutes
/// each, and half a minute more.
pub proof fn law_when_the_time_is_too_short(timeout: u64, attempts: u32)
    ensures
        timeout_warning(timeout, attempts) is Some <==> timeout < 150 * attempts + 30,
{
}

/// A branch is silent where it left a note, or where it spent nothing and was not accepted.
pub proof fn law_who_was_silent(e: Entry)
    ensures
        silent(e) <==> e.note@.len() != 0 || !(e.accepted || e.spent_tokens > 0),
{
}

/// There is at most one winner among the branches.
pub proof fn law_one_winner(es: Seq<Entry>, a: int, b: int)
    requires
        wins(es, a),
        wins(es, b),
    ensures
        a == b,
        forall|i: int|
            0 <= i < es.len() && (#[trigger] es[i]).accepted ==> es[i].score < es[a].score || (
            es[i].score == es[a].score && a <= i),
{
    assert(es[a].accepted && es[b].accepted);
}

/// What is told of a branch: its generation and its name, its score, how often it was tried, and
/// what it spent.
pub proof fn law_a_branch_is_told_by_its_numbers(r: nat, e: Entry)
    ensures
        holds(branch_line_of(r, e), "  gen "@ + dec_of(r) + " "@ + pad_end_of(e.branch@, 9)),
        holds(branch_line_of(r, e), " accepted="@ + pad_end_of(
        if e.accepted {
            "true"@
        } else {
            "false"@
        },
        5,
    )),
        holds(branch_line_of(r, e), " score="@ + pad_end_of(dec_of(e.score as nat), 5)),
        holds(branch_line_of(r, e), " attempts="@ + dec_of(e.attempts as nat)),
        holds(branch_line_of(r, e), " tokens="@ + dec_of(e.spent_tokens as nat)),
        holds(branch_line_of(r, e), " "@ + (if e.note@.len() == 0 {
        ""@
    } else {
        "["@ + e.note@ + "]"@
    })),
{
    let c0 = "  gen "@;
    let c1 = dec_of(r);
    let c2 = " "@;
    let c3 = pad_end_of(e.branch@, 9);
    let c4 = " accepted="@;
    let c5 = pad_end_of(
        if e.accepted {
            "true"@
        } else {
            "false"@
        },
        5,
    );
    let c6 = " score="@;
    let c7 = pad_end_of(dec_of(e.score as nat), 5);
    let c8 = " attempts="@;
    let c9 = dec_of(e.attempts as nat);
    let c10 = " tokens="@;
    let c11 = dec_of(e.spent_tokens as nat);
    let c12 = " "@;
    let c13 = (if e.note@.len() == 0 {
        ""@
    } else {
        "["@ + e.note@ + "]"@
    });
    let s0 = c0;
    let s1 = s0 + c1;
    let s2 = s1 + c2;
    let s3 = s2 + c3;
    let s4 = s3 + c4;
    let s5 = s4 + c5;
    let s6 = s5 + c6;
    let s7 = s6 + c7;
    let s8 = s7 + c8;
    let s9 = s8 + c9;
    let s10 = s9 + c10;
    let s11 = s10 + c11;
    let s12 = s11 + c12;
    let s13 = s12 + c13;
    lemma_holds_itself(s3);
    lemma_holds_longer(s3, s3, c4);
    lemma_holds_longer(s4, s3, c5);
    lemma_holds_longer(s5, s3, c6);
    lemma_holds_longer(s6, s3, c7);
    lemma_holds_longer(s7, s3, c8);
    lemma_holds_longer(s8, s3, c9);
    lemma_holds_longer(s9, s3, c10);
    lemma_holds_longer(s10, s3, c11);
    lemma_holds_longer(s11, s3, c12);
    lemma_holds_longer(s12, s3, c13);
    lemma_assoc(s3, c4, c5);
    lemma_holds_end(s3, c4 + c5);
    lemma_holds_longer(s5, c4 + c5, c6);
    lemma_holds_longer(s6, c4 + c5, c7);
    lemma_holds_longer(s7, c4 + c5, c8);
    lemma_holds_longer(s8, c4 + c5, c9);
    lemma_holds_longer(s9, c4 + c5, c10);
    lemma_holds_longer(s10, c4 + c5, c11);
    lemma_holds_longer(s11, c4 + c5, c12);
    lemma_holds_longer(s12, c4 + c5, c13);
    lemma_assoc(s5, c6, c7);
    lemma_holds_end(s5, c6 + c7);
    lemma_holds_longer(s7, c6 + c7, c8);
    lemma_holds_longer(s8, c6 + c7, c9);
    lemma_holds_longer(s9, c6 + c7, c10);
    lemma_holds_longer(s10, c6 + c7, c11);
    lemma_holds_longer(s11, c6 + c7, c12);
    lemma_holds_longer(s12, c6 + c7, c13);
    lemma_assoc(s7, c8, c9);
    lemma_holds_end(s7, c8 + c9);
    lemma_holds_longer(s9, c8 + c9, c10);
    lemma_holds_longer(s10, c8 + c9, c11);
    lemma_holds_longer(s11, c8 + c9, c12);
    lemma_holds_longer(s12, c8 + c9, c13);
    lemma_assoc(s9, c10, c11);
    lemma_holds_end(s9, c10 + c11);
    lemma_holds_longer(s11, c10 + c11, c12);
    lemma_holds_longer(s12, c10 + c11, c13);
    lemma_assoc(s11, c12, c13);
    lemma_holds_end(s11, c12 + c13);
}

/// The body of a pull request tells how many branches explored the goal, and carries the goal.
pub proof fn law_a_pull_request_carries_its_goal(explored: nat, goal_text: Seq<char>)
    ensures
        holds(body_of(explored, goal_text), "Automated candidate from a graph-engineering run.\n\n"@ + dec_of(explored) + " branch(es) explored this goal; the winner passed the"@),
        holds(body_of(explored, goal_text), " gate.\n\nGoal:\n\n"@ + goal_text + "\n"@),
{
    let c0 = "Automated candidate from a graph-engineering run.\n\n"@;
    let c1 = dec_of(explored);
    let c2 = " branch(es) explored this goal; the winner passed the"@;
    let c3 = " gate.\n\nGoal:\n\n"@;
    let c4 = goal_text;
    let c5 = "\n"@;
    let s0 = c0;
    let s1 = s0 + c1;
    let s2 = s1 + c2;
    let s3 = s2 + c3;
    let s4 = s3 + c4;
    let s5 = s4 + c5;
    lemma_holds_itself(s2);
    lemma_holds_longer(s2, s2, c3);
    lemma_holds_longer(s3, s2, c4);
    lemma_holds_longer(s4, s2, c5);
    lemma_assoc(s2, c3, c4);
    lemma_assoc(s2, c3 + c4, c5);
    lemma_holds_end(s2, c3 + c4 + c5);
}

/// The header of a run names the repository, the base, how many branches and rounds there are, and
/// the model.
pub proof fn law_a_run_is_headed_by_what_it_was_given(h: Header)
    ensures
        holds(header_of(h), "goal: "@ + (if lines_of(h.text@).len() > 0 {
        lines_of(h.text@)[0]
    } else {
        Seq::empty()
    })),
        holds(header_of(h), "\nrepo: "@ + h.repo@),
        holds(header_of(h), "  base: "@ + h.base@),
        holds(header_of(h), "  branches: "@ + dec_of(h.branches as nat)),
        holds(header_of(h), "  rounds: "@ + dec_of(h.rounds as nat)),
        holds(header_of(h), "  model: "@ + h.model@),
{
    let c0 = "goal: "@;
    let c1 = (if lines_of(h.text@).len() > 0 {
        lines_of(h.text@)[0]
    } else {
        Seq::empty()
    });
    let c2 = "\nrepo: "@;
    let c3 = h.repo@;
    let c4 = "  base: "@;
    let c5 = h.base@;
    let c6 = "  branches: "@;
    let c7 = dec_of(h.branches as nat);
    let c8 = "  rounds: "@;
    let c9 = dec_of(h.rounds as nat);
    let c10 = "  model: "@;
    let c11 = h.model@;
    let s0 = c0;
    let s1 = s0 + c1;
    let s2 = s1 + c2;
    let s3 = s2 + c3;
    let s4 = s3 + c4;
    let s5 = s4 + c5;
    let s6 = s5 + c6;
    let s7 = s6 + c7;
    let s8 = s7 + c8;
    let s9 = s8 + c9;
    let s10 = s9 + c10;
    let s11 = s10 + c11;
    lemma_holds_itself(s1);
    lemma_holds_longer(s1, s1, c2);
    lemma_holds_longer(s2, s1, c3);
    lemma_holds_longer(s3, s1, c4);
    lemma_holds_longer(s4, s1, c5);
    lemma_holds_longer(s5, s1, c6);
    lemma_holds_longer(s6, s1, c7);
    lemma_holds_longer(s7, s1, c8);
    lemma_holds_longer(s8, s1, c9);
    lemma_holds_longer(s9, s1, c10);
    lemma_holds_longer(s10, s1, c11);
    lemma_assoc(s1, c2, c3);
    lemma_holds_end(s1, c2 + c3);
    lemma_holds_longer(s3, c2 + c3, c4);
    lemma_holds_longer(s4, c2 + c3, c5);
    lemma_holds_longer(s5, c2 + c3, c6);
    lemma_holds_longer(s6, c2 + c3, c7);
    lemma_holds_longer(s7, c2 + c3, c8);
    lemma_holds_longer(s8, c2 + c3, c9);
    lemma_holds_longer(s9, c2 + c3, c10);
    lemma_holds_longer(s10, c2 + c3, c11);
    lemma_assoc(s3, c4, c5);
    lemma_holds_end(s3, c4 + c5);
    lemma_holds_longer(s5, c4 + c5, c6);
    lemma_holds_longer(s6, c4 + c5, c7);
    lemma_holds_longer(s7, c4 + c5, c8);
    lemma_holds_longer(s8, c4 + c5, c9);
    lemma_holds_longer(s9, c4 + c5, c10);
    lemma_holds_longer(s10, c4 + c5, c11);
    lemma_assoc(s5, c6, c7);
    lemma_holds_end(s5, c6 + c7);
    lemma_holds_longer(s7, c6 + c7, c8);
    lemma_holds_longer(s8, c6 + c7, c9);
    lemma_holds_longer(s9, c6 + c7, c10);
    lemma_holds_longer(s10, c6 + c7, c11);
    lemma_assoc(s7, c8, c9);
    lemma_holds_end(s7, c8 + c9);
    lemma_holds_longer(s9, c8 + c9, c10);
    lemma_holds_longer(s10, c8 + c9, c11);
    lemma_assoc(s9, c10, c11);
    lemma_holds_end(s9, c10 + c11);
}

/// What is told of a seeded base: the beginning of its commit and how many files it has.
pub proof fn law_a_seeded_base_is_named(commit: Seq<char>, files: nat)
    ensures
        holds(seeded_base_of(commit, files), "gate: base "@ + (if commit.len() > 8 {
        commit.take(8)
    } else {
        commit
    }) + " seeded ("@),
        holds(seeded_base_of(commit, files), dec_of(files) + " files)"@),
{
    let c0 = "gate: base "@;
    let c1 = (if commit.len() > 8 {
        commit.take(8)
    } else {
        commit
    });
    let c2 = " seeded ("@;
    let c3 = dec_of(files);
    let c4 = " files)"@;
    let s0 = c0;
    let s1 = s0 + c1;
    let s2 = s1 + c2;
    let s3 = s2 + c3;
    let s4 = s3 + c4;
    lemma_holds_itself(s2);
    lemma_holds_longer(s2, s2, c3);
    lemma_holds_longer(s3, s2, c4);
    lemma_assoc(s2, c3, c4);
    lemma_holds_end(s2, c3 + c4);
}

/// A branch's number stands behind its last hyphen, or is all of its name.
pub proof fn law_where_a_branchs_number_stands(branch: Seq<char>)
    ensures
        rsplit_once_of(branch, '-') is Some ==> branch_number(branch) == number_of(
            rsplit_once_of(branch, '-')->Some_0.1,
            10,
        ),
        rsplit_once_of(branch, '-') is None ==> branch_number(branch) == number_of(branch, 10),
{
}

/// What a dry run tells: where the winner was written, to apply and to look at it; or that it is
/// lost, and why.
pub proof fn law_a_dry_run_tells_where_the_winner_is(
    searched: Option<u64>,
    written: Result<Seq<char>, Seq<char>>,
)
    ensures
        searched is Some ==> ("\n[dry run] a candidate passed (score "@ + dec_of(
            searched->0 as nat,
        )).is_prefix_of(dry_run_of(searched, written)),
        searched is None ==> "\n[dry run] the join passed; not opening a PR.\n"@.is_prefix_of(
            dry_run_of(searched, written),
        ),
        written is Err && searched is Some ==> ("  WARNING: the winner could not be written out ("@
            + written->Err_0 + ") — it is lost"@).is_suffix_of(dry_run_of(searched, written)),
        written is Ok && searched is None ==> ("  the joined tree is in "@ + written->Ok_0
            + "\n  apply: rsync -a "@ + written->Ok_0 + "/ ."@).is_suffix_of(
            dry_run_of(searched, written),
        ),
{
    let t = dry_run_of(searched, written);
    match searched {
        Some(score) => {
            let head = "\n[dry run] a candidate passed (score "@ + dec_of(score as nat);
            assert(t.subrange(0, head.len() as int) =~= head);
            if let Err(e) = written {
                let end = "  WARNING: the winner could not be written out ("@ + e
                    + ") — it is lost"@;
                assert(t.subrange(t.len() - end.len(), t.len() as int) =~= end);
            }
        },
        None => {
            let head = "\n[dry run] the join passed; not opening a PR.\n"@;
            assert(t.subrange(0, head.len() as int) =~= head);
            if let Ok(dir) = written {
                let end = "  the joined tree is in "@ + dir + "\n  apply: rsync -a "@ + dir + "/ ."@;
                assert(t.subrange(t.len() - end.len(), t.len() as int) =~= end);
            }
        },
    }
}

/// What may be reached is told item by item; of checks that somebody else started, that it may
/// not be set.
pub proof fn law_what_may_be_reached_is_told(allow: Seq<Seq<char>>, u: Seq<char>)
    ensures
        allowance_of(allow, None) == "gate allows: "@ + listed_of(allow),
        holds(allowance_of(allow, Some(u)), listed_of(allow)),
        holds(allowance_of(allow, Some(u)), u),
{
    let c0 = "gate needs: "@;
    let c1 = listed_of(allow);
    let c2 = " — and this run does not set that: "@;
    let c3 = " was started by somebody else, with its own --allow"@;
    lemma_holds_end(c0, c1);
    lemma_holds_longer(c0 + c1, c1, c2);
    lemma_holds_longer(c0 + c1 + c2, c1, u);
    lemma_holds_longer(c0 + c1 + c2 + u, c1, c3);
    lemma_holds_end(c0 + c1 + c2, u);
    lemma_holds_longer(c0 + c1 + c2 + u, u, c3);
}

} // verus!
