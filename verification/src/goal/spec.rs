//! The goal, as it lives in a repository.

use vstd::prelude::*;

use crate::goal::manifest::{component_scope, scope_members, scope_paths, workspace_root};
use crate::text::strs;

verus! {

/// One check of a gate.
#[derive(Debug, PartialEq, Eq)]
pub struct CheckSpec {
    pub id: String,
    /// The check is meant to be green on the untouched base.
    pub may_pass_base: bool,
    pub required: bool,
    pub weight: u32,
    pub command: Vec<String>,
    /// Ids of checks that must pass before this one runs.
    pub needs: Vec<String>,
}

/// One half of a decomposed goal.
#[derive(Debug, PartialEq, Eq)]
pub struct PartSpec {
    pub name: String,
    pub text: String,
    pub writable: Vec<String>,
    /// Files the part is shown and may not write.
    pub context: Vec<String>,
    pub checks: Vec<CheckSpec>,
}

/// A goal: the work, the files it may touch and the checks that judge it.
#[derive(Debug, PartialEq, Eq)]
pub struct GoalSpec {
    pub text: String,
    pub writable: Vec<String>,
    pub title: Option<String>,
    /// Only tracked files under these prefixes are the base tree.
    pub base_paths: Vec<String>,
    /// The workspace manifest whose members are trimmed to `keep_members`.
    pub workspace_manifest: Option<String>,
    pub keep_members: Vec<String>,
    /// A component crate whose layout gives the three fields above.
    pub component: Option<String>,
    pub context: Vec<String>,
    pub checks: Vec<CheckSpec>,
    /// The file that holds the interface the parts build against.
    pub contract: Option<String>,
    /// Empty for an ordinary goal.
    pub parts: Vec<PartSpec>,
}

/// A check is required unless it says otherwise.
pub fn yes() -> (r: bool)
    ensures
        r,
{
    true
}

/// A check weighs one unless it says otherwise.
pub fn one() -> (r: u32)
    ensures
        r == 1,
{
    1
}

/// The views of an optional text.
pub open spec fn opt_text(o: Option<String>) -> Option<Seq<char>> {
    match o {
        Some(s) => Some(s@),
        None => None,
    }
}

impl GoalSpec {
    /// The checks of the goal, then those of each part.
    pub open spec fn every_check(&self) -> Seq<CheckSpec> {
        checks_from(self.checks@, self.parts@)
    }

    /// The goal with its build-scope taken from the named component: a field that
    /// the goal sets itself always wins.
    pub fn scoped(self) -> (out: GoalSpec)
        ensures
            out.text == self.text,
            out.writable == self.writable,
            out.title == self.title,
            out.component == self.component,
            out.context == self.context,
            out.checks == self.checks,
            out.contract == self.contract,
            out.parts == self.parts,
            self.component is None ==> out == self,
            self.base_paths@.len() > 0 ==> out.base_paths == self.base_paths,
            self.workspace_manifest is Some ==> out.workspace_manifest == self.workspace_manifest,
            self.keep_members@.len() > 0 ==> out.keep_members == self.keep_members,
            self.component matches Some(name) ==> {
                &&& self.base_paths@.len() == 0 ==> strs(out.base_paths@) == scope_paths(name@)
                &&& self.workspace_manifest is None ==> opt_text(out.workspace_manifest) == Some(
                    workspace_root(),
                )
                &&& self.keep_members@.len() == 0 ==> strs(out.keep_members@) == scope_members(
                    name@,
                )
            },
    {
        let mut goal = self;
        let scope = match &goal.component {
            Some(name) => Some(component_scope(name.as_str())),
            None => None,
        };
        match scope {
            Some((paths, manifest, members)) => {
                if goal.base_paths.len() == 0 {
                    goal.base_paths = paths;
                }
                if goal.workspace_manifest.is_none() {
                    goal.workspace_manifest = Some(manifest);
                }
                if goal.keep_members.len() == 0 {
                    goal.keep_members = members;
                }
            },
            None => {},
        }
        goal
    }
}

/// `own`, then the checks of each part.
pub open spec fn checks_from(own: Seq<CheckSpec>, parts: Seq<PartSpec>) -> Seq<CheckSpec>
    decreases parts.len(),
{
    if parts.len() == 0 {
        own
    } else {
        checks_from(own, parts.drop_last()) + parts.last().checks@
    }
}

/// The checks of a goal are its own and then those of its parts, part after part: each check
/// of the goal and of every part is among them.
pub proof fn law_every_check_is_counted(own: Seq<CheckSpec>, parts: Seq<PartSpec>, c: CheckSpec)
    ensures
        checks_from(own, parts).contains(c) <==> own.contains(c) || exists|i: int|
            0 <= i < parts.len() && (#[trigger] parts[i]).checks@.contains(c),
    decreases parts.len(),
{
    if parts.len() > 0 {
        let ps = parts.drop_last();
        law_every_check_is_counted(own, ps, c);
        let (a, b) = (checks_from(own, ps), parts.last().checks@);
        if a.contains(c) {
            let k = choose|k: int| 0 <= k < a.len() && a[k] == c;
            assert((a + b)[k] == c);
        }
        if b.contains(c) {
            let k = choose|k: int| 0 <= k < b.len() && b[k] == c;
            assert((a + b)[a.len() + k] == c);
            assert(parts[parts.len() - 1].checks@.contains(c));
        }
        if (a + b).contains(c) {
            let k = choose|k: int| 0 <= k < (a + b).len() && (a + b)[k] == c;
            if k < a.len() {
                assert(a[k] == c);
            } else {
                assert(b[k - a.len()] == c);
            }
        }
        if exists|i: int| 0 <= i < ps.len() && (#[trigger] ps[i]).checks@.contains(c) {
            let i = choose|i: int| 0 <= i < ps.len() && (#[trigger] ps[i]).checks@.contains(c);
            assert(parts[i].checks@.contains(c));
        }
        if exists|i: int| 0 <= i < parts.len() && (#[trigger] parts[i]).checks@.contains(c) {
            let i = choose|i: int| 0 <= i < parts.len() && (#[trigger] parts[i]).checks@.contains(c);
            if i < ps.len() {
                assert(ps[i].checks@.contains(c));
            }
        }
    }
}

} // verus!
