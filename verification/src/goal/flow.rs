//! The course of a run, step by step: what is done next, and how the run ends.
//!
//! The driver performs each [`Action`] and hands back the [`Event`] it came to.

use vstd::prelude::*;

use crate::goal::run::{EXHAUSTED, GATE_REFUSED, SUCCESS};
use crate::goal::spec::GoalSpec;

verus! {

/// What the driver does next.
#[derive(Debug, Clone, Copy, PartialEq, Eq, Structural)]
pub enum Action {
    /// Give the check runner the base tree.
    Seed,
    /// Ask whether the checks can judge anything.
    Judge,
    /// Prove the rig for free.
    Smoke,
    /// Ask the pool whether the goal has been done.
    Recall,
    /// Search: branches that compete.
    Search,
    /// Compose: parts that are joined.
    Compose,
    /// Write the winner out.
    WriteOut,
    /// Open the pull request.
    Land,
    /// End with this code.
    Exit(i32),
    /// End with an error: the runner could not be given the tree.
    Unseeded,
}

/// What an action came to.
#[derive(Debug, Clone, Copy, PartialEq, Eq, Structural)]
pub enum Event {
    Seeded(bool),
    /// The checks can judge.
    Judged(bool),
    SmokeDone,
    /// What the pool says of the goal.
    Recalled(Recalled),
    /// The search, or the join, is over; a candidate was accepted.
    Found(bool),
    WrittenOut,
    /// The forge opened a pull request.
    Landed(bool),
}

/// What the pool says of a goal.
#[derive(Debug, Clone, Copy, PartialEq, Eq, Structural)]
pub enum Recalled {
    NoPool,
    AlreadyDone,
    NothingOnRecord,
    Unreachable,
}

/// How a run is recorded once it is over.
#[derive(Debug, Clone, Copy, PartialEq, Eq, Structural)]
pub enum Outcome {
    Exhausted,
    DryRun,
    Merged,
    Failed,
}

/// Where a run stands.
#[derive(Debug, Clone, Copy, PartialEq, Eq, Structural)]
pub enum Stage {
    Seeding,
    Judging,
    Smoking,
    Recalling,
    Searching,
    WritingOut,
    Landing,
    Over(i32),
    Broken,
}

/// What a run was asked for, and where it stands.
#[derive(Debug, Clone, Copy, PartialEq, Eq, Structural)]
pub struct Run {
    pub stage: Stage,
    pub smoke: bool,
    pub dry_run: bool,
    /// The goal is decomposed.
    pub parts: bool,
    /// Branches were run: money was spent.
    pub spent: bool,
    /// A candidate was accepted.
    pub accepted: bool,
    /// How the run is recorded, once it is.
    pub outcome: Option<Outcome>,
}

/// The run with its stage changed.
pub open spec fn to(r: Run, stage: Stage) -> Run {
    Run { stage, ..r }
}

/// The run is over with this code and recorded so.
pub open spec fn over(r: Run, code: i32, outcome: Option<Outcome>) -> Run {
    Run { stage: Stage::Over(code), outcome, ..r }
}

/// Where a run goes from `r` on `e`, and what is done then. An event that does not
/// fit the stage changes nothing and ends nothing: the pending action stands.
pub open spec fn step_of(r: Run, e: Event) -> Run {
    match (r.stage, e) {
        (Stage::Seeding, Event::Seeded(true)) => to(r, Stage::Judging),
        (Stage::Seeding, Event::Seeded(false)) => to(r, Stage::Broken),
        (Stage::Judging, Event::Judged(false)) => over(r, GATE_REFUSED, None),
        (Stage::Judging, Event::Judged(true)) => to(
            r,
            if r.smoke {
                Stage::Smoking
            } else {
                Stage::Recalling
            },
        ),
        (Stage::Smoking, Event::SmokeDone) => over(r, SUCCESS, None),
        (Stage::Recalling, Event::Recalled(Recalled::AlreadyDone)) => over(r, SUCCESS, None),
        (Stage::Recalling, Event::Recalled(_)) => Run { stage: Stage::Searching, spent: true, ..r },
        (Stage::Searching, Event::Found(false)) => over(
            r,
            if r.parts {
                SUCCESS
            } else {
                EXHAUSTED
            },
            Some(Outcome::Exhausted),
        ),
        (Stage::Searching, Event::Found(true)) => Run {
            stage: if r.dry_run {
                Stage::WritingOut
            } else {
                Stage::Landing
            },
            accepted: true,
            ..r
        },
        (Stage::WritingOut, Event::WrittenOut) => over(r, SUCCESS, Some(Outcome::DryRun)),
        (Stage::Landing, Event::Landed(opened)) => over(
            r,
            SUCCESS,
            Some(
                if opened {
                    Outcome::Merged
                } else {
                    Outcome::Failed
                },
            ),
        ),
        _ => r,
    }
}

/// What is done at a stage.
pub open spec fn action_of(r: Run) -> Action {
    match r.stage {
        Stage::Seeding => Action::Seed,
        Stage::Judging => Action::Judge,
        Stage::Smoking => Action::Smoke,
        Stage::Recalling => Action::Recall,
        Stage::Searching => if r.parts {
            Action::Compose
        } else {
            Action::Search
        },
        Stage::WritingOut => Action::WriteOut,
        Stage::Landing => Action::Land,
        Stage::Over(code) => Action::Exit(code),
        Stage::Broken => Action::Unseeded,
    }
}

/// A run at its start.
pub open spec fn start_of(smoke: bool, dry_run: bool, parts: bool) -> Run {
    Run {
        stage: Stage::Seeding,
        smoke,
        dry_run,
        parts,
        spent: false,
        accepted: false,
        outcome: None,
    }
}

/// A goal without checks is refused: checks that ask nothing accept everything.
pub fn start(goal: &GoalSpec, smoke: bool, dry_run: bool) -> (r: Result<Run, String>)
    ensures
        r is Err <==> goal.checks@.len() == 0,
        r matches Err(e) ==> e@ == "the goal has no checks — an empty gate accepts everything"@,
        r matches Ok(run) ==> run == start_of(smoke, dry_run, goal.parts@.len() > 0),
{
    if goal.checks.len() == 0 {
        return Err("the goal has no checks — an empty gate accepts everything".to_string());
    }
    Ok(
        Run {
            stage: Stage::Seeding,
            smoke,
            dry_run,
            parts: goal.parts.len() > 0,
            spent: false,
            accepted: false,
            outcome: None,
        },
    )
}

impl Run {
    /// What is done next.
    pub fn action(&self) -> (a: Action)
        ensures
            a == action_of(*self),
    {
        match self.stage {
            Stage::Seeding => Action::Seed,
            Stage::Judging => Action::Judge,
            Stage::Smoking => Action::Smoke,
            Stage::Recalling => Action::Recall,
            Stage::Searching => {
                if self.parts {
                    Action::Compose
                } else {
                    Action::Search
                }
            },
            Stage::WritingOut => Action::WriteOut,
            Stage::Landing => Action::Land,
            Stage::Over(code) => Action::Exit(code),
            Stage::Broken => Action::Unseeded,
        }
    }

    /// Take in what the action came to.
    pub fn step(&mut self, e: Event)
        ensures
            *final(self) == step_of(*old(self), e),
    {
        match (self.stage, e) {
            (Stage::Seeding, Event::Seeded(ok)) => {
                self.stage = if ok {
                    Stage::Judging
                } else {
                    Stage::Broken
                };
            },
            (Stage::Judging, Event::Judged(can)) => {
                if !can {
                    self.finish(GATE_REFUSED, None);
                } else if self.smoke {
                    self.stage = Stage::Smoking;
                } else {
                    self.stage = Stage::Recalling;
                }
            },
            (Stage::Smoking, Event::SmokeDone) => {
                self.finish(SUCCESS, None);
            },
            (Stage::Recalling, Event::Recalled(what)) => {
                match what {
                    Recalled::AlreadyDone => {
                        self.finish(SUCCESS, None);
                    },
                    _ => {
                        self.stage = Stage::Searching;
                        self.spent = true;
                    },
                }
            },
            (Stage::Searching, Event::Found(accepted)) => {
                if !accepted {
                    let code: i32 = if self.parts {
                        SUCCESS
                    } else {
                        EXHAUSTED
                    };
                    self.finish(code, Some(Outcome::Exhausted));
                } else {
                    self.accepted = true;
                    self.stage = if self.dry_run {
                        Stage::WritingOut
                    } else {
                        Stage::Landing
                    };
                }
            },
            (Stage::WritingOut, Event::WrittenOut) => {
                self.finish(SUCCESS, Some(Outcome::DryRun));
            },
            (Stage::Landing, Event::Landed(opened)) => {
                let how = if opened {
                    Outcome::Merged
                } else {
                    Outcome::Failed
                };
                self.finish(SUCCESS, Some(how));
            },
            _ => {},
        }
    }

    fn finish(&mut self, code: i32, outcome: Option<Outcome>)
        ensures
            *final(self) == over(*old(self), code, outcome),
    {
        self.stage = Stage::Over(code);
        self.outcome = outcome;
    }
}

/// How an outcome is written down.
pub fn outcome_text(o: Outcome) -> (s: &'static str)
    ensures
        s@ == match o {
            Outcome::Exhausted => "exhausted"@,
            Outcome::DryRun => "dry-run"@,
            Outcome::Merged => "merged"@,
            Outcome::Failed => "failed"@,
        },
{
    match o {
        Outcome::Exhausted => "exhausted",
        Outcome::DryRun => "dry-run",
        Outcome::Merged => "merged",
        Outcome::Failed => "failed",
    }
}

/// The winner that a decomposed run is recorded with: the join, and only where it
/// landed. No one part's branch is credited with all of the work.
pub fn composed_winner(o: Outcome) -> (w: Option<&'static str>)
    ensures
        o == Outcome::Merged ==> w is Some && w->0@ == "composition"@,
        o != Outcome::Merged ==> w is None,
{
    match o {
        Outcome::Merged => Some("composition"),
        _ => None,
    }
}

/// The run after these events.
pub open spec fn after(r: Run, es: Seq<Event>) -> Run
    decreases es.len(),
{
    if es.len() == 0 {
        r
    } else {
        step_of(after(r, es.drop_last()), es.last())
    }
}

/// What holds of a run at each moment.
pub open spec fn sound(r: Run) -> bool {
    &&& r.accepted ==> r.spent
    &&& match r.stage {
        Stage::Seeding | Stage::Judging | Stage::Smoking | Stage::Recalling | Stage::Broken =>
            !r.spent && !r.accepted && r.outcome is None,
        Stage::Searching => r.spent && !r.accepted && r.outcome is None,
        Stage::WritingOut => r.spent && r.accepted && r.dry_run && r.outcome is None,
        Stage::Landing => r.spent && r.accepted && !r.dry_run && r.outcome is None,
        Stage::Over(code) => {
            &&& code == GATE_REFUSED ==> !r.spent && r.outcome is None
            &&& code == EXHAUSTED ==> r.spent && !r.accepted && !r.parts
            &&& code == SUCCESS || code == GATE_REFUSED || code == EXHAUSTED
            &&& r.outcome == Some(Outcome::Exhausted) <==> r.spent && !r.accepted
            &&& r.outcome == Some(Outcome::DryRun) <==> r.accepted && r.dry_run
            &&& (r.outcome == Some(Outcome::Merged) || r.outcome == Some(Outcome::Failed))
                <==> r.accepted && !r.dry_run
            &&& r.outcome is None <==> !r.spent
        },
    }
}

proof fn lemma_sound(r: Run, es: Seq<Event>)
    requires
        sound(r),
    ensures
        sound(after(r, es)),
        after(r, es).smoke == r.smoke,
        after(r, es).dry_run == r.dry_run,
        after(r, es).parts == r.parts,
    decreases es.len(),
{
    if es.len() > 0 {
        lemma_sound(r, es.drop_last());
    }
}

/// Checks that cannot judge spend nothing: a run that ends so ran no branch and
/// recorded no outcome.
pub proof fn law_a_refusal_spends_nothing(smoke: bool, dry_run: bool, parts: bool, es: Seq<Event>)
    ensures
        after(start_of(smoke, dry_run, parts), es).stage == Stage::Over(GATE_REFUSED)
            ==> !after(start_of(smoke, dry_run, parts), es).spent,
{
    lemma_sound(start_of(smoke, dry_run, parts), es);
}

/// A pull request is asked for only where a candidate was accepted and the run is
/// not a dry one.
pub proof fn law_only_an_accepted_candidate_lands(
    smoke: bool,
    dry_run: bool,
    parts: bool,
    es: Seq<Event>,
)
    ensures
        action_of(after(start_of(smoke, dry_run, parts), es)) == Action::Land ==> !dry_run && after(
            start_of(smoke, dry_run, parts),
            es,
        ).accepted,
        after(start_of(smoke, dry_run, parts), es).outcome == Some(Outcome::Merged) ==> !dry_run
            && after(start_of(smoke, dry_run, parts), es).accepted,
{
    lemma_sound(start_of(smoke, dry_run, parts), es);
}

/// An ordinary run that judged every branch and accepted none says so by its code,
/// and no other run has that code.
pub proof fn law_exhausted_is_its_own_code(smoke: bool, dry_run: bool, es: Seq<Event>)
    ensures
        after(start_of(smoke, dry_run, false), es).stage == Stage::Over(EXHAUSTED) <==> after(
            start_of(smoke, dry_run, false),
            es,
        ).outcome == Some(Outcome::Exhausted),
    decreases es.len(),
{
    let r = start_of(smoke, dry_run, false);
    lemma_sound(r, es);
    if es.len() > 0 {
        lemma_sound(r, es.drop_last());
        law_exhausted_is_its_own_code(smoke, dry_run, es.drop_last());
    }
}

/// A run that spent money and ended is always recorded.
pub proof fn law_a_finished_run_is_recorded(
    smoke: bool,
    dry_run: bool,
    parts: bool,
    es: Seq<Event>,
    code: i32,
)
    requires
        after(start_of(smoke, dry_run, parts), es).stage == Stage::Over(code),
        after(start_of(smoke, dry_run, parts), es).spent,
    ensures
        after(start_of(smoke, dry_run, parts), es).outcome is Some,
{
    lemma_sound(start_of(smoke, dry_run, parts), es);
}

/// Asking the pool fails towards doing the work: nothing but a recorded answer that
/// the goal is done keeps a run from searching.
pub proof fn law_an_error_means_do_the_work(r: Run, what: Recalled)
    requires
        r.stage == Stage::Recalling,
    ensures
        step_of(r, Event::Recalled(what)).stage == Stage::Searching <==> what
            != Recalled::AlreadyDone,
{
}

/// How a run goes on from each of its stages: nothing is tried before the base is seeded and
/// the checks can judge; a smoke ends there; what was done already is not done again; a
/// candidate that was found is written out on a dry run and landed otherwise.
pub proof fn law_how_a_run_goes_on(r: Run, yes: bool, what: Recalled)
    ensures
        r.stage == Stage::Seeding ==> step_of(r, Event::Seeded(yes)).stage == (if yes {
            Stage::Judging
        } else {
            Stage::Broken
        }),
        r.stage == Stage::Judging ==> step_of(r, Event::Judged(yes)).stage == (if !yes {
            Stage::Over(4)
        } else if r.smoke {
            Stage::Smoking
        } else {
            Stage::Recalling
        }),
        r.stage == Stage::Smoking ==> step_of(r, Event::SmokeDone).stage == Stage::Over(0),
        r.stage == Stage::Recalling ==> step_of(r, Event::Recalled(what)).stage == (if what
            == Recalled::AlreadyDone {
            Stage::Over(0)
        } else {
            Stage::Searching
        }),
        r.stage == Stage::Searching ==> step_of(r, Event::Found(yes)).stage == (if yes && r.dry_run {
            Stage::WritingOut
        } else if yes {
            Stage::Landing
        } else if r.parts {
            Stage::Over(0)
        } else {
            Stage::Over(3)
        }),
        r.stage == Stage::Searching ==> step_of(r, Event::Found(yes)).accepted == (yes
            || r.accepted),
        r.stage == Stage::WritingOut ==> step_of(r, Event::WrittenOut).stage == Stage::Over(0)
            && step_of(r, Event::WrittenOut).outcome == Some(Outcome::DryRun),
        r.stage == Stage::Landing ==> step_of(r, Event::Landed(yes)).stage == Stage::Over(0)
            && step_of(r, Event::Landed(yes)).outcome == Some(
            if yes {
                Outcome::Merged
            } else {
                Outcome::Failed
            },
        ),
{
}

/// What a run was started for never changes, and a smoke never spends anything.
pub proof fn law_a_run_stays_what_it_was_started_for(
    smoke: bool,
    dry_run: bool,
    parts: bool,
    es: Seq<Event>,
)
    ensures
        after(start_of(smoke, dry_run, parts), es).smoke == smoke,
        after(start_of(smoke, dry_run, parts), es).dry_run == dry_run,
        after(start_of(smoke, dry_run, parts), es).parts == parts,
        smoke ==> !after(start_of(smoke, dry_run, parts), es).spent && (after(
            start_of(smoke, dry_run, parts),
            es,
        ).stage is Seeding || after(start_of(smoke, dry_run, parts), es).stage is Judging || after(
            start_of(smoke, dry_run, parts),
            es,
        ).stage is Smoking || after(start_of(smoke, dry_run, parts), es).stage is Broken || after(
            start_of(smoke, dry_run, parts),
            es,
        ).stage is Over),
    decreases es.len(),
{
    if es.len() > 0 {
        law_a_run_stays_what_it_was_started_for(smoke, dry_run, parts, es.drop_last());
    }
}

/// A run over parts composes; one without parts searches.
pub proof fn law_parts_are_composed(r: Run)
    ensures
        r.stage == Stage::Searching && r.parts ==> action_of(r) == Action::Compose,
        r.stage == Stage::Searching && !r.parts ==> action_of(r) == Action::Search,
        r.stage is Over ==> action_of(r) == Action::Exit(r.stage->Over_0),
        action_of(r) is Exit ==> r.stage == Stage::Over(action_of(r)->Exit_0),
{
}

/// What a sound run promises: nothing is accepted that was not searched for, a run that was
/// refused spent nothing, one that was exhausted found nothing, and one that is over says how.
pub proof fn law_what_a_sound_run_promises(r: Run)
    requires
        sound(r),
    ensures
        r.accepted ==> r.spent,
        r.stage == Stage::Over(GATE_REFUSED) ==> !r.spent,
        r.stage == Stage::Over(EXHAUSTED) ==> r.spent && !r.accepted && !r.parts,
        r.stage == Stage::Landing ==> r.accepted && !r.dry_run,
        r.stage == Stage::WritingOut ==> r.accepted && r.dry_run,
        r.stage is Over && r.accepted && r.dry_run ==> r.outcome == Some(Outcome::DryRun),
        r.stage is Over && r.spent && !r.accepted ==> r.outcome == Some(Outcome::Exhausted),
        r.stage is Over && !r.spent ==> r.outcome is None,
{
}

} // verus!
