//! A user's crontab, read into jobs.

use vstd::prelude::*;
use vstd::string::*;

use crate::json::{Json, Tree, entry_from, entry_trees, law_a_refusal_says_why, list, no_entries, object, put, refusal, refusal_tree, single, text, trees};
use crate::text::{contains, holds, is_char, join, join_of, lemma_filter_map_joined, lemma_lines_joined, lemma_split_joined, lemma_split_plain, lemma_trim_push, lines, lines_of, lower, lower_of, slice_texts, split_of, strip_cr, strs, trim, trim_of, words, words_of};

verus! {

/// One job of a crontab.
#[derive(Debug, PartialEq, Eq)]
pub struct Job {
    pub schedule: String,
    pub command: String,
}

/// What a job says: its schedule and its command.
pub struct JobView {
    pub schedule: Seq<char>,
    pub command: Seq<char>,
}

impl View for Job {
    type V = JobView;

    open spec fn view(&self) -> JobView {
        JobView { schedule: self.schedule@, command: self.command@ }
    }
}

/// The views of a list of jobs.
pub open spec fn job_views(v: Seq<Job>) -> Seq<JobView> {
    v.map_values(|j: Job| j@)
}

/// The job of a crontab line: five fields of schedule, then the command, each run
/// of white space counting as one space. A blank line, a comment and a line of
/// fewer fields are no job.
pub open spec fn job_of(line: Seq<char>) -> Option<JobView> {
    let t = trim_of(line);
    let fields = words_of(t);
    if t.len() == 0 || t[0] == '#' || fields.len() < 6 {
        None
    } else {
        Some(
            JobView {
                schedule: join_of(fields.subrange(0, 5), " "@),
                command: join_of(fields.subrange(5, fields.len() as int), " "@),
            },
        )
    }
}

/// The jobs of the lines, in order.
pub open spec fn jobs_of(ls: Seq<Seq<char>>) -> Seq<JobView> {
    ls.filter_map(|l: Seq<char>| job_of(l))
}

/// One crontab line as a job.
pub fn parse_line(line: &str) -> (out: Option<Job>)
    ensures
        out is Some <==> job_of(line@) is Some,
        out matches Some(j) ==> job_of(line@) == Some(j@),
{
    let t = trim(line);
    let cs = crate::text::chars_of(t.as_str());
    if cs.len() == 0 || cs[0] == '#' {
        return None;
    }
    let fields = words(t.as_str());
    if fields.len() < 6 {
        return None;
    }
    let when = slice_texts(&fields, 0, 5);
    let what = slice_texts(&fields, 5, fields.len());
    Some(Job { schedule: join(&when, " "), command: join(&what, " ") })
}

/// The jobs of a whole crontab.
pub fn parse_crontab(output: &str) -> (out: Vec<Job>)
    ensures
        job_views(out@) == jobs_of(lines_of(output@)),
{
    let all = lines(output);
    let ghost ls = strs(all@);
    let ghost f = |l: Seq<char>| job_of(l);
    let mut out: Vec<Job> = Vec::new();
    let mut i: usize = 0;
    assert(job_views(out@) =~= ls.take(0).filter_map(f)) by {
        reveal(Seq::filter_map);
    }
    while i < all.len()
        invariant
            i <= all.len(),
            ls == strs(all@),
            f == (|l: Seq<char>| job_of(l)),
            job_views(out@) == ls.take(i as int).filter_map(f),
        decreases all.len() - i,
    {
        proof {
            ls.lemma_filter_map_take_succ(f, i as int);
            assert(ls[i as int] == all[i as int]@);
        }
        match parse_line(all[i].as_str()) {
            Some(job) => {
                let ghost o = out@;
                out.push(job);
                assert(job_views(out@) =~= job_views(o).push(job@));
                assert(job_views(out@) =~= job_views(o) + seq![job@]);
            },
            None => {},
        }
        i = i + 1;
    }
    assert(ls.take(i as int) =~= ls);
    out
}

/// A carriage return at the end of a line makes no other job of it.
proof fn lemma_job_of_stripped(line: Seq<char>)
    ensures
        job_of(strip_cr(line)) == job_of(line),
{
    if line.len() > 0 && line.last() == '\r' {
        lemma_trim_push(line.drop_last(), '\r');
        assert(line.drop_last().push('\r') =~= line);
    }
}

proof fn lemma_jobs_of_stripped(ls: Seq<Seq<char>>)
    ensures
        jobs_of(ls.map_values(|l: Seq<char>| strip_cr(l))) == jobs_of(ls),
    decreases ls.len(),
{
    reveal(Seq::filter_map);
    let f = |l: Seq<char>| strip_cr(l);
    if ls.len() == 0 {
        assert(ls.map_values(f) =~= ls);
    } else {
        lemma_jobs_of_stripped(ls.drop_last());
        lemma_job_of_stripped(ls.last());
        assert(ls.map_values(f).drop_last() =~= ls.drop_last().map_values(f));
        assert(ls.map_values(f).last() == strip_cr(ls.last()));
    }
}

/// A blank line, and whether it is there, adds no job.
proof fn lemma_jobs_of_lines(s: Seq<char>)
    ensures
        jobs_of(lines_of(s)) == jobs_of(split_of(s, '\n')),
{
    reveal(Seq::filter_map);
    lemma_split_joined(s, '\n', Seq::empty(), is_char('\n'));
    let parts = split_of(s, '\n');
    let ended = parts.drop_last().map_values(|l: Seq<char>| strip_cr(l));
    lemma_jobs_of_stripped(parts.drop_last());
    assert(parts =~= parts.drop_last().push(parts.last()));
    if parts.last().len() == 0 {
        assert(job_of(parts.last()) is None);
    } else {
        assert(ended.push(parts.last()).drop_last() =~= ended);
    }
}

/// A crontab is read line by line: the jobs of two texts with a line end between them are
/// those of the first and then those of the second, and a text without a line end gives
/// its one job or none.
pub proof fn law_a_crontab_is_its_lines(a: Seq<char>, b: Seq<char>)
    ensures
        jobs_of(lines_of(a + "\n"@ + b)) == jobs_of(lines_of(a)) + jobs_of(lines_of(b)),
        (forall|i: int| 0 <= i < a.len() ==> a[i] != '\n') ==> jobs_of(lines_of(a)) == match job_of(
            a,
        ) {
            Some(j) => seq![j],
            None => Seq::empty(),
        },
{
    reveal_strlit("\n");
    assert(a + "\n"@ =~= a.push('\n'));
    lemma_lines_joined(a, b);
    lemma_filter_map_joined(
        split_of(a, '\n').map_values(|l: Seq<char>| strip_cr(l)),
        lines_of(b),
        |l: Seq<char>| job_of(l),
    );
    lemma_jobs_of_stripped(split_of(a, '\n'));
    lemma_jobs_of_lines(a);
    if forall|i: int| 0 <= i < a.len() ==> a[i] != '\n' {
        lemma_split_plain(a, is_char('\n'));
        Seq::lemma_filter_map_singleton(a, |l: Seq<char>| job_of(l));
    }
}

/// A job as the daemon answers it.
pub open spec fn job_tree(j: JobView) -> Tree {
    Tree::Object(seq![("schedule"@, Tree::Text(j.schedule)), ("command"@, Tree::Text(j.command))])
}

/// A list of jobs as the daemon answers it.
pub open spec fn jobs_tree(js: Seq<JobView>) -> Tree {
    Tree::Object(seq![("jobs"@, Tree::List(js.map_values(|j: JobView| job_tree(j))))])
}

/// A job is answered by its schedule and its command, each under its own name.
pub proof fn law_a_job_is_answered_whole(j: JobView)
    ensures
        job_tree(j).field("schedule"@) == Some(Tree::Text(j.schedule)),
        job_tree(j).field("command"@) == Some(Tree::Text(j.command)),
{
    reveal_with_fuel(entry_from, 3);
    reveal_strlit("schedule");
    reveal_strlit("command");
    assert("schedule"@.len() == 8);
    assert("command"@.len() == 7);
}

fn jobs_json(jobs: &Vec<Job>) -> (j: Json)
    ensures
        j@ == jobs_tree(job_views(jobs@)),
{
    let ghost want = job_views(jobs@).map_values(|j: JobView| job_tree(j));
    let mut items: Vec<Json> = Vec::new();
    let mut i: usize = 0;
    assert(trees(items@) =~= want.take(0));
    while i < jobs.len()
        invariant
            i <= jobs.len(),
            want == job_views(jobs@).map_values(|j: JobView| job_tree(j)),
            trees(items@) == want.take(i as int),
        decreases jobs.len() - i,
    {
        let mut es = no_entries();
        put(&mut es, "schedule", text(jobs[i].schedule.as_str()));
        put(&mut es, "command", text(jobs[i].command.as_str()));
        assert(entry_trees(es@) =~= job_tree(jobs[i as int]@)->Object_0);
        let item = object(es);
        let ghost o = items@;
        items.push(item);
        proof {
            assert(trees(items@) =~= trees(o).push(item@));
            assert(want.take(i + 1) =~= want.take(i as int).push(item@));
        }
        i = i + 1;
    }
    assert(want.take(i as int) =~= want);
    single("jobs", list(items))
}

/// What the daemon answers for a run of `crontab -l`: the jobs it printed; none
/// where the user has no crontab; otherwise what it complained of.
pub open spec fn list_answer(success: bool, stdout: Seq<char>, stderr: Seq<char>) -> Tree {
    if success {
        jobs_tree(jobs_of(lines_of(stdout)))
    } else if holds(lower_of(stderr), "no crontab for"@) || stdout.len() == 0 {
        jobs_tree(Seq::empty())
    } else {
        refusal_tree("unavailable"@, trim_of(stderr))
    }
}

/// What the daemon answers for a run of `crontab -l`.
pub fn list_jobs(success: bool, stdout: &str, stderr: &str) -> (j: Json)
    ensures
        j@ == list_answer(success, stdout@, stderr@),
{
    if success {
        let jobs = parse_crontab(stdout);
        return jobs_json(&jobs);
    }
    let quiet = lower(stderr);
    if contains(quiet.as_str(), "no crontab for") || stdout.is_empty() {
        let none: Vec<Job> = Vec::new();
        assert(job_views(none@) =~= Seq::<JobView>::empty());
        return jobs_json(&none);
    }
    let detail = trim(stderr);
    refusal("unavailable", detail.as_str())
}

/// A line is a job exactly where it is no comment and has five words of schedule and at least
/// one of command.
pub proof fn law_what_a_job_is(line: Seq<char>)
    ensures
        job_of(line) is Some <==> trim_of(line).len() > 0 && trim_of(line)[0] != '#' && words_of(
            trim_of(line),
        ).len() >= 6,
        job_of(line) matches Some(j) ==> j.schedule == join_of(words_of(trim_of(line)).take(5), " "@)
            && j.command == join_of(words_of(trim_of(line)).skip(5), " "@),
{
    let fields = words_of(trim_of(line));
    if fields.len() >= 6 {
        assert(fields.subrange(0, 5) =~= fields.take(5));
        assert(fields.subrange(5, fields.len() as int) =~= fields.skip(5));
    }
}

/// What is answered of a crontab: every job in its order, with its schedule and its command;
/// no jobs where there is no crontab; and otherwise what was complained of.
pub proof fn law_what_is_answered_of_a_crontab(success: bool, stdout: Seq<char>, stderr: Seq<char>)
    ensures
        ({
            let t = list_answer(success, stdout, stderr);
            let js = if success {
                jobs_of(lines_of(stdout))
            } else {
                Seq::empty()
            };
            let none = holds(lower_of(stderr), "no crontab for"@) || stdout.len() == 0;
            &&& success || none ==> {
                &&& t.field("jobs"@) is Some
                &&& t.field("jobs"@)->0.items().len() == js.len()
                &&& forall|i: int|
                    0 <= i < js.len() ==> {
                        let j = #[trigger] t.field("jobs"@)->0.items()[i];
                        &&& j.field("schedule"@) == Some(Tree::Text(js[i].schedule))
                        &&& j.field("command"@) == Some(Tree::Text(js[i].command))
                    }
            }
            &&& !success && !none ==> t.field("error"@) == Some(Tree::Text("unavailable"@))
                && t.field("detail"@) == Some(Tree::Text(trim_of(stderr)))
        }),
{
    law_a_refusal_says_why("unavailable"@, trim_of(stderr));
    let t = list_answer(success, stdout, stderr);
    let js = if success {
        jobs_of(lines_of(stdout))
    } else {
        Seq::empty()
    };
    let none = holds(lower_of(stderr), "no crontab for"@) || stdout.len() == 0;
    if success || none {
        assert(t.field("jobs"@)->0.items() == js.map_values(|j: JobView| job_tree(j)));
        assert forall|i: int| 0 <= i < js.len() implies {
            let j = #[trigger] t.field("jobs"@)->0.items()[i];
            &&& j.field("schedule"@) == Some(Tree::Text(js[i].schedule))
            &&& j.field("command"@) == Some(Tree::Text(js[i].command))
        } by {
            law_a_job_is_answered_whole(js[i]);
            assert(t.field("jobs"@)->0.items()[i] == job_tree(js[i]));
        }
    }
}

/// A job is seen by its schedule and its command, a list of jobs one by one.
pub proof fn law_a_job_is_seen_whole(js: Seq<Job>, i: int)
    requires
        0 <= i < js.len(),
    ensures
        job_views(js).len() == js.len(),
        job_views(js)[i].schedule == js[i].schedule@,
        job_views(js)[i].command == js[i].command@,
{
}

} // verus!
