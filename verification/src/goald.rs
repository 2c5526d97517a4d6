//! The daemon that runs the goals a person started: which goal is picked up, what a run
//! is told, and where a goal goes afterwards.

use vstd::prelude::*;
use vstd::string::*;

use crate::goal::spec::opt_text;
use crate::json::{Json, Tree, entry_from, entry_trees, json_read, no_entries, object, put, read_json, single, text, trees};
use crate::text::{after_prefix, is_among, lemma_next, next_at, same, space, split_once, split_once_of, starts_with, strip_prefix, strs, trim, trim_end_char, trim_end_char_of, trim_of};

verus! {

// ----------------------------------------------------------- pull requests --

/// What the forge says about a pull request.
#[derive(Debug, Clone, Copy, PartialEq, Eq, Structural)]
pub enum PrStatus {
    Open,
    Merged,
    ClosedUnmerged,
}

/// Owner, repository and number of a pull request's URL.
pub open spec fn pr_in(url: Seq<char>) -> Option<(Seq<char>, Seq<char>, Seq<char>)> {
    match after_prefix(trim_end_char_of(trim_of(url), '/'), "https://github.com/"@) {
        None => None,
        Some(rest) => match split_once_of(rest, '/') {
            None => None,
            Some((owner, rest)) => match split_once_of(rest, '/') {
                None => None,
                Some((repo, rest)) => match split_once_of(rest, '/') {
                    None => None,
                    Some((kind, number)) => if kind == "pull"@ {
                        Some((owner, repo, number))
                    } else {
                        None
                    },
                },
            },
        },
    }
}

/// Owner, repository and number of a pull request's URL.
pub fn parse_pr_url(url: &str) -> (r: Option<(String, String, String)>)
    ensures
        (match r {
            Some((a, b, c)) => Some((a@, b@, c@)),
            None => None,
        }) == pr_in(url@),
{
    let t = trim(url);
    let u = trim_end_char(t.as_str(), '/');
    match strip_prefix(u.as_str(), "https://github.com/") {
        None => None,
        Some(rest) => match split_once(rest.as_str(), '/') {
            None => None,
            Some((owner, rest)) => match split_once(rest.as_str(), '/') {
                None => None,
                Some((repo, rest)) => match split_once(rest.as_str(), '/') {
                    None => None,
                    Some((kind, number)) => if same(kind.as_str(), "pull") {
                        Some((owner, repo, number))
                    } else {
                        None
                    },
                },
            },
        },
    }
}

/// A part of a URL: not empty, and without a slash or white space.
pub open spec fn plain_part(s: Seq<char>) -> bool {
    s.len() > 0 && forall|i: int| 0 <= i < s.len() ==> s[i] != '/' && !space(#[trigger] s[i])
}

/// The URL of something with a number in a repository.
pub open spec fn forge_url(
    host: Seq<char>,
    owner: Seq<char>,
    repo: Seq<char>,
    kind: Seq<char>,
    number: Seq<char>,
) -> Seq<char> {
    "https://"@ + host + "/"@ + owner + "/"@ + repo + "/"@ + kind + "/"@ + number
}

/// A text that opens with a part and a slash splits there.
proof fn lemma_part_splits(part: Seq<char>, rest: Seq<char>)
    requires
        plain_part(part),
    ensures
        split_once_of(part + "/"@ + rest, '/') == Some((part, rest)),
{
    reveal_strlit("/");
    let s = part + "/"@ + rest;
    let n = part.len() as int;
    lemma_next(s, '/', 0);
    let i = next_at(s, '/', 0);
    assert(s[n] == '/');
    if i < n {
        assert(s[i] == part[i]);
    }
    assert(i == n);
    assert(s.take(n) =~= part);
    assert(s.skip(n + 1) =~= rest);
}

/// What neither begins nor ends in white space is trimmed to itself, and with one slash
/// behind it to itself too.
proof fn lemma_url_ends(u: Seq<char>)
    requires
        u.len() > 0,
        !space(u[0]),
        !space(u.last()),
        u.last() != '/',
    ensures
        trim_end_char_of(trim_of(u), '/') == u,
        trim_end_char_of(trim_of(u + "/"@), '/') == u,
{
    reveal_strlit("/");
    let v = u + "/"@;
    assert(v[0] == u[0]);
    assert(v.last() == '/');
    assert(v.drop_last() =~= u);
}

/// The URL of a pull request reads back as its owner, its repository and its number, also
/// with a slash behind it; one at another host, one of something else, and one without a
/// number is none.
pub proof fn law_a_pull_request_reads_back(
    host: Seq<char>,
    owner: Seq<char>,
    repo: Seq<char>,
    kind: Seq<char>,
    number: Seq<char>,
)
    requires
        plain_part(host),
        plain_part(owner),
        plain_part(repo),
        plain_part(kind),
        plain_part(number),
    ensures
        ({
            let u = forge_url(host, owner, repo, kind, number);
            let read = if host == "github.com"@ && kind == "pull"@ {
                Some((owner, repo, number))
            } else {
                None
            };
            pr_in(u) == read && pr_in(u + "/"@) == read
        }),
        pr_in("https://github.com/"@ + owner + "/"@ + repo) is None,
{
    reveal_strlit("https://github.com/");
    reveal_strlit("https://");
    reveal_strlit("github.com");
    reveal_strlit("/");
    let u = forge_url(host, owner, repo, kind, number);
    assert(u[0] == 'h');
    assert(!space('h'));
    assert(u.last() == number.last());
    lemma_url_ends(u);
    let behind = owner + "/"@ + (repo + "/"@ + (kind + "/"@ + number));
    let prefix = "https://github.com/"@;
    assert(u =~= "https://"@ + host + "/"@ + behind);
    assert(prefix =~= "https://"@ + "github.com"@ + "/"@);
    if prefix.is_prefix_of(u) {
        let n = host.len() as int;
        assert(u.subrange(0, 19) == prefix);
        assert forall|i: int| 0 <= i < 11 implies #[trigger] u[8 + i] == prefix[8 + i] by {
            assert(u.subrange(0, 19)[8 + i] == prefix[8 + i]);
        }
        assert(u[8 + n] == '/');
        if n < 10 {
            assert(prefix[8 + n] == "github.com"@[n]);
        }
        if n > 10 {
            assert(u[18] == host[10]);
            assert(prefix[18] == '/');
        }
        assert(n == 10);
        assert forall|i: int| 0 <= i < 10 implies host[i] == "github.com"@[i] by {
            assert(u[8 + i] == host[i]);
            assert(prefix[8 + i] == "github.com"@[i]);
        }
        assert(host =~= "github.com"@);
        assert(u.skip(19) =~= behind);
        lemma_part_splits(owner, repo + "/"@ + (kind + "/"@ + number));
        lemma_part_splits(repo, kind + "/"@ + number);
        lemma_part_splits(kind, number);
    } else {
        if host == "github.com"@ {
            assert(u.subrange(0, 19) =~= prefix);
        }
    }
    let short = prefix + owner + "/"@ + repo;
    assert(short[0] == 'h');
    assert(short.last() == repo.last());
    lemma_url_ends(short);
    assert(short.subrange(0, 19) =~= prefix);
    assert(short.skip(19) =~= owner + "/"@ + repo);
    lemma_part_splits(owner, repo);
    lemma_next(repo, '/', 0);
    assert(split_once_of(repo, '/') is None);
}

/// Where the forge is asked about a pull request, or why it cannot be.
pub fn pr_api(url: &str) -> (r: Result<String, String>)
    ensures
        match pr_in(url@) {
            Some((owner, repo, number)) => r matches Ok(u) && u@
                == "https://api.github.com/repos/"@ + owner + "/"@ + repo + "/pulls/"@ + number,
            None => r matches Err(e) && e@ == "`"@ + url@
                + "` does not look like a GitHub PR URL"@,
        },
{
    match parse_pr_url(url) {
        Some((owner, repo, number)) => Ok(
            "https://api.github.com/repos/".to_string().concat(owner.as_str()).concat(
                "/",
            ).concat(repo.as_str()).concat("/pulls/").concat(number.as_str()),
        ),
        None => Err(
            "`".to_string().concat(url).concat("` does not look like a GitHub PR URL"),
        ),
    }
}

/// What the forge's answer says about a pull request.
pub open spec fn status_in(v: Tree) -> PrStatus {
    if v.field("merged"@) == Some(Tree::Bool(true)) {
        PrStatus::Merged
    } else if v.text_field("state"@) == Some("closed"@) {
        PrStatus::ClosedUnmerged
    } else {
        PrStatus::Open
    }
}

/// What the forge's answer says about a pull request.
pub fn pr_status(v: &Json) -> (s: PrStatus)
    ensures
        s == status_in(v@),
{
    let merged = match v.field("merged") {
        Some(m) => match m.truth() {
            Some(b) => b,
            None => false,
        },
        None => false,
    };
    if merged {
        return PrStatus::Merged;
    }
    match v.text_field("state") {
        Some(t) => if same(t.as_str(), "closed") {
            PrStatus::ClosedUnmerged
        } else {
            PrStatus::Open
        },
        None => PrStatus::Open,
    }
}

/// What the forge answered about a pull request, or why nothing is known of it.
pub open spec fn forge_said(
    success: bool,
    shown: Seq<char>,
    reply: Result<Tree, Seq<char>>,
) -> Result<PrStatus, Seq<char>> {
    match reply {
        Err(e) => Err(
            "the GitHub API did not answer with JSON: error decoding response body: "@ + e,
        ),
        Ok(v) => if success {
            Ok(status_in(v))
        } else {
            Err(shown + " from GitHub: "@ + text_or_empty(v, "message"@))
        },
    }
}

/// What a forge's answer that was read says, or why nothing is known. `shown` is how its
/// status is written.
pub fn forge_verdict(success: bool, shown: &str, reply: &Result<Json, String>) -> (r: Result<
    PrStatus,
    String,
>)
    ensures
        (match r {
            Ok(s) => Ok(s),
            Err(e) => Err(e@),
        }) == forge_said(
            success,
            shown@,
            match *reply {
                Ok(j) => Ok(j@),
                Err(e) => Err(e@),
            },
        ),
{
    match reply {
        Err(e) => Err(
            "the GitHub API did not answer with JSON: error decoding response body: ".to_string().concat(
                e.as_str(),
            ),
        ),
        Ok(v) => if success {
            Ok(pr_status(v))
        } else {
            let why = text_at(v, "message");
            Err(shown.to_string().concat(" from GitHub: ").concat(why.as_str()))
        },
    }
}

/// What a forge's answer says, as it came.
pub fn forge_answer(success: bool, shown: &str, raw: &[u8]) -> (r: Result<PrStatus, String>)
    ensures
        (match r {
            Ok(s) => Ok(s),
            Err(e) => Err(e@),
        }) == forge_said(success, shown@, json_read(raw@)),
{
    let reply = read_json(raw);
    forge_verdict(success, shown, &reply)
}

/// What is told to the platform: a path, and a body where there is one.
#[derive(Debug)]
pub struct Post {
    pub path: String,
    pub body: Option<Json>,
}

/// What is told to the platform, as plain values.
pub struct PostView {
    pub path: Seq<char>,
    pub body: Option<Tree>,
}

impl View for Post {
    type V = PostView;

    open spec fn view(&self) -> PostView {
        PostView {
            path: self.path@,
            body: match self.body {
                Some(j) => Some(j@),
                None => None,
            },
        }
    }
}

/// What may be told, as plain values.
pub open spec fn post_view(p: Option<Post>) -> Option<PostView> {
    match p {
        Some(x) => Some(x@),
        None => None,
    }
}

/// A goal that failed, and why.
pub open spec fn fail_post(id: Seq<char>, reason: Seq<char>) -> PostView {
    PostView {
        path: "/api/goals/"@ + id + "/fail"@,
        body: Some(Tree::Object(seq![("reason"@, Tree::Text(reason))])),
    }
}

/// A goal that failed, and why.
pub fn fail(id: &str, reason: &str) -> (p: Post)
    ensures
        p@ == fail_post(id@, reason@),
{
    Post {
        path: "/api/goals/".to_string().concat(id).concat("/fail"),
        body: Some(single("reason", text(reason))),
    }
}

/// What a pull request's fate does to the goal that waits on it: merged, the goal is
/// done; closed, it failed; open, it waits.
pub open spec fn settled(id: Seq<char>, pr: Seq<char>, s: PrStatus) -> Option<PostView> {
    match s {
        PrStatus::Merged => Some(
            PostView { path: "/api/goals/"@ + id + "/done"@, body: None },
        ),
        PrStatus::ClosedUnmerged => Some(
            fail_post(id, "pull request closed without merging: "@ + pr),
        ),
        PrStatus::Open => None,
    }
}

/// What a pull request's fate does to the goal that waits on it.
pub fn sweep_awaiting_human(id: &str, pr: &str, s: PrStatus) -> (r: Option<Post>)
    ensures
        post_view(r) == settled(id@, pr@, s),
{
    match s {
        PrStatus::Merged => Some(
            Post { path: "/api/goals/".to_string().concat(id).concat("/done"), body: None },
        ),
        PrStatus::ClosedUnmerged => {
            let why = "pull request closed without merging: ".to_string().concat(pr);
            Some(fail(id, why.as_str()))
        },
        PrStatus::Open => None,
    }
}

/// A goal is closed only where its pull request was: while that is open, the goal waits
/// for a person.
pub proof fn law_an_open_request_closes_no_goal(id: Seq<char>, pr: Seq<char>, s: PrStatus)
    ensures
        settled(id, pr, s) is Some <==> s != PrStatus::Open,
{
}

// ------------------------------------------------------------------ one goal --

/// The text under a key, or an empty one.
pub open spec fn text_or_empty(v: Tree, key: Seq<char>) -> Seq<char> {
    match v.text_field(key) {
        Some(t) => t,
        None => Seq::empty(),
    }
}

/// The text under a key, or an empty one.
pub fn text_at(v: &Json, key: &str) -> (out: String)
    ensures
        out@ == text_or_empty(v@, key@),
{
    match v.text_field(key) {
        Some(t) => t.clone(),
        None => {
            let s = String::new();
            assert(s@ =~= Seq::<char>::empty());
            s
        },
    }
}

/// The spec that a run is judged against: the one that was frozen when the goal was
/// started, where there is one.
pub open spec fn spec_in(goal: Tree) -> Seq<char> {
    let frozen = text_or_empty(goal, "frozen_spec"@);
    if frozen.len() > 0 {
        frozen
    } else {
        text_or_empty(goal, "spec"@)
    }
}

/// What is done about a goal: run it, or say that it cannot be.
#[derive(Debug)]
pub enum Work {
    /// Run it with these arguments.
    Run(Vec<String>),
    Refuse(Post),
}

/// The arguments of a run.
pub open spec fn run_args(checkout: Seq<char>, repo: Seq<char>, spec_file: Seq<char>, more: Seq<Seq<char>>) -> Seq<
    Seq<char>,
> {
    seq!["--checkout"@, checkout, "--repo"@, repo, "--goal"@, spec_file] + more
}

/// What is done about a goal. One that names no spec fails at once.
pub fn work(goal: &Json, checkout: &str, repo: &str, more: &Vec<String>) -> (w: Work)
    ensures
        match w {
            Work::Run(args) => spec_in(goal@).len() > 0 && strs(args@) == run_args(
                checkout@,
                repo@,
                spec_in(goal@),
                strs(more@),
            ),
            Work::Refuse(p) => spec_in(goal@).len() == 0 && p@ == fail_post(
                text_or_empty(goal@, "id"@),
                "the goal names no spec file — a run needs a goal.toml in the repo"@,
            ),
        },
{
    let frozen = text_at(goal, "frozen_spec");
    let spec_file = if frozen.as_str().is_empty() {
        text_at(goal, "spec")
    } else {
        frozen
    };
    if spec_file.as_str().is_empty() {
        let id = text_at(goal, "id");
        return Work::Refuse(
            fail(
                id.as_str(),
                "the goal names no spec file — a run needs a goal.toml in the repo",
            ),
        );
    }
    let ghost want = run_args(checkout@, repo@, spec_in(goal@), strs(more@));
    let mut args: Vec<String> = Vec::new();
    args.push("--checkout".to_string());
    args.push(checkout.to_string());
    args.push("--repo".to_string());
    args.push(repo.to_string());
    args.push("--goal".to_string());
    args.push(spec_file);
    assert(strs(args@) =~= want.take(6));
    let mut i: usize = 0;
    while i < more.len()
        invariant
            i <= more.len(),
            want == run_args(checkout@, repo@, spec_in(goal@), strs(more@)),
            strs(args@) == want.take(6 + i),
        decreases more.len() - i,
    {
        let ghost o = args@;
        args.push(more[i].clone());
        assert(strs(args@) =~= strs(o).push(more@[i as int]@));
        assert(want[6 + i] == strs(more@)[i as int]);
        assert(want.take(7 + i) =~= want.take(6 + i).push(want[6 + i]));
        i = i + 1;
    }
    assert(want.take(6 + i) =~= want);
    Work::Run(args)
}

/// The pull request that a line of a run's output tells of.
pub fn opened(line: &str) -> (r: Option<String>)
    ensures
        opt_text(r) == after_prefix(trim_of(line@), "PR opened: "@),
{
    let t = trim(line);
    strip_prefix(t.as_str(), "PR opened: ")
}

/// What is told of a run that ended. A pull request is no finished goal: somebody still
/// reads and merges it. A failure is final, and its reason travels with the goal.
pub open spec fn reported(id: Seq<char>, success: bool, pr: Option<Seq<char>>, reason: Seq<char>) -> PostView {
    if success {
        PostView {
            path: "/api/goals/"@ + id + "/review"@,
            body: Some(
                Tree::Object(
                    seq![
                        (
                            "pr"@,
                            match pr {
                                Some(u) => Tree::Text(u),
                                None => Tree::Null,
                            },
                        ),
                    ],
                ),
            ),
        }
    } else {
        fail_post(id, reason)
    }
}

/// What is told of a run that ended.
pub fn report(id: &str, success: bool, pr: &Option<String>, reason: &str) -> (p: Post)
    ensures
        p@ == reported(id@, success, opt_text(*pr), reason@),
{
    if success {
        let j = match pr {
            Some(u) => text(u.as_str()),
            None => Json::Null,
        };
        Post {
            path: "/api/goals/".to_string().concat(id).concat("/review"),
            body: Some(single("pr", j)),
        }
    } else {
        fail(id, reason)
    }
}

// ------------------------------------------------------------------ the loop --

/// Is a failed call tried again? Only one that was not let in, and only where there is
/// something to sign back in with.
pub fn renews(error: &str, can_sign_in: bool) -> (r: bool)
    ensures
        r == ("401"@.is_prefix_of(error@) && can_sign_in),
{
    starts_with(error, "401") && can_sign_in
}

/// What is sent to sign back in.
pub open spec fn login_tree(email: Seq<char>, password: Seq<char>) -> Tree {
    Tree::Object(seq![("email"@, Tree::Text(email)), ("password"@, Tree::Text(password))])
}

/// Signing back in sends the address and the password, each under its own name.
pub proof fn law_signing_in_sends_who_and_what(email: Seq<char>, password: Seq<char>)
    ensures
        login_tree(email, password).field("email"@) == Some(Tree::Text(email)),
        login_tree(email, password).field("password"@) == Some(Tree::Text(password)),
{
    reveal_with_fuel(entry_from, 3);
    reveal_strlit("email");
    reveal_strlit("password");
    assert("email"@.len() == 5);
    assert("password"@.len() == 8);
}

/// What is sent to sign back in.
pub fn login_body(email: &str, password: &str) -> (j: Json)
    ensures
        j@ == login_tree(email@, password@),
        j@.field("email"@) == Some(Tree::Text(email@)),
        j@.field("password"@) == Some(Tree::Text(password@)),
{
    proof {
        law_signing_in_sends_who_and_what(email@, password@);
    }
    let mut v = no_entries();
    put(&mut v, "email", text(email));
    put(&mut v, "password", text(password));
    assert(entry_trees(v@) =~= login_tree(email@, password@)->Object_0);
    object(v)
}

/// The token that signing in gave, or why it gave none.
pub open spec fn renewed_of(reply: Tree) -> Result<Seq<char>, Seq<char>> {
    let token = text_or_empty(reply, "token"@);
    if token.len() == 0 {
        Err("the platform returned no token"@)
    } else {
        Ok(token)
    }
}

/// The token that signing in gave, or why it gave none.
pub fn renewed(reply: &Json) -> (r: Result<String, String>)
    ensures
        (match r {
            Ok(t) => Ok(t@),
            Err(e) => Err(e@),
        }) == renewed_of(reply@),
{
    let token = text_at(reply, "token");
    if token.as_str().is_empty() {
        Err("the platform returned no token".to_string())
    } else {
        Ok(token)
    }
}

/// The token that signing in gave, out of the reply as it came, or why it gave none.
pub fn renewed_by(raw: &[u8]) -> (r: Result<String, String>)
    ensures
        (match r {
            Ok(t) => Ok(t@),
            Err(e) => Err(e@),
        }) == match json_read(raw@) {
            Ok(t) => renewed_of(t),
            Err(e) => Err("error decoding response body: "@ + e),
        },
{
    match read_json(raw) {
        Ok(j) => renewed(&j),
        Err(e) => Err("error decoding response body: ".to_string().concat(e.as_str())),
    }
}

/// What is said of a call that the platform did not answer with success.
pub fn refused_call(status: &str, path: &str, body: &str) -> (out: String)
    ensures
        out@ == status@ + " from "@ + path@ + ": "@ + trim_of(body@),
{
    status.to_string().concat(" from ").concat(path).concat(": ").concat(trim(body).as_str())
}

/// A call is tried again only by its own refusal: the text of a refused call begins with
/// its status.
pub proof fn law_a_refusal_begins_with_its_status(status: Seq<char>, rest: Seq<char>)
    requires
        "401"@.is_prefix_of(status),
    ensures
        "401"@.is_prefix_of(status + rest),
{
    let n = "401"@.len() as int;
    assert((status + rest).subrange(0, n) =~= status.subrange(0, n));
}

/// Where the goals of a project in one state are listed.
pub fn goals_path(project: &str, state: &str) -> (out: String)
    ensures
        out@ == "/api/projects/"@ + project@ + "/goals?state="@ + state@,
{
    "/api/projects/".to_string().concat(project).concat("/goals?state=").concat(state)
}

/// The platform that is called, as the operator or the credentials say.
pub open spec fn platform_of(chosen: Option<Seq<char>>, credentials: Tree) -> Seq<char> {
    match chosen {
        Some(u) => u,
        None => match credentials.text_field("url"@) {
            Some(u) => u,
            None => "http://127.0.0.1:8080"@,
        },
    }
}

/// The platform that is called: what the operator said, else what the credentials name.
pub fn platform_url(chosen: Option<String>, credentials: &Json) -> (out: String)
    ensures
        out@ == platform_of(opt_text(chosen), credentials@),
{
    match chosen {
        Some(u) => u,
        None => match credentials.text_field("url") {
            Some(u) => u.clone(),
            None => "http://127.0.0.1:8080".to_string(),
        },
    }
}

/// The platform that is called and the token for it, out of a credentials file as it was
/// read, or why it is no JSON.
pub fn read_session(raw: &[u8], chosen: Option<String>) -> (r: Result<(String, String), String>)
    ensures
        (match r {
            Ok((url, token)) => Ok((url@, token@)),
            Err(e) => Err(e@),
        }) == match json_read(raw@) {
            Ok(t) => Ok::<(Seq<char>, Seq<char>), Seq<char>>(
                (platform_of(opt_text(chosen), t), text_or_empty(t, "token"@)),
            ),
            Err(e) => Err(e),
        },
{
    match read_json(raw) {
        Ok(j) => {
            let token = text_at(&j, "token");
            Ok((platform_url(chosen, &j), token))
        },
        Err(e) => Err(e),
    }
}

/// The goals that the platform listed; none where it listed none.
pub fn goals_in(reply: Json) -> (out: Vec<Json>)
    ensures
        trees(out@) == match reply@.field("goals"@) {
            Some(l) => l.items(),
            None => Seq::empty(),
        },
{
    match reply.into_field("goals") {
        Some(l) => l.into_items(),
        None => {
            let none: Vec<Json> = Vec::new();
            assert(trees(none@) =~= Seq::<Tree>::empty());
            none
        },
    }
}

/// Where a call goes.
pub fn call_url(url: &str, path: &str) -> (out: String)
    ensures
        out@ == trim_end_char_of(url@, '/') + path@,
{
    trim_end_char(url, '/').concat(path)
}

/// The goals that this daemon has taken, and those that it holds back until the model is
/// cheaper.
#[derive(Debug, PartialEq, Eq)]
pub struct Claims {
    pub claimed: Vec<String>,
    pub deferred: Vec<String>,
}

/// What is done about a goal that a person started.
#[derive(Debug, Clone, Copy, PartialEq, Eq, Structural)]
pub enum Pick {
    /// It has no id, or it was taken before.
    Skip,
    /// It waits, and that is news.
    Defer,
    /// It still waits.
    Wait,
    /// It starts.
    Start,
    /// It starts, after having waited.
    Resume,
}

/// What is done about a goal that a person started.
pub open spec fn picked(c: Claims, id: Seq<char>, defer: bool) -> Pick {
    if id.len() == 0 || strs(c.claimed@).contains(id) {
        Pick::Skip
    } else if defer {
        if strs(c.deferred@).contains(id) {
            Pick::Wait
        } else {
            Pick::Defer
        }
    } else if strs(c.deferred@).contains(id) {
        Pick::Resume
    } else {
        Pick::Start
    }
}

/// A list without a text.
pub open spec fn without(v: Seq<Seq<char>>, t: Seq<char>) -> Seq<Seq<char>> {
    v.filter(|s: Seq<char>| s != t)
}

fn remove(v: &Vec<String>, t: &str) -> (out: Vec<String>)
    ensures
        strs(out@) == without(strs(v@), t@),
{
    let ghost all = strs(v@);
    let ghost keep = |s: Seq<char>| s != t@;
    let mut out: Vec<String> = Vec::new();
    let mut i: usize = 0;
    assert(strs(out@) =~= all.take(0).filter(keep)) by {
        reveal(Seq::filter);
    }
    while i < v.len()
        invariant
            i <= v.len(),
            all == strs(v@),
            keep == (|s: Seq<char>| s != t@),
            strs(out@) == all.take(i as int).filter(keep),
        decreases v.len() - i,
    {
        proof {
            assert(all.take(i + 1).drop_last() =~= all.take(i as int));
            assert(all.take(i + 1).last() == v@[i as int]@);
            reveal(Seq::filter);
        }
        if !same(v[i].as_str(), t) {
            let ghost o = out@;
            out.push(v[i].clone());
            assert(strs(out@) =~= strs(o).push(v@[i as int]@));
        }
        i = i + 1;
    }
    assert(all.take(i as int) =~= all);
    out
}

impl Claims {
    /// Nothing taken yet.
    pub fn new() -> (c: Claims)
        ensures
            strs(c.claimed@) == Seq::<Seq<char>>::empty(),
            strs(c.deferred@) == Seq::<Seq<char>>::empty(),
    {
        let c = Claims { claimed: Vec::new(), deferred: Vec::new() };
        assert(strs(c.claimed@) =~= Seq::<Seq<char>>::empty());
        assert(strs(c.deferred@) =~= Seq::<Seq<char>>::empty());
        c
    }

    /// Decide about a goal, and take note of the decision.
    pub fn pick(&mut self, id: &str, defer: bool) -> (p: Pick)
        ensures
            p == picked(*old(self), id@, defer),
            strs(final(self).claimed@) == match p {
                Pick::Start => strs(old(self).claimed@).push(id@),
                Pick::Resume => strs(old(self).claimed@).push(id@),
                _ => strs(old(self).claimed@),
            },
            strs(final(self).deferred@) == match p {
                Pick::Defer => strs(old(self).deferred@).push(id@),
                Pick::Resume => without(strs(old(self).deferred@), id@),
                _ => strs(old(self).deferred@),
            },
    {
        if id.is_empty() || is_among(&self.claimed, id) {
            return Pick::Skip;
        }
        let waited = is_among(&self.deferred, id);
        if defer {
            if waited {
                return Pick::Wait;
            }
            let ghost o = self.deferred@;
            self.deferred.push(id.to_string());
            assert(strs(self.deferred@) =~= strs(o).push(id@));
            return Pick::Defer;
        }
        let ghost o = self.claimed@;
        self.claimed.push(id.to_string());
        assert(strs(self.claimed@) =~= strs(o).push(id@));
        if waited {
            self.deferred = remove(&self.deferred, id);
            Pick::Resume
        } else {
            Pick::Start
        }
    }
}

/// A goal that was started is not started again, whatever the platform still says.
pub proof fn law_a_goal_starts_once(before: Claims, after: Claims, id: Seq<char>, defer: bool)
    requires
        strs(after.claimed@) == strs(before.claimed@).push(id),
    ensures
        picked(after, id, defer) == Pick::Skip,
{
    assert(strs(after.claimed@).last() == id);
    assert(strs(after.claimed@).contains(id));
}

/// A goal may start: it has an id and was not taken before.
pub open spec fn startable(claimed: Seq<Seq<char>>, id: Seq<char>) -> bool {
    id.len() > 0 && !claimed.contains(id)
}

/// What is said of a goal that begins to wait, or that starts after it waited: once, and
/// not at every pass.
pub open spec fn pick_line_of(p: Pick, id: Seq<char>, model: Seq<char>) -> Seq<Seq<char>> {
    match p {
        Pick::Defer => seq![
            "[goald] "@ + id + " DEFERRED: "@ + model
                + " is peak-priced right now, waiting for off-peak"@,
        ],
        Pick::Resume => seq!["[goald] "@ + id + " off-peak now, starting"@],
        _ => Seq::empty(),
    }
}

/// A pass over the goals of a project: what is taken and held back after it, what starts,
/// and what is said of it.
pub struct Pass {
    pub claimed: Seq<Seq<char>>,
    pub deferred: Seq<Seq<char>>,
    pub started: Seq<Seq<char>>,
    pub lines: Seq<Seq<char>>,
}

/// Goals as plain values: the id of each, and whether its model is too dear now.
pub open spec fn goal_views(goals: Seq<(String, bool)>) -> Seq<(Seq<char>, bool)> {
    goals.map_values(|g: (String, bool)| (g.0@, g.1))
}

/// One pass over the goals from `i` on, with `free` places. A goal that is held back takes
/// no place, so that it does not starve one that could start.
pub open spec fn dispatched(
    claimed: Seq<Seq<char>>,
    deferred: Seq<Seq<char>>,
    goals: Seq<(Seq<char>, bool)>,
    i: int,
    free: int,
    model: Seq<char>,
) -> Pass
    decreases goals.len() - i,
{
    if i < 0 || i >= goals.len() || free <= 0 {
        Pass { claimed, deferred, started: Seq::empty(), lines: Seq::empty() }
    } else {
        let (id, dear) = goals[i];
        let waited = deferred.contains(id);
        if !startable(claimed, id) || dear && waited {
            dispatched(claimed, deferred, goals, i + 1, free, model)
        } else if dear {
            let r = dispatched(claimed, deferred.push(id), goals, i + 1, free, model);
            Pass { lines: pick_line_of(Pick::Defer, id, model) + r.lines, ..r }
        } else if waited {
            let held = without(deferred, id);
            let r = dispatched(claimed.push(id), held, goals, i + 1, free - 1, model);
            Pass {
                started: seq![id] + r.started,
                lines: pick_line_of(Pick::Resume, id, model) + r.lines,
                ..r
            }
        } else {
            let r = dispatched(claimed.push(id), deferred, goals, i + 1, free - 1, model);
            Pass { started: seq![id] + r.started, ..r }
        }
    }
}

fn put_pick_line(lines: &mut Vec<String>, p: Pick, id: &str, model: &str)
    ensures
        strs(final(lines)@) == strs(old(lines)@) + pick_line_of(p, id@, model@),
{
    let ghost o = lines@;
    match p {
        Pick::Defer => {
            let l = "[goald] ".to_string().concat(id).concat(" DEFERRED: ").concat(model).concat(
                " is peak-priced right now, waiting for off-peak",
            );
            lines.push(l);
            assert(strs(lines@) =~= strs(o) + seq![l@]);
        },
        Pick::Resume => {
            let l = "[goald] ".to_string().concat(id).concat(" off-peak now, starting");
            lines.push(l);
            assert(strs(lines@) =~= strs(o) + seq![l@]);
        },
        _ => {
            assert(strs(lines@) =~= strs(o) + Seq::<Seq<char>>::empty());
        },
    }
}

/// The goals that start in one pass with `free` places, and what is said of those that are
/// held back or no longer are. `model` is what the goals are run with.
pub fn dispatch(claims: &mut Claims, goals: &Vec<(String, bool)>, free: usize, model: &str) -> (r: (
    Vec<String>,
    Vec<String>,
))
    ensures
        ({
            let pass = dispatched(
                strs(old(claims).claimed@),
                strs(old(claims).deferred@),
                goal_views(goals@),
                0,
                free as int,
                model@,
            );
            &&& strs(final(claims).claimed@) == pass.claimed
            &&& strs(final(claims).deferred@) == pass.deferred
            &&& strs(r.0@) == pass.started
            &&& strs(r.1@) == pass.lines
        }),
{
    let ghost all = goal_views(goals@);
    let ghost whole = dispatched(
        strs(claims.claimed@),
        strs(claims.deferred@),
        all,
        0,
        free as int,
        model@,
    );
    let mut started: Vec<String> = Vec::new();
    let mut lines: Vec<String> = Vec::new();
    let mut i: usize = 0;
    assert(strs(started@) + whole.started =~= whole.started);
    assert(strs(lines@) + whole.lines =~= whole.lines);
    while i < goals.len() && started.len() < free
        invariant
            i <= goals.len(),
            started@.len() <= free,
            all == goal_views(goals@),
            ({
                let r = dispatched(
                    strs(claims.claimed@),
                    strs(claims.deferred@),
                    all,
                    i as int,
                    free - started@.len(),
                    model@,
                );
                &&& whole.claimed == r.claimed
                &&& whole.deferred == r.deferred
                &&& whole.started == strs(started@) + r.started
                &&& whole.lines == strs(lines@) + r.lines
            }),
        decreases goals.len() - i,
    {
        let ghost o = strs(started@);
        let ghost said = strs(lines@);
        let (id, dear) = (&goals[i].0, goals[i].1);
        assert(all[i as int] == (id@, dear));
        let p = claims.pick(id.as_str(), dear);
        put_pick_line(&mut lines, p, id.as_str(), model);
        match p {
            Pick::Start | Pick::Resume => {
                started.push(id.clone());
                assert(strs(started@) =~= o.push(id@));
            },
            _ => {},
        }
        proof {
            let r = dispatched(
                strs(claims.claimed@),
                strs(claims.deferred@),
                all,
                i + 1,
                free - started@.len(),
                model@,
            );
            let line = pick_line_of(p, id@, model@);
            assert(said + (line + r.lines) =~= strs(lines@) + r.lines);
            assert(o + (seq![id@] + r.started) =~= o.push(id@) + r.started);
        }
        i = i + 1;
    }
    assert(strs(started@) + Seq::<Seq<char>>::empty() =~= strs(started@));
    assert(strs(lines@) + Seq::<Seq<char>>::empty() =~= strs(lines@));
    (started, lines)
}

/// A pass never starts more goals than there are places, starts none that was taken before
/// it or whose model is too dear, and takes exactly what it starts.
pub proof fn law_a_pass_keeps_to_its_places(
    claimed: Seq<Seq<char>>,
    deferred: Seq<Seq<char>>,
    goals: Seq<(Seq<char>, bool)>,
    i: int,
    free: int,
    model: Seq<char>,
)
    requires
        free >= 0,
    ensures
        ({
            let p = dispatched(claimed, deferred, goals, i, free, model);
            &&& p.started.len() <= free
            &&& p.claimed == claimed + p.started
            &&& forall|k: int|
                0 <= k < p.started.len() ==> startable(claimed, #[trigger] p.started[k])
                    && goals.contains((p.started[k], false))
        }),
    decreases goals.len() - i,
{
    let p = dispatched(claimed, deferred, goals, i, free, model);
    if i < 0 || i >= goals.len() || free <= 0 {
        assert(claimed + p.started =~= claimed);
    } else {
        let (id, dear) = goals[i];
        let waited = deferred.contains(id);
        if !startable(claimed, id) || dear && waited {
            law_a_pass_keeps_to_its_places(claimed, deferred, goals, i + 1, free, model);
        } else if dear {
            law_a_pass_keeps_to_its_places(claimed, deferred.push(id), goals, i + 1, free, model);
        } else {
            let held = if waited {
                without(deferred, id)
            } else {
                deferred
            };
            let more = claimed.push(id);
            law_a_pass_keeps_to_its_places(more, held, goals, i + 1, free - 1, model);
            let r = dispatched(more, held, goals, i + 1, free - 1, model);
            let s = p.started;
            assert(more + r.started =~= claimed + s);
            assert forall|k: int| 0 <= k < s.len() implies startable(claimed, #[trigger] s[k])
                && goals.contains((s[k], false)) by {
                if k > 0 {
                    assert(s[k] == r.started[k - 1]);
                    assert(startable(more, r.started[k - 1]));
                    if claimed.contains(s[k]) {
                        let j = choose|j: int| 0 <= j < claimed.len() && claimed[j] == s[k];
                        assert(more[j] == s[k]);
                    }
                } else {
                    assert(goals[i] == (s[0], false));
                }
            }
        }
    }
}

/// A goal that is held back is spoken of once: at a second pass over the same goals, with
/// every model still too dear, nothing is said and nothing starts.
pub proof fn law_a_wait_is_told_once(
    claimed: Seq<Seq<char>>,
    deferred: Seq<Seq<char>>,
    goals: Seq<(Seq<char>, bool)>,
    i: int,
    free: int,
    model: Seq<char>,
)
    requires
        0 <= i <= goals.len(),
        free > 0,
        forall|k: int| i <= k < goals.len() ==> (#[trigger] goals[k]).1,
    ensures
        ({
            let p = dispatched(claimed, deferred, goals, i, free, model);
            let q = dispatched(p.claimed, p.deferred, goals, i, free, model);
            &&& p.started.len() == 0
            &&& q.started.len() == 0
            &&& q.lines.len() == 0
            &&& q.deferred == p.deferred
        }),
{
    lemma_all_dear(claimed, deferred, goals, i, free, model);
    let p = dispatched(claimed, deferred, goals, i, free, model);
    lemma_all_waiting(claimed, p.deferred, goals, i, free, model);
}

proof fn lemma_all_dear(
    claimed: Seq<Seq<char>>,
    deferred: Seq<Seq<char>>,
    goals: Seq<(Seq<char>, bool)>,
    i: int,
    free: int,
    model: Seq<char>,
)
    requires
        0 <= i <= goals.len(),
        free > 0,
        forall|k: int| i <= k < goals.len() ==> (#[trigger] goals[k]).1,
    ensures
        ({
            let p = dispatched(claimed, deferred, goals, i, free, model);
            &&& p.started.len() == 0
            &&& p.claimed == claimed
            &&& forall|t: Seq<char>| deferred.contains(t) ==> #[trigger] p.deferred.contains(t)
            &&& forall|k: int|
                i <= k < goals.len() && startable(claimed, (#[trigger] goals[k]).0)
                    ==> p.deferred.contains(goals[k].0)
        }),
    decreases goals.len() - i,
{
    if i < goals.len() {
        let id = goals[i].0;
        let held = if startable(claimed, id) && !deferred.contains(id) {
            deferred.push(id)
        } else {
            deferred
        };
        lemma_all_dear(claimed, held, goals, i + 1, free, model);
        assert forall|t: Seq<char>| deferred.contains(t) implies #[trigger] held.contains(t) by {
            let j = choose|j: int| 0 <= j < deferred.len() && deferred[j] == t;
            assert(held[j] == t);
        }
        if startable(claimed, id) && !deferred.contains(id) {
            assert(held.last() == id);
        }
    }
}

proof fn lemma_all_waiting(
    claimed: Seq<Seq<char>>,
    deferred: Seq<Seq<char>>,
    goals: Seq<(Seq<char>, bool)>,
    i: int,
    free: int,
    model: Seq<char>,
)
    requires
        0 <= i <= goals.len(),
        forall|k: int| i <= k < goals.len() ==> (#[trigger] goals[k]).1,
        forall|k: int|
            i <= k < goals.len() && startable(claimed, (#[trigger] goals[k]).0)
                ==> deferred.contains(goals[k].0),
    ensures
        ({
            let p = dispatched(claimed, deferred, goals, i, free, model);
            &&& p.started.len() == 0
            &&& p.lines.len() == 0
            &&& p.deferred == deferred
        }),
    decreases goals.len() - i,
{
    if i < goals.len() && free > 0 {
        lemma_all_waiting(claimed, deferred, goals, i + 1, free, model);
    }
}

/// How many runs may start now.
pub fn free_runs(max_runs: usize, running: usize, stopping: bool) -> (n: usize)
    ensures
        n == if stopping || running >= max_runs {
            0
        } else {
            max_runs - running
        },
{
    if stopping || running >= max_runs {
        0
    } else {
        max_runs - running
    }
}

/// Is the daemon done? After one pass where that was asked, or once it drains and
/// nothing runs.
pub fn finished(once: bool, stopping: bool, running: usize) -> (r: bool)
    ensures
        r == (once || (stopping && running == 0)),
{
    once || (stopping && running == 0)
}

// --------------------------------------------------------------------- laws --

/// A pull request is merged exactly where the forge says so; otherwise it is closed where its
/// state is, and open in every other case.
pub proof fn law_what_a_pull_request_is(v: Tree)
    ensures
        status_in(v) == PrStatus::Merged <==> v.field("merged"@) == Some(Tree::Bool(true)),
        status_in(v) == PrStatus::ClosedUnmerged <==> v.field("merged"@) != Some(Tree::Bool(true))
            && v.text_field("state"@) == Some("closed"@),
        status_in(v) == PrStatus::Open <==> v.field("merged"@) != Some(Tree::Bool(true))
            && v.text_field("state"@) != Some("closed"@),
{
}

/// The forge's word counts only where the call succeeded and could be read.
pub proof fn law_when_the_forge_is_heard(success: bool, shown: Seq<char>, reply: Result<Tree, Seq<char>>)
    ensures
        forge_said(success, shown, reply) is Ok <==> success && reply is Ok,
        success && reply is Ok ==> forge_said(success, shown, reply)->Ok_0 == status_in(reply->Ok_0),
{
}

/// A goal whose request was merged is done, and one whose request was closed has failed, with
/// the request named; each is said of that very goal.
pub proof fn law_how_a_waiting_goal_ends(id: Seq<char>, pr: Seq<char>)
    ensures
        settled(id, pr, PrStatus::Merged) is Some,
        settled(id, pr, PrStatus::Merged)->0.path == "/api/goals/"@ + id + "/done"@,
        settled(id, pr, PrStatus::Merged)->0.body is None,
        settled(id, pr, PrStatus::ClosedUnmerged) is Some,
        settled(id, pr, PrStatus::ClosedUnmerged)->0.path == "/api/goals/"@ + id + "/fail"@,
        settled(id, pr, PrStatus::ClosedUnmerged)->0.body is Some,
        settled(id, pr, PrStatus::ClosedUnmerged)->0.body->0.field("reason"@) == Some(
            Tree::Text("pull request closed without merging: "@ + pr),
        ),
        settled(id, pr, PrStatus::Open) is None,
{
}

/// A run that succeeded puts its goal up for review and hands over the pull request; one that
/// did not fails the goal and hands over the reason.
pub proof fn law_how_a_run_is_reported(
    id: Seq<char>,
    success: bool,
    pr: Option<Seq<char>>,
    reason: Seq<char>,
)
    ensures
        success ==> reported(id, success, pr, reason).path == "/api/goals/"@ + id + "/review"@,
        !success ==> reported(id, success, pr, reason).path == "/api/goals/"@ + id + "/fail"@,
        reported(id, success, pr, reason).body is Some,
        success && pr is Some ==> reported(id, success, pr, reason).body->0.field("pr"@) == Some(
            Tree::Text(pr->0),
        ),
        success && pr is None ==> reported(id, success, pr, reason).body->0.field("pr"@) == Some(
            Tree::Null,
        ),
        !success ==> reported(id, success, pr, reason).body->0.field("reason"@) == Some(
            Tree::Text(reason),
        ),
{
}

/// A goal is run from its frozen spec where it has one, else from its spec; and the run is
/// told the checkout, the repository and that spec, each by its own name.
pub proof fn law_what_a_run_is_told(
    goal: Tree,
    checkout: Seq<char>,
    repo: Seq<char>,
    more: Seq<Seq<char>>,
)
    ensures
        goal.text_field("frozen_spec"@) is Some && goal.text_field("frozen_spec"@)->0.len() > 0
            ==> Some(spec_in(goal)) == goal.text_field("frozen_spec"@),
        (goal.text_field("frozen_spec"@) is None || goal.text_field("frozen_spec"@)->0.len() == 0)
            && goal.text_field("spec"@) is Some ==> Some(spec_in(goal)) == goal.text_field("spec"@),
        run_args(checkout, repo, spec_in(goal), more)[0] == "--checkout"@,
        run_args(checkout, repo, spec_in(goal), more)[1] == checkout,
        run_args(checkout, repo, spec_in(goal), more)[2] == "--repo"@,
        run_args(checkout, repo, spec_in(goal), more)[3] == repo,
        run_args(checkout, repo, spec_in(goal), more)[4] == "--goal"@,
        run_args(checkout, repo, spec_in(goal), more)[5] == spec_in(goal),
        run_args(checkout, repo, spec_in(goal), more).skip(6) == more,
{
    assert(run_args(checkout, repo, spec_in(goal), more).skip(6) =~= more);
}

/// What is done with a goal: one that was claimed, or that has no name, is passed over; while
/// the model is dear a goal waits, told of once; otherwise it starts.
pub proof fn law_what_is_done_with_a_goal(c: Claims, id: Seq<char>, defer: bool)
    ensures
        picked(c, id, defer) == Pick::Skip <==> id.len() == 0 || strs(c.claimed@).contains(id),
        picked(c, id, defer) == Pick::Start || picked(c, id, defer) == Pick::Resume <==> id.len() > 0
            && !strs(c.claimed@).contains(id) && !defer,
        picked(c, id, defer) == Pick::Resume ==> strs(c.deferred@).contains(id),
        picked(c, id, defer) == Pick::Start ==> !strs(c.deferred@).contains(id),
        picked(c, id, defer) == Pick::Defer <==> id.len() > 0 && !strs(c.claimed@).contains(id)
            && defer && !strs(c.deferred@).contains(id),
        picked(c, id, defer) == Pick::Wait <==> id.len() > 0 && !strs(c.claimed@).contains(id)
            && defer && strs(c.deferred@).contains(id),
{
}

/// While there is a place, the next goal that may start and is not dear is started first, and
/// is claimed from then on.
pub proof fn law_the_next_goal_is_started(
    claimed: Seq<Seq<char>>,
    deferred: Seq<Seq<char>>,
    goals: Seq<(Seq<char>, bool)>,
    i: int,
    free: int,
    model: Seq<char>,
)
    requires
        0 <= i < goals.len(),
        free > 0,
        goals[i].0.len() > 0,
        !claimed.contains(goals[i].0),
        !goals[i].1,
    ensures
        dispatched(claimed, deferred, goals, i, free, model).started.len() > 0,
        dispatched(claimed, deferred, goals, i, free, model).started[0] == goals[i].0,
        dispatched(claimed, deferred, goals, i, free, model).claimed.contains(goals[i].0),
{
    let p = dispatched(claimed, deferred, goals, i, free, model);
    law_a_pass_keeps_to_its_places(claimed, deferred, goals, i, free, model);
    assert(p.claimed[claimed.len() as int] == p.started[0]);
}

/// The platform is the one that was chosen, else the one that was signed in to.
pub proof fn law_which_platform_is_called(chosen: Option<Seq<char>>, credentials: Tree)
    ensures
        chosen is Some ==> platform_of(chosen, credentials) == chosen->0,
        chosen is None && credentials.text_field("url"@) is Some ==> platform_of(chosen, credentials)
            == credentials.text_field("url"@)->0,
        renewed_of(credentials) is Ok <==> credentials.text_field("token"@) is Some
            && credentials.text_field("token"@)->0.len() > 0,
        renewed_of(credentials) is Ok ==> Some(renewed_of(credentials)->Ok_0)
            == credentials.text_field("token"@),
{
}

/// What is told of a pick: that a goal waits and for which model, or that it goes on; and
/// nothing of any other.
pub proof fn law_what_is_told_of_a_pick(p: Pick, id: Seq<char>, model: Seq<char>)
    ensures
        pick_line_of(p, id, model).len() > 0 <==> p == Pick::Defer || p == Pick::Resume,
        p == Pick::Defer ==> pick_line_of(p, id, model)[0] == "[goald] "@ + id + " DEFERRED: "@
            + model + " is peak-priced right now, waiting for off-peak"@,
        p == Pick::Resume ==> pick_line_of(p, id, model)[0] == "[goald] "@ + id
            + " off-peak now, starting"@,
{
}

/// A post is seen by its path and its body.
pub proof fn law_a_post_is_seen_whole(p: Post)
    ensures
        p@.path == p.path@,
        p@.body is Some <==> p.body is Some,
        p.body is Some ==> p@.body->Some_0 == p.body->Some_0@,
        post_view(Some(p)) == Some(p@),
        post_view(None) is None,
{
}

/// A failure is posted to the goal that failed, with the reason.
pub proof fn law_a_failure_is_posted_to_its_goal(id: Seq<char>, reason: Seq<char>)
    ensures
        fail_post(id, reason).path == "/api/goals/"@ + id + "/fail"@,
        fail_post(id, reason).body is Some,
{
}

} // verus!
