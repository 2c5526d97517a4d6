//! What a run sets up before it spends anything: the fixtures its fleet is started
//! from, the secrets granted to them, the artifacts they name, and the environment
//! that its checks run in.

use vstd::prelude::*;
use vstd::string::*;

use crate::digest::{sha256, sha256_of};
use crate::docker::or_empty;
use crate::goal::spec::{CheckSpec, GoalSpec, opt_text};
use crate::number::{dec, dec_of, hex, hex_of};
use crate::path::{below, join_name};
use crate::text::{alphanumeric, before_char, before_char_of, chars_of, find_chars, find_from, replace, replace_of, same, slice_text, strs, trim_end_char, trim_end_char_of};

verus! {

/// The fixtures that a run's fleet is started from, the secrets granted to them, and
/// the artifacts they name.
#[derive(Debug, PartialEq, Eq)]
pub struct Deployment {
    pub specs: Vec<String>,
    pub secrets: Vec<String>,
    pub artifacts: Vec<String>,
}

/// What the operator chose for a run's deployment. Secrets are paths of files.
#[derive(Debug, PartialEq, Eq)]
pub struct DeployArgs {
    pub provider: String,
    pub llm_base_url: String,
    pub model: String,
    pub answer_model: String,
    pub max_tokens: u32,
    pub timeout: u64,
    pub repo: String,
    pub llm_key: String,
    pub github_token: String,
    pub surreal_url: Option<String>,
    pub surreal_password: Option<String>,
}

/// Where the check runner is reached.
#[derive(Debug, PartialEq, Eq)]
pub struct Runner {
    pub url: String,
    pub authority: String,
    pub token_file: String,
}

/// A fixture and what its placeholders are filled with.
#[derive(Debug, PartialEq, Eq)]
pub struct Fixture {
    pub name: String,
    pub subs: Vec<(String, String)>,
}

/// What a fixture says.
#[verifier::ext_equal]
pub struct FixtureView {
    pub name: Seq<char>,
    pub subs: Seq<(Seq<char>, Seq<char>)>,
}

/// The views of a list of pairs.
pub open spec fn pair_views(v: Seq<(String, String)>) -> Seq<(Seq<char>, Seq<char>)> {
    v.map_values(|p: (String, String)| (p.0@, p.1@))
}

impl View for Fixture {
    type V = FixtureView;

    open spec fn view(&self) -> FixtureView {
        FixtureView { name: self.name@, subs: pair_views(self.subs@) }
    }
}

/// The views of a list of fixtures.
pub open spec fn fixture_views(v: Seq<Fixture>) -> Seq<FixtureView> {
    v.map_values(|f: Fixture| f@)
}

// ------------------------------------------------------------ addresses --

/// Where the model is reached: where the operator says, or where its provider is.
pub open spec fn base_url_of(args: DeployArgs) -> Seq<char> {
    if args.llm_base_url@.len() > 0 {
        args.llm_base_url@
    } else if args.provider@ == "openai"@ {
        "https://api.openai.com/v1"@
    } else {
        "https://api.anthropic.com"@
    }
}

/// Where the model is reached.
pub fn base_url(args: &DeployArgs) -> (out: String)
    ensures
        out@ == base_url_of(*args),
{
    if !args.llm_base_url.as_str().is_empty() {
        args.llm_base_url.clone()
    } else if same(args.provider.as_str(), "openai") {
        "https://api.openai.com/v1".to_string()
    } else {
        "https://api.anthropic.com".to_string()
    }
}

/// The authority of a URL: without its scheme and without its path, the port kept.
pub open spec fn authority_of(url: Seq<char>) -> Seq<char> {
    match find_from(url, "://"@, 0) {
        Some(i) => before_char_of(url.skip(i + 3), '/'),
        None => before_char_of(url, '/'),
    }
}

/// The entry of the allow-list for a base URL: its authority, port and all.
pub fn egress_authority(url: &str) -> (out: String)
    ensures
        out@ == authority_of(url@),
{
    let cs = chars_of(url);
    let mark = chars_of("://");
    proof {
        reveal_strlit("://");
    }
    match find_chars(&cs, &mark, 0) {
        Some(i) => {
            let rest = slice_text(&cs, i + 3, cs.len());
            assert(rest@ =~= url@.skip(i + 3));
            before_char(rest.as_str(), '/')
        },
        None => before_char(url, '/'),
    }
}

/// The socket that a database is dialled at: what stands between the first and a
/// second `://`, up to a slash; the whole text where there is no scheme.
pub open spec fn socket_of(url: Seq<char>) -> Seq<char> {
    match find_from(url, "://"@, 0) {
        Some(i) => {
            let rest = url.skip(i + 3);
            let part = match find_from(rest, "://"@, 0) {
                Some(j) => rest.take(j),
                None => rest,
            };
            before_char_of(part, '/')
        },
        None => url,
    }
}

/// The socket that a database is dialled at.
pub fn egress_socket(url: &str) -> (out: String)
    ensures
        out@ == socket_of(url@),
{
    let cs = chars_of(url);
    let mark = chars_of("://");
    proof {
        reveal_strlit("://");
    }
    match find_chars(&cs, &mark, 0) {
        Some(i) => {
            let rest = slice_text(&cs, i + 3, cs.len());
            assert(rest@ =~= url@.skip(i + 3));
            let rs = chars_of(rest.as_str());
            let n: usize = match find_chars(&rs, &mark, 0) {
                Some(j) => j,
                None => rs.len(),
            };
            let part = slice_text(&rs, 0, n);
            proof {
                if n == rs.len() {
                    assert(part@ =~= rest@);
                }
                assert(part@ =~= rest@.take(n as int));
            }
            before_char(part.as_str(), '/')
        },
        None => url.to_string(),
    }
}

// ------------------------------------------------------------- the database --

/// `s` with what is neither letter nor digit made an underscore, at most 24
/// characters of it.
pub open spec fn slug_of(s: Seq<char>) -> Seq<char> {
    let t = s.map_values(
        |c: char|
            if alphanumeric(c) {
                c
            } else {
                '_'
            },
    );
    if t.len() <= 24 {
        t
    } else {
        t.take(24)
    }
}

fn slug(s: &str) -> (out: String)
    ensures
        out@ == slug_of(s@),
{
    let cs = chars_of(s);
    let n: usize = if cs.len() <= 24 {
        cs.len()
    } else {
        24
    };
    let mut out = String::new();
    let mut i: usize = 0;
    assert(out@ =~= slug_of(s@).take(0));
    while i < n
        invariant
            i <= n <= cs.len(),
            n == slug_of(s@).len(),
            cs@ == s@,
            out@ == slug_of(s@).take(i as int),
        decreases n - i,
    {
        let c = cs[i];
        let plain = ('0' <= c && c <= '9') || ('a' <= c && c <= 'z') || ('A' <= c && c <= 'Z');
        let ghost o = out@;
        out.push(
            if plain {
                c
            } else {
                '_'
            },
        );
        assert(slug_of(s@).take(i + 1) =~= o.push(slug_of(s@)[i as int]));
        i = i + 1;
    }
    assert(slug_of(s@).take(n as int) =~= slug_of(s@));
    out
}

/// The bytes of a text in UTF-8.
pub open spec fn utf8(s: Seq<char>) -> Seq<u8> {
    vstd::utf8::encode_utf8(s)
}

/// The database of one goal's contract: named from the contract's path and, as a
/// short digest, from the goal's title, so that two goals over one file do not share
/// it and a rerun keeps it.
pub open spec fn contract_db(goal: GoalSpec) -> Seq<char> {
    "goalcontract_"@ + slug_of(or_empty(opt_text(goal.contract))) + "_"@ + hex_of(
        sha256_of(utf8(or_empty(opt_text(goal.title)))).take(4),
    )
}

/// The database of one goal's contract.
pub fn contract_database(goal: &GoalSpec) -> (out: String)
    ensures
        out@ == contract_db(*goal),
{
    let path = match &goal.contract {
        Some(c) => c.clone(),
        None => String::new(),
    };
    let title = match &goal.title {
        Some(t) => t.clone(),
        None => String::new(),
    };
    let s = slug(path.as_str());
    let digest = sha256(title.as_str().as_bytes());
    let mut short: Vec<u8> = Vec::new();
    short.push(digest[0]);
    short.push(digest[1]);
    short.push(digest[2]);
    short.push(digest[3]);
    assert(short@ =~= digest@.take(4));
    let id = hex(short.as_slice());
    "goalcontract_".to_string().concat(s.as_str()).concat("_").concat(id.as_str())
}

// -------------------------------------------------------------- the fixtures --

/// Why a run cannot be deployed.
#[derive(Debug, PartialEq, Eq)]
pub enum DeployRefusal {
    /// The goal has this many parts, which need a registry, and no database is named.
    NoDatabase(usize),
    /// The goal has parts and no contract.
    NoContract,
}

/// What is said where a run cannot be deployed.
pub open spec fn deploy_refusal_text(r: DeployRefusal) -> Seq<char> {
    match r {
        DeployRefusal::NoDatabase(n) => "this goal has "@ + dec_of(n as nat)
            + " part(s), which need a contract registry — pass --surreal-url (the registry keeps versions and the negotiation history in it)"@,
        DeployRefusal::NoContract => "this goal has parts but no `contract = \"…\"` — two halves that must compose need something to agree on before either exists"@,
    }
}

/// What is said where a run cannot be deployed.
pub fn deploy_refused(r: &DeployRefusal) -> (out: String)
    ensures
        out@ == deploy_refusal_text(*r),
{
    match r {
        DeployRefusal::NoDatabase(n) => "this goal has ".to_string().concat(
            dec(*n as u64).as_str(),
        ).concat(
            " part(s), which need a contract registry — pass --surreal-url (the registry keeps versions and the negotiation history in it)",
        ),
        DeployRefusal::NoContract => "this goal has parts but no `contract = \"…\"` — two halves that must compose need something to agree on before either exists".to_string(),
    }
}

/// A decomposed goal is refused where nothing can hold its contract, or where it has
/// none.
pub open spec fn refused(args: DeployArgs, goal: GoalSpec) -> Option<DeployRefusal> {
    if goal.parts@.len() > 0 && args.surreal_url is None {
        Some(DeployRefusal::NoDatabase(goal.parts@.len() as usize))
    } else if goal.parts@.len() > 0 && goal.contract is None {
        Some(DeployRefusal::NoContract)
    } else {
        None
    }
}

/// The fixture of the branches' driver.
pub open spec fn driver_fixture(args: DeployArgs, runner: Runner) -> FixtureView {
    FixtureView {
        name: "goalrun-driver.yaml"@,
        subs: seq![
            ("PROVIDER"@, args.provider@),
            ("CHECKS_URL"@, runner.url@),
            ("CHECKS_AUTHORITY"@, runner.authority@),
            ("LLM_MODEL"@, args.model@),
            ("MAX_TOKENS"@, dec_of(args.max_tokens as nat)),
            ("LLM_BASE_URL"@, base_url_of(args)),
            ("LLM_TIMEOUT"@, dec_of(args.timeout as nat)),
            ("LLM_HOST"@, authority_of(base_url_of(args))),
        ],
    }
}

/// The fixture of the forge.
pub open spec fn forge_fixture(args: DeployArgs) -> FixtureView {
    FixtureView { name: "goalrun-forge.yaml"@, subs: seq![("FORGE_REPO"@, args.repo@)] }
}

/// The fixture of the pool.
pub open spec fn memory_fixture(url: Seq<char>) -> FixtureView {
    FixtureView {
        name: "goalrun-memory.yaml"@,
        subs: seq![
            ("SURREAL_URL"@, url),
            ("SURREAL_DB"@, "goalmemory"@),
            ("SURREAL_EGRESS"@, socket_of(url)),
        ],
    }
}

/// The fixture of the model that answers requests.
pub open spec fn answer_fixture(args: DeployArgs) -> FixtureView {
    FixtureView {
        name: "goalrun-answer.yaml"@,
        subs: seq![
            ("PROVIDER"@, args.provider@),
            ("ANSWER_MODEL"@, args.answer_model@),
            ("LLM_BASE_URL"@, base_url_of(args)),
            ("LLM_TIMEOUT"@, dec_of(args.timeout as nat)),
            ("LLM_HOST"@, authority_of(base_url_of(args))),
        ],
    }
}

/// The fixture of the contract registry.
pub open spec fn contract_fixture(url: Seq<char>, goal: GoalSpec) -> FixtureView {
    FixtureView {
        name: "goalrun-contract.yaml"@,
        subs: seq![
            ("SURREAL_URL"@, url),
            ("SURREAL_EGRESS"@, socket_of(url)),
            ("SURREAL_DB"@, contract_db(goal)),
        ],
    }
}

/// The fixtures of a run, in order: the driver and the forge always, the pool and its
/// model where a database is named, the registry where the goal has parts too.
pub open spec fn fixtures_of(args: DeployArgs, goal: GoalSpec, runner: Runner) -> Seq<FixtureView> {
    let always = seq![driver_fixture(args, runner), forge_fixture(args)];
    match args.surreal_url {
        None => always,
        Some(url) => {
            let pool = always + seq![memory_fixture(url@), answer_fixture(args)];
            if goal.parts@.len() > 0 {
                pool.push(contract_fixture(url@, goal))
            } else {
                pool
            }
        },
    }
}

/// The secrets of a run, each as the path of the file that holds it. The database's
/// is granted only where a password file was given.
pub open spec fn secrets_of(args: DeployArgs, runner: Runner) -> Seq<Seq<char>> {
    let always = seq![
        "vault://acme/llmkey=@"@ + args.llm_key@,
        "vault://acme/forge=@"@ + args.github_token@,
        "vault://acme/checkstoken=@"@ + runner.token_file@,
    ];
    match (args.surreal_url, args.surreal_password) {
        (Some(_), Some(p)) => always.push("vault://acme/surreal=@"@ + p@),
        _ => always,
    }
}

fn fill(subs: &mut Vec<(String, String)>, key: &str, value: &str)
    ensures
        pair_views(final(subs)@) == pair_views(old(subs)@).push((key@, value@)),
{
    let ghost o = subs@;
    subs.push((key.to_string(), value.to_string()));
    assert(pair_views(subs@) =~= pair_views(o).push((key@, value@)));
}

fn no_subs() -> (v: Vec<(String, String)>)
    ensures
        pair_views(v@) == Seq::<(Seq<char>, Seq<char>)>::empty(),
{
    let v: Vec<(String, String)> = Vec::new();
    assert(pair_views(v@) =~= Seq::<(Seq<char>, Seq<char>)>::empty());
    v
}

fn driver(args: &DeployArgs, runner: &Runner) -> (f: Fixture)
    ensures
        f@ == driver_fixture(*args, *runner),
{
    let url = base_url(args);
    let host = egress_authority(url.as_str());
    let tokens = dec(args.max_tokens as u64);
    let timeout = dec(args.timeout);
    let mut s = no_subs();
    fill(&mut s, "PROVIDER", args.provider.as_str());
    fill(&mut s, "CHECKS_URL", runner.url.as_str());
    fill(&mut s, "CHECKS_AUTHORITY", runner.authority.as_str());
    fill(&mut s, "LLM_MODEL", args.model.as_str());
    fill(&mut s, "MAX_TOKENS", tokens.as_str());
    fill(&mut s, "LLM_BASE_URL", url.as_str());
    fill(&mut s, "LLM_TIMEOUT", timeout.as_str());
    fill(&mut s, "LLM_HOST", host.as_str());
    assert(pair_views(s@) =~= driver_fixture(*args, *runner).subs);
    Fixture { name: "goalrun-driver.yaml".to_string(), subs: s }
}

fn forge(args: &DeployArgs) -> (f: Fixture)
    ensures
        f@ == forge_fixture(*args),
{
    let mut s = no_subs();
    fill(&mut s, "FORGE_REPO", args.repo.as_str());
    Fixture { name: "goalrun-forge.yaml".to_string(), subs: s }
}

fn memory(url: &str) -> (f: Fixture)
    ensures
        f@ == memory_fixture(url@),
{
    let egress = egress_socket(url);
    let mut s = no_subs();
    fill(&mut s, "SURREAL_URL", url);
    fill(&mut s, "SURREAL_DB", "goalmemory");
    fill(&mut s, "SURREAL_EGRESS", egress.as_str());
    assert(pair_views(s@) =~= memory_fixture(url@).subs);
    Fixture { name: "goalrun-memory.yaml".to_string(), subs: s }
}

fn answer(args: &DeployArgs) -> (f: Fixture)
    ensures
        f@ == answer_fixture(*args),
{
    let url = base_url(args);
    let host = egress_authority(url.as_str());
    let timeout = dec(args.timeout);
    let mut s = no_subs();
    fill(&mut s, "PROVIDER", args.provider.as_str());
    fill(&mut s, "ANSWER_MODEL", args.answer_model.as_str());
    fill(&mut s, "LLM_BASE_URL", url.as_str());
    fill(&mut s, "LLM_TIMEOUT", timeout.as_str());
    fill(&mut s, "LLM_HOST", host.as_str());
    assert(pair_views(s@) =~= answer_fixture(*args).subs);
    Fixture { name: "goalrun-answer.yaml".to_string(), subs: s }
}

fn contract(url: &str, goal: &GoalSpec) -> (f: Fixture)
    ensures
        f@ == contract_fixture(url@, *goal),
{
    let egress = egress_socket(url);
    let db = contract_database(goal);
    let mut s = no_subs();
    fill(&mut s, "SURREAL_URL", url);
    fill(&mut s, "SURREAL_EGRESS", egress.as_str());
    fill(&mut s, "SURREAL_DB", db.as_str());
    assert(pair_views(s@) =~= contract_fixture(url@, *goal).subs);
    Fixture { name: "goalrun-contract.yaml".to_string(), subs: s }
}

/// The fixtures that a run needs, with what fills their placeholders, and the secrets
/// granted to them; or why the run cannot be deployed.
pub fn render_specs(args: &DeployArgs, goal: &GoalSpec, runner: &Runner) -> (r: Result<
    (Vec<Fixture>, Vec<String>),
    DeployRefusal,
>)
    ensures
        r matches Err(e) ==> refused(*args, *goal) == Some(e),
        r is Ok <==> refused(*args, *goal) is None,
        r matches Ok(d) ==> fixture_views(d.0@) == fixtures_of(*args, *goal, *runner) && strs(
            d.1@,
        ) == secrets_of(*args, *runner),
{
    if goal.parts.len() > 0 {
        if args.surreal_url.is_none() {
            return Err(DeployRefusal::NoDatabase(goal.parts.len()));
        }
        if goal.contract.is_none() {
            return Err(DeployRefusal::NoContract);
        }
    }
    let mut specs: Vec<Fixture> = Vec::new();
    specs.push(driver(args, runner));
    specs.push(forge(args));
    let key = "vault://acme/llmkey=@".to_string().concat(args.llm_key.as_str());
    let token = "vault://acme/forge=@".to_string().concat(args.github_token.as_str());
    let checks = "vault://acme/checkstoken=@".to_string().concat(runner.token_file.as_str());
    let mut secrets: Vec<String> = vec![key, token, checks];
    match &args.surreal_url {
        Some(url) => {
            specs.push(memory(url.as_str()));
            match &args.surreal_password {
                Some(p) => {
                    secrets.push("vault://acme/surreal=@".to_string().concat(p.as_str()));
                },
                None => {},
            }
            specs.push(answer(args));
            if goal.parts.len() > 0 {
                specs.push(contract(url.as_str(), goal));
            }
        },
        None => {},
    }
    assert(fixture_views(specs@) =~= fixtures_of(*args, *goal, *runner));
    assert(strs(secrets@) =~= secrets_of(*args, *runner));
    Ok((specs, secrets))
}

/// A fixture's text with each placeholder filled in turn.
pub open spec fn rendered(yaml: Seq<char>, subs: Seq<(Seq<char>, Seq<char>)>) -> Seq<char>
    decreases subs.len(),
{
    if subs.len() == 0 {
        yaml
    } else {
        replace_of(rendered(yaml, subs.drop_last()), subs.last().0, subs.last().1)
    }
}

/// A fixture's text with its placeholders filled.
pub fn render(yaml: &str, subs: &Vec<(String, String)>) -> (out: String)
    ensures
        out@ == rendered(yaml@, pair_views(subs@)),
{
    let ghost ps = pair_views(subs@);
    let mut out = yaml.to_string();
    let mut i: usize = 0;
    while i < subs.len()
        invariant
            i <= subs.len(),
            ps == pair_views(subs@),
            out@ == rendered(yaml@, ps.take(i as int)),
        decreases subs.len() - i,
    {
        assert(ps.take(i + 1).drop_last() =~= ps.take(i as int));
        out = replace(out.as_str(), subs[i].0.as_str(), subs[i].1.as_str());
        i = i + 1;
    }
    assert(ps.take(i as int) =~= ps);
    out
}

// ------------------------------------------------------------- the artifacts --

/// The component that speaks to a provider.
pub open spec fn provider_file(provider: Seq<char>) -> Seq<char> {
    if provider == "openai"@ {
        "openai_provider.wasm"@
    } else {
        "anthropic_provider.wasm"@
    }
}

/// The component that speaks to a provider.
pub fn provider_wasm(provider: &str) -> (out: String)
    ensures
        out@ == provider_file(provider@),
{
    if same(provider, "openai") {
        "openai_provider.wasm".to_string()
    } else {
        "anthropic_provider.wasm".to_string()
    }
}

/// The artifacts of a run: the name that a fixture knows each by, and its file.
pub open spec fn artifacts_of(provider: Seq<char>) -> Seq<(Seq<char>, Seq<char>)> {
    seq![
        ("cprobe"@, "contract_probe.wasm"@),
        ("registry"@, "contract_registry.wasm"@),
        ("cgraph"@, "knowledge_graph.wasm"@),
        ("lprobe"@, "llm_probe.wasm"@),
        ("allm"@, provider_file(provider)),
        ("mprobe"@, "memory_probe.wasm"@),
        ("memory"@, "knowledge_memory.wasm"@),
        ("graph"@, "knowledge_graph.wasm"@),
        ("search"@, "search_index.wasm"@),
        ("mllm"@, "mock_provider.wasm"@),
        ("probe"@, "driver_probe.wasm"@),
        ("driver"@, "agent_driver.wasm"@),
        ("writer"@, "agent_writer.wasm"@),
        ("llm"@, provider_file(provider)),
        ("gate"@, "checks_runner.wasm"@),
        ("sprobe"@, "select_probe.wasm"@),
        ("selector"@, "graph_selector.wasm"@),
        ("jev"@, "mock_jev_provider.wasm"@),
        ("forge"@, "github_forge.wasm"@),
    ]
}

/// The artifacts of a run.
pub fn artifacts(provider: &str) -> (out: Vec<(String, String)>)
    ensures
        pair_views(out@) == artifacts_of(provider@),
{
    let wasm = provider_wasm(provider);
    let mut v = no_subs();
    fill(&mut v, "cprobe", "contract_probe.wasm");
    fill(&mut v, "registry", "contract_registry.wasm");
    fill(&mut v, "cgraph", "knowledge_graph.wasm");
    fill(&mut v, "lprobe", "llm_probe.wasm");
    fill(&mut v, "allm", wasm.as_str());
    fill(&mut v, "mprobe", "memory_probe.wasm");
    fill(&mut v, "memory", "knowledge_memory.wasm");
    fill(&mut v, "graph", "knowledge_graph.wasm");
    fill(&mut v, "search", "search_index.wasm");
    fill(&mut v, "mllm", "mock_provider.wasm");
    fill(&mut v, "probe", "driver_probe.wasm");
    fill(&mut v, "driver", "agent_driver.wasm");
    fill(&mut v, "writer", "agent_writer.wasm");
    fill(&mut v, "llm", wasm.as_str());
    fill(&mut v, "gate", "checks_runner.wasm");
    fill(&mut v, "sprobe", "select_probe.wasm");
    fill(&mut v, "selector", "graph_selector.wasm");
    fill(&mut v, "jev", "mock_jev_provider.wasm");
    fill(&mut v, "forge", "github_forge.wasm");
    assert(pair_views(v@) =~= artifacts_of(provider@));
    v
}

/// The artifacts as a fleet is given them, each file in the directory of what is built.
pub open spec fn placed(files: Seq<(Seq<char>, Seq<char>)>, dir: Seq<char>) -> Seq<Seq<char>> {
    files.map_values(|f: (Seq<char>, Seq<char>)| f.0 + "="@ + below(dir, f.1))
}

/// The first artifact from `i` on that is not built.
pub open spec fn unbuilt(present: Seq<bool>, i: int) -> Option<int>
    decreases present.len() - i,
{
    if i < 0 || i >= present.len() {
        None
    } else if !present[i] {
        Some(i)
    } else {
        unbuilt(present, i + 1)
    }
}

/// What a run's fleet is started from: the fixtures as they were written out, the
/// secrets, and every artifact in `dir`; or the first artifact that is not there.
/// `present` says of each artifact, in its order, whether its file is.
pub fn deployment(
    specs: Vec<String>,
    secrets: Vec<String>,
    provider: &str,
    dir: &str,
    present: &Vec<bool>,
) -> (r: Result<Deployment, String>)
    requires
        present@.len() == artifacts_of(provider@).len(),
    ensures
        r is Ok <==> unbuilt(present@, 0) is None,
        r matches Ok(d) ==> d.specs == specs && d.secrets == secrets && strs(d.artifacts@) == placed(
            artifacts_of(provider@),
            dir@,
        ),
        r matches Err(e) ==> e@ == "missing "@ + below(
            dir@,
            artifacts_of(provider@)[unbuilt(present@, 0)->0].1,
        ) + " — run `cargo xtask build --force`"@,
{
    let files = artifacts(provider);
    let ghost fs = artifacts_of(provider@);
    let ghost want = placed(fs, dir@);
    let mut out: Vec<String> = Vec::new();
    let mut i: usize = 0;
    assert(strs(out@) =~= want.take(0));
    while i < files.len()
        invariant
            i <= files.len(),
            pair_views(files@) == fs,
            fs == artifacts_of(provider@),
            want == placed(fs, dir@),
            present@.len() == fs.len(),
            files@.len() == fs.len(),
            strs(out@) == want.take(i as int),
            unbuilt(present@, i as int) == unbuilt(present@, 0),
        decreases files.len() - i,
    {
        assert(pair_views(files@)[i as int] == fs[i as int]);
        let path = join_name(dir, files[i].1.as_str());
        if !present[i] {
            return Err(
                "missing ".to_string().concat(path.as_str()).concat(
                    " — run `cargo xtask build --force`",
                ),
            );
        }
        let t = files[i].0.clone().concat("=").concat(path.as_str());
        let ghost o = out@;
        out.push(t);
        assert(strs(out@) =~= strs(o).push(t@));
        assert(want.take(i + 1) =~= want.take(i as int).push(want[i as int]));
        i = i + 1;
    }
    assert(want.take(i as int) =~= want);
    Ok(Deployment { specs, secrets, artifacts: out })
}

// ---------------------------------------------------------- the environment --

/// The paths that a check's environment is made of.
#[derive(Debug, PartialEq, Eq)]
pub struct CheckPaths {
    pub home: String,
    pub host: String,
    pub plug: String,
    pub gates: String,
    pub rustup_home: String,
    pub toolchain: String,
}

/// What every check runs with.
pub open spec fn check_env_of(p: CheckPaths) -> Seq<Seq<char>> {
    seq![
        "UV_CACHE_DIR="@ + (p.home@ + "/.cache/comp-goalrun/uv"@),
        "UV_PYTHON_INSTALL_DIR="@ + (p.home@ + "/.cache/comp-goalrun/uv-python"@),
        "CARGO_HOME="@ + (p.home@ + "/.cache/comp-goalrun/cargo-home"@),
        "CARGO_TARGET_DIR="@ + (p.home@ + "/.cache/comp-goalrun/cargo-target"@),
        "CARGO_NET_OFFLINE=false"@,
        "COMP_HOST="@ + p.host@,
        "COMP_PLUG="@ + p.plug@,
        "COMP_GATES="@ + p.gates@,
        "RUSTUP_HOME="@ + p.rustup_home@,
        "RUSTUP_TOOLCHAIN="@ + p.toolchain@,
    ]
}

fn setting(name: &str, home: &str, under: &str) -> (out: String)
    ensures
        out@ == name@ + (home@ + under@),
{
    let path = home.to_string().concat(under);
    name.to_string().concat(path.as_str())
}

/// What every check runs with: shared caches, and where the tools are.
pub fn warm_caches(p: &CheckPaths) -> (out: Vec<String>)
    ensures
        strs(out@) == check_env_of(*p),
{
    let home = p.home.as_str();
    let mut v: Vec<String> = Vec::new();
    v.push(setting("UV_CACHE_DIR=", home, "/.cache/comp-goalrun/uv"));
    v.push(setting("UV_PYTHON_INSTALL_DIR=", home, "/.cache/comp-goalrun/uv-python"));
    v.push(setting("CARGO_HOME=", home, "/.cache/comp-goalrun/cargo-home"));
    v.push(setting("CARGO_TARGET_DIR=", home, "/.cache/comp-goalrun/cargo-target"));
    v.push("CARGO_NET_OFFLINE=false".to_string());
    v.push("COMP_HOST=".to_string().concat(p.host.as_str()));
    v.push("COMP_PLUG=".to_string().concat(p.plug.as_str()));
    v.push("COMP_GATES=".to_string().concat(p.gates.as_str()));
    v.push("RUSTUP_HOME=".to_string().concat(p.rustup_home.as_str()));
    v.push("RUSTUP_TOOLCHAIN=".to_string().concat(p.toolchain.as_str()));
    assert(strs(v@) =~= check_env_of(*p));
    v
}

/// Is a check run once before anything is judged, to fill the caches? Only one whose
/// tool downloads is.
pub fn warms(c: &CheckSpec) -> (r: bool)
    ensures
        r <==> c.command@.len() > 0 && (c.command@[0]@ == "uv"@ || c.command@[0]@ == "cargo"@),
{
    c.command.len() > 0 && (same(c.command[0].as_str(), "uv") || same(
        c.command[0].as_str(),
        "cargo",
    ))
}

/// Seconds that the fleet gives one request: what the caller chose, and at least ten
/// minutes.
pub fn fleet_timeout(timeout: u64) -> (r: u64)
    ensures
        r == if timeout < 600 {
            600
        } else {
            timeout
        },
{
    if timeout < 600 {
        600
    } else {
        timeout
    }
}

/// Where statements are sent to a database.
pub fn sql_url(url: &str) -> (out: String)
    ensures
        out@ == trim_end_char_of(url@, '/') + "/sql"@,
{
    trim_end_char(url, '/').concat("/sql")
}

/// How often `n` occurs in `h` from `i` on, no occurrence overlapping another.
pub open spec fn count_from(h: Seq<char>, n: Seq<char>, i: int) -> nat
    decreases h.len() - i,
{
    if n.len() == 0 || i < 0 || i > h.len() {
        0
    } else {
        match find_from(h, n, i) {
            Some(j) => if i <= j && j + n.len() <= h.len() {
                1 + count_from(h, n, j + n.len())
            } else {
                0
            },
            None => 0,
        }
    }
}

/// How many statements the database rejected: it answers each with a status of its
/// own.
pub fn rejected(reply: &str) -> (n: usize)
    ensures
        n == count_from(reply@, "\"status\":\"ERR\""@, 0),
{
    let cs = chars_of(reply);
    let mark = chars_of("\"status\":\"ERR\"");
    proof {
        reveal_strlit("\"status\":\"ERR\"");
    }
    let mut n: usize = 0;
    let mut i: usize = 0;
    loop
        invariant
            i <= cs.len(),
            n <= i,
            cs@ == reply@,
            mark@ == "\"status\":\"ERR\""@,
            mark@.len() > 0,
            n + count_from(reply@, mark@, i as int) == count_from(reply@, mark@, 0),
        decreases cs.len() - i,
    {
        match find_chars(&cs, &mark, i) {
            Some(j) => {
                n = n + 1;
                i = j + mark.len();
            },
            None => {
                return n;
            },
        }
    }
}

// --------------------------------------------------------------------- laws --

/// The driver is told the provider, where the runner is and by what authority, the model, how
/// many tokens and seconds it has, and where the model is: each by its own name.
pub proof fn law_the_driver_is_told(args: DeployArgs, runner: Runner)
    ensures
        driver_fixture(args, runner).name == "goalrun-driver.yaml"@,
        driver_fixture(args, runner).subs.len() == 8,
        driver_fixture(args, runner).subs.contains(("PROVIDER"@, args.provider@)),
        driver_fixture(args, runner).subs.contains(("CHECKS_URL"@, runner.url@)),
        driver_fixture(args, runner).subs.contains(("CHECKS_AUTHORITY"@, runner.authority@)),
        driver_fixture(args, runner).subs.contains(("LLM_MODEL"@, args.model@)),
        driver_fixture(args, runner).subs.contains(("MAX_TOKENS"@, dec_of(args.max_tokens as nat))),
        driver_fixture(args, runner).subs.contains(("LLM_BASE_URL"@, base_url_of(args))),
        driver_fixture(args, runner).subs.contains(("LLM_TIMEOUT"@, dec_of(args.timeout as nat))),
        driver_fixture(args, runner).subs.contains(("LLM_HOST"@, authority_of(base_url_of(args)))),
{
    let subs = driver_fixture(args, runner).subs;
    assert(subs[0] == ("PROVIDER"@, args.provider@));
    assert(subs[1] == ("CHECKS_URL"@, runner.url@));
    assert(subs[2] == ("CHECKS_AUTHORITY"@, runner.authority@));
    assert(subs[3] == ("LLM_MODEL"@, args.model@));
    assert(subs[4] == ("MAX_TOKENS"@, dec_of(args.max_tokens as nat)));
    assert(subs[5] == ("LLM_BASE_URL"@, base_url_of(args)));
    assert(subs[6] == ("LLM_TIMEOUT"@, dec_of(args.timeout as nat)));
    assert(subs[7] == ("LLM_HOST"@, authority_of(base_url_of(args))));
}

/// The answering door is told its own model, and otherwise what the driver is told of the
/// provider.
pub proof fn law_the_answering_door_is_told(args: DeployArgs)
    ensures
        answer_fixture(args).name == "goalrun-answer.yaml"@,
        answer_fixture(args).subs.len() == 5,
        answer_fixture(args).subs.contains(("PROVIDER"@, args.provider@)),
        answer_fixture(args).subs.contains(("ANSWER_MODEL"@, args.answer_model@)),
        answer_fixture(args).subs.contains(("LLM_BASE_URL"@, base_url_of(args))),
        answer_fixture(args).subs.contains(("LLM_TIMEOUT"@, dec_of(args.timeout as nat))),
        answer_fixture(args).subs.contains(("LLM_HOST"@, authority_of(base_url_of(args)))),
{
    let subs = answer_fixture(args).subs;
    assert(subs[0] == ("PROVIDER"@, args.provider@));
    assert(subs[1] == ("ANSWER_MODEL"@, args.answer_model@));
    assert(subs[2] == ("LLM_BASE_URL"@, base_url_of(args)));
    assert(subs[3] == ("LLM_TIMEOUT"@, dec_of(args.timeout as nat)));
    assert(subs[4] == ("LLM_HOST"@, authority_of(base_url_of(args))));
}

/// The memory and the contracts are kept in the database that was given, each in its own; and
/// the forge is told the repository.
pub proof fn law_the_stores_are_told(url: Seq<char>, goal: GoalSpec, args: DeployArgs)
    ensures
        memory_fixture(url).name == "goalrun-memory.yaml"@,
        memory_fixture(url).subs.contains(("SURREAL_URL"@, url)),
        memory_fixture(url).subs.contains(("SURREAL_DB"@, "goalmemory"@)),
        memory_fixture(url).subs.contains(("SURREAL_EGRESS"@, socket_of(url))),
        contract_fixture(url, goal).name == "goalrun-contract.yaml"@,
        contract_fixture(url, goal).subs.contains(("SURREAL_URL"@, url)),
        contract_fixture(url, goal).subs.contains(("SURREAL_DB"@, contract_db(goal))),
        contract_fixture(url, goal).subs.contains(("SURREAL_EGRESS"@, socket_of(url))),
        forge_fixture(args).name == "goalrun-forge.yaml"@,
        forge_fixture(args).subs == seq![("FORGE_REPO"@, args.repo@)],
{
    let m = memory_fixture(url).subs;
    assert(m[0] == ("SURREAL_URL"@, url));
    assert(m[1] == ("SURREAL_DB"@, "goalmemory"@));
    assert(m[2] == ("SURREAL_EGRESS"@, socket_of(url)));
    let c = contract_fixture(url, goal).subs;
    assert(c[0] == ("SURREAL_URL"@, url));
    assert(c[1] == ("SURREAL_EGRESS"@, socket_of(url)));
    assert(c[2] == ("SURREAL_DB"@, contract_db(goal)));
}

/// The driver and the forge are always deployed; the memory and the answering door only where
/// there is a database; the contracts only where there are parts too.
pub proof fn law_what_is_deployed(args: DeployArgs, goal: GoalSpec, runner: Runner)
    ensures
        ({
            let fs = fixtures_of(args, goal, runner);
            &&& fs[0] == driver_fixture(args, runner)
            &&& fs[1] == forge_fixture(args)
            &&& args.surreal_url is None ==> fs.len() == 2
            &&& args.surreal_url is Some ==> fs[2] == memory_fixture(args.surreal_url->0@) && fs[3]
                == answer_fixture(args)
            &&& args.surreal_url is Some && goal.parts@.len() == 0 ==> fs.len() == 4
            &&& args.surreal_url is Some && goal.parts@.len() > 0 ==> fs.len() == 5 && fs[4]
                == contract_fixture(args.surreal_url->0@, goal)
        }),
{
}

/// Each secret is granted under its own name; the database's only where there is a database
/// and a password for it.
pub proof fn law_which_secrets_are_granted(args: DeployArgs, runner: Runner)
    ensures
        ({
            let ss = secrets_of(args, runner);
            &&& ss[0] == "vault://acme/llmkey=@"@ + args.llm_key@
            &&& ss[1] == "vault://acme/forge=@"@ + args.github_token@
            &&& ss[2] == "vault://acme/checkstoken=@"@ + runner.token_file@
            &&& args.surreal_url is Some && args.surreal_password is Some ==> ss.len() == 4 && ss[3]
                == "vault://acme/surreal=@"@ + args.surreal_password->0@
            &&& args.surreal_url is None || args.surreal_password is None ==> ss.len() == 3
        }),
{
}

/// A goal with parts is deployed only where there is a database to keep the contract in and a
/// contract to keep; a goal without parts always is.
pub proof fn law_when_a_goal_is_not_deployed(args: DeployArgs, goal: GoalSpec)
    ensures
        refused(args, goal) is None <==> goal.parts@.len() == 0 || (args.surreal_url is Some
            && goal.contract is Some),
        refused(args, goal) is Some && args.surreal_url is None ==> refused(args, goal) == Some(
            DeployRefusal::NoDatabase(goal.parts@.len() as usize),
        ),
        refused(args, goal) is Some && args.surreal_url is Some ==> refused(args, goal) == Some(
            DeployRefusal::NoContract,
        ),
{
}

/// Where the model is: where the operator said, else where its provider is.
pub proof fn law_where_the_model_is(args: DeployArgs)
    ensures
        args.llm_base_url@.len() > 0 ==> base_url_of(args) == args.llm_base_url@,
        args.llm_base_url@.len() == 0 && args.provider@ == "openai"@ ==> base_url_of(args)
            == "https://api.openai.com/v1"@,
        args.llm_base_url@.len() == 0 && args.provider@ != "openai"@ ==> base_url_of(args)
            == "https://api.anthropic.com"@,
        provider_file(args.provider@) == (if args.provider@ == "openai"@ {
            "openai_provider.wasm"@
        } else {
            "anthropic_provider.wasm"@
        }),
{
}

/// Each component of a deployment is built from its own file, and whatever speaks to the model
/// from the provider's.
pub proof fn law_each_component_has_its_file(provider: Seq<char>)
    ensures
        artifacts_of(provider).len() == 19,
        artifacts_of(provider).contains(("cprobe"@, "contract_probe.wasm"@)),
        artifacts_of(provider).contains(("registry"@, "contract_registry.wasm"@)),
        artifacts_of(provider).contains(("cgraph"@, "knowledge_graph.wasm"@)),
        artifacts_of(provider).contains(("lprobe"@, "llm_probe.wasm"@)),
        artifacts_of(provider).contains(("allm"@, provider_file(provider))),
        artifacts_of(provider).contains(("mprobe"@, "memory_probe.wasm"@)),
        artifacts_of(provider).contains(("memory"@, "knowledge_memory.wasm"@)),
        artifacts_of(provider).contains(("graph"@, "knowledge_graph.wasm"@)),
        artifacts_of(provider).contains(("search"@, "search_index.wasm"@)),
        artifacts_of(provider).contains(("mllm"@, "mock_provider.wasm"@)),
        artifacts_of(provider).contains(("probe"@, "driver_probe.wasm"@)),
        artifacts_of(provider).contains(("driver"@, "agent_driver.wasm"@)),
        artifacts_of(provider).contains(("writer"@, "agent_writer.wasm"@)),
        artifacts_of(provider).contains(("llm"@, provider_file(provider))),
        artifacts_of(provider).contains(("gate"@, "checks_runner.wasm"@)),
        artifacts_of(provider).contains(("sprobe"@, "select_probe.wasm"@)),
        artifacts_of(provider).contains(("selector"@, "graph_selector.wasm"@)),
        artifacts_of(provider).contains(("jev"@, "mock_jev_provider.wasm"@)),
        artifacts_of(provider).contains(("forge"@, "github_forge.wasm"@)),
{
    let all = artifacts_of(provider);
    assert(all[0] == ("cprobe"@, "contract_probe.wasm"@));
    assert(all[1] == ("registry"@, "contract_registry.wasm"@));
    assert(all[2] == ("cgraph"@, "knowledge_graph.wasm"@));
    assert(all[3] == ("lprobe"@, "llm_probe.wasm"@));
    assert(all[4] == ("allm"@, provider_file(provider)));
    assert(all[5] == ("mprobe"@, "memory_probe.wasm"@));
    assert(all[6] == ("memory"@, "knowledge_memory.wasm"@));
    assert(all[7] == ("graph"@, "knowledge_graph.wasm"@));
    assert(all[8] == ("search"@, "search_index.wasm"@));
    assert(all[9] == ("mllm"@, "mock_provider.wasm"@));
    assert(all[10] == ("probe"@, "driver_probe.wasm"@));
    assert(all[11] == ("driver"@, "agent_driver.wasm"@));
    assert(all[12] == ("writer"@, "agent_writer.wasm"@));
    assert(all[13] == ("llm"@, provider_file(provider)));
    assert(all[14] == ("gate"@, "checks_runner.wasm"@));
    assert(all[15] == ("sprobe"@, "select_probe.wasm"@));
    assert(all[16] == ("selector"@, "graph_selector.wasm"@));
    assert(all[17] == ("jev"@, "mock_jev_provider.wasm"@));
    assert(all[18] == ("forge"@, "github_forge.wasm"@));
}

/// Each file is placed under its component's name, below the directory.
pub proof fn law_each_file_is_placed_under_its_name(
    files: Seq<(Seq<char>, Seq<char>)>,
    dir: Seq<char>,
    i: int,
)
    requires
        0 <= i < files.len(),
    ensures
        placed(files, dir).len() == files.len(),
        placed(files, dir)[i] == files[i].0 + "="@ + below(dir, files[i].1),
{
}

/// What is missing is the first file that is not there; nothing is where every file is.
pub proof fn law_the_first_missing_file_is_named(present: Seq<bool>, i: int)
    requires
        0 <= i <= present.len(),
    ensures
        unbuilt(present, i) is None <==> forall|k: int| i <= k < present.len() ==> #[trigger] present[k],
        unbuilt(present, i) matches Some(k) ==> i <= k < present.len() && !present[k] && forall|j: int|
            i <= j < k ==> #[trigger] present[j],
    decreases present.len() - i,
{
    if i < present.len() && present[i] {
        law_the_first_missing_file_is_named(present, i + 1);
    }
}

/// The checks are told where the host, the plug and the gates are, and which toolchain they
/// have: each by its own name.
pub proof fn law_the_checks_are_told_their_tools(p: CheckPaths)
    ensures
        check_env_of(p).contains("COMP_HOST="@ + p.host@),
        check_env_of(p).contains("COMP_PLUG="@ + p.plug@),
        check_env_of(p).contains("COMP_GATES="@ + p.gates@),
        check_env_of(p).contains("RUSTUP_HOME="@ + p.rustup_home@),
        check_env_of(p).contains("RUSTUP_TOOLCHAIN="@ + p.toolchain@),
{
    let all = check_env_of(p);
    assert(all[5] == "COMP_HOST="@ + p.host@);
    assert(all[6] == "COMP_PLUG="@ + p.plug@);
    assert(all[7] == "COMP_GATES="@ + p.gates@);
    assert(all[8] == "RUSTUP_HOME="@ + p.rustup_home@);
    assert(all[9] == "RUSTUP_TOOLCHAIN="@ + p.toolchain@);
}

/// A slug has no more than twenty-four characters, and no other than letters, digits and
/// underscores; a letter or a digit stays where it was.
pub proof fn law_what_a_slug_is(s: Seq<char>, i: int)
    requires
        0 <= i < slug_of(s).len(),
    ensures
        slug_of(s).len() == (if s.len() < 24 {
            s.len()
        } else {
            24
        }),
        alphanumeric(s[i]) ==> slug_of(s)[i] == s[i],
        !alphanumeric(s[i]) ==> slug_of(s)[i] == '_',
{
}

/// Rendering fills in each substitution in its turn.
pub proof fn law_each_substitution_is_filled_in(
    yaml: Seq<char>,
    subs: Seq<(Seq<char>, Seq<char>)>,
    s: (Seq<char>, Seq<char>),
)
    ensures
        rendered(yaml, Seq::empty()) == yaml,
        rendered(yaml, subs.push(s)) == replace_of(rendered(yaml, subs), s.0, s.1),
{
    assert(subs.push(s).drop_last() =~= subs);
}

/// A fixture is seen by its name and its substitutions, one by one.
pub proof fn law_a_fixture_is_seen_whole(f: Fixture, i: int)
    ensures
        f@.name == f.name@,
        f@.subs.len() == f.subs@.len(),
        0 <= i < f.subs@.len() ==> f@.subs[i].0 == f.subs@[i].0@ && f@.subs[i].1 == f.subs@[i].1@,
{
}

/// The rejections in a reply are counted one after the other: one more for each that follows,
/// and none where the word does not occur.
pub proof fn law_rejections_are_counted_one_by_one(h: Seq<char>, n: Seq<char>, i: int)
    requires
        n.len() > 0,
        0 <= i <= h.len(),
    ensures
        find_from(h, n, i) is None ==> count_from(h, n, i) == 0,
        find_from(h, n, i) is Some ==> count_from(h, n, i) == 1 + count_from(
            h,
            n,
            find_from(h, n, i)->Some_0 + n.len(),
        ),
{
    crate::text::lemma_find(h, n, i);
}

/// The caches of the checks lie in the home directory, each in a place of its own, and cargo may
/// use the network.
pub proof fn law_the_checks_keep_their_caches_at_home(p: CheckPaths)
    ensures
        check_env_of(p).len() == 10,
        check_env_of(p)[0] == "UV_CACHE_DIR="@ + (p.home@ + "/.cache/comp-goalrun/uv"@),
        check_env_of(p)[1] == "UV_PYTHON_INSTALL_DIR="@ + (p.home@ + "/.cache/comp-goalrun/uv-python"@),
        check_env_of(p)[2] == "CARGO_HOME="@ + (p.home@ + "/.cache/comp-goalrun/cargo-home"@),
        check_env_of(p)[3] == "CARGO_TARGET_DIR="@ + (p.home@ + "/.cache/comp-goalrun/cargo-target"@),
        check_env_of(p)[4] == "CARGO_NET_OFFLINE=false"@,
{
}

} // verus!
