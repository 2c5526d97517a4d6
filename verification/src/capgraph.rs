//! The capability graph: who imports what from whom, as a report, as data, and as a
//! projection into the store that the knowledge pool lives in.

use vstd::prelude::*;
use vstd::string::*;

pub mod lines;
pub mod report;

use crate::json::{json_string, quote};
use crate::number::{dec, dec_of, law_decimal_reads_back, lemma_dec_digits};
use crate::order::{sorted_set, sorted_set_of};
use crate::text::{holds, lemma_assoc, lemma_holds_end, lemma_holds_itself, lemma_holds_longer, replace_char, replace_char_of, strs};
use crate::text_map::TextMap;

verus! {

// ------------------------------------------------------------------- input --

/// What a built component imports and exports.
#[derive(Debug, PartialEq, Eq)]
pub struct Surface {
    pub imports: Vec<String>,
    pub exports: Vec<String>,
}

/// A built component.
#[derive(Debug, PartialEq, Eq)]
pub struct Component {
    pub name: String,
    pub surface: Option<Surface>,
    pub digest: String,
}

/// Everything that was built: the components, which of them each interface resolves to,
/// and how many use it.
#[derive(Debug, PartialEq, Eq)]
pub struct Catalog {
    pub components: Vec<Component>,
    pub exporters: TextMap<String>,
    pub consumers: TextMap<u64>,
}

/// An application: its root component, its artifact, and the components that the root
/// is composed from.
#[derive(Debug, PartialEq, Eq)]
pub struct App {
    pub name: String,
    pub root: String,
    pub artifact: String,
    pub parts: Vec<String>,
}

impl Catalog {
    /// The maps are in order.
    pub open spec fn wf(&self) -> bool {
        self.exporters.wf() && self.consumers.wf()
    }
}

/// The names that a component imports.
pub open spec fn imports_of(c: Component) -> Seq<Seq<char>> {
    match c.surface {
        Some(s) => strs(s.imports@),
        None => Seq::empty(),
    }
}

/// The names that a component exports.
pub open spec fn exports_of(c: Component) -> Seq<Seq<char>> {
    match c.surface {
        Some(s) => strs(s.exports@),
        None => Seq::empty(),
    }
}

/// Every name that a component mentions.
pub open spec fn mentioned(cs: Seq<Component>) -> Seq<Seq<char>>
    decreases cs.len(),
{
    if cs.len() == 0 {
        Seq::empty()
    } else {
        mentioned(cs.drop_last()) + exports_of(cs.last()) + imports_of(cs.last())
    }
}

// -------------------------------------------------------------- statements --

/// The tables that a rebuild writes. The first seven can be recomputed; the last holds
/// one row for each build.
#[derive(Debug, Clone, Copy, PartialEq, Eq, Structural)]
pub enum Table {
    Interface,
    Artifact,
    App,
    Imports,
    Exports,
    Carries,
    About,
    Generation,
}

/// The name of a table.
pub open spec fn table_name(t: Table) -> Seq<char> {
    match t {
        Table::Interface => "interface"@,
        Table::Artifact => "artifact"@,
        Table::App => "app"@,
        Table::Imports => "imports"@,
        Table::Exports => "exports"@,
        Table::Carries => "carries"@,
        Table::About => "about"@,
        Table::Generation => "generation"@,
    }
}

fn named(t: Table) -> (out: &'static str)
    ensures
        out@ == table_name(t),
{
    match t {
        Table::Interface => "interface",
        Table::Artifact => "artifact",
        Table::App => "app",
        Table::Imports => "imports",
        Table::Exports => "exports",
        Table::Carries => "carries",
        Table::About => "about",
        Table::Generation => "generation",
    }
}

/// Can a table's rows be computed again?
pub open spec fn derived(t: Table) -> bool {
    t != Table::Generation
}

/// One statement of a projection.
#[derive(Debug, PartialEq, Eq)]
pub enum Statement {
    /// A row with a stable id, and what it is set to.
    Node(Table, String, String),
    /// An edge with an id of its own between two rows.
    Edge(Table, String, (Table, String), (Table, String)),
    /// The lessons, indexed by the interface they are about.
    About,
    /// Drop the rows of older generations.
    Age(Table),
}

/// A statement as plain values.
pub enum StatementView {
    Node(Table, Seq<char>, Seq<char>),
    Edge(Table, Seq<char>, (Table, Seq<char>), (Table, Seq<char>)),
    About,
    Age(Table),
}

impl View for Statement {
    type V = StatementView;

    open spec fn view(&self) -> StatementView {
        match self {
            Statement::Node(t, id, set) => StatementView::Node(*t, id@, set@),
            Statement::Edge(t, id, a, b) => StatementView::Edge(
                *t,
                id@,
                (a.0, a.1@),
                (b.0, b.1@),
            ),
            Statement::About => StatementView::About,
            Statement::Age(t) => StatementView::Age(*t),
        }
    }
}

/// A list of statements as plain values.
pub open spec fn views(v: Seq<Statement>) -> Seq<StatementView> {
    v.map_values(|s: Statement| s@)
}

/// A record id. The brackets quote any id but one that holds the closing one, so that
/// goes.
pub open spec fn rid_of(table: Seq<char>, id: Seq<char>) -> Seq<char> {
    table + ":⟨"@ + replace_char_of(id, '⟩', ""@) + "⟩"@
}

/// A record id.
pub fn rid(table: &str, id: &str) -> (out: String)
    ensures
        out@ == rid_of(table@, id@),
{
    let clean = replace_char(id, '⟩', "");
    table.to_string().concat(":⟨").concat(clean.as_str()).concat("⟩")
}

/// A string literal, through JSON, so that a value cannot carry syntax.
pub fn lit(s: &str) -> (out: String)
    ensures
        out@ == json_string(s@),
{
    quote(s)
}

/// The block that indexes the lessons, at generation `gen`. It reads the lessons and
/// writes the index alone.
pub open spec fn about_text(gen: Seq<char>) -> Seq<char> {
    "\n-- Lessons, indexed by the interface they are about (ADR-0090's key, ADR-0091's store).\n"@
        + "DEFINE TABLE IF NOT EXISTS memory;\n"@
        + "DEFINE TABLE IF NOT EXISTS about TYPE RELATION;\n"@
        + "LET $pairs = (SELECT id AS lesson, (SELECT VALUE id FROM interface WHERE gen = "@ + gen
        + " AND name IN $parent.tags) AS ifaces FROM memory WHERE tags != []);\nFOR $pair IN $pairs {\n    IF array::len($pair.ifaces) > 0 {\n        LET $from = $pair.lesson;\n        LET $to = $pair.ifaces;\n        RELATE $from->about->$to SET gen = "@
        + gen + ";\n    };\n};\n"@
}

/// A statement's text, at generation `gen`.
pub open spec fn statement_text(s: StatementView, gen: Seq<char>) -> Seq<char> {
    match s {
        StatementView::Node(t, id, set) => "UPSERT "@ + rid_of(table_name(t), id) + " SET "@ + set
            + ";\n"@,
        StatementView::Edge(t, id, a, b) => "RELATE "@ + rid_of(table_name(a.0), a.1) + "->"@
            + rid_of(table_name(t), id) + "->"@ + rid_of(table_name(b.0), b.1) + " SET gen = "@ + gen
            + ";\n"@,
        StatementView::About => about_text(gen),
        StatementView::Age(t) => "DELETE "@ + table_name(t) + " WHERE gen < "@ + gen + ";\n"@,
    }
}

fn write_statement(s: &Statement, gen: &str) -> (out: String)
    ensures
        out@ == statement_text(s@, gen@),
{
    match s {
        Statement::Node(t, id, set) => {
            let r = rid(named(*t), id.as_str());
            "UPSERT ".to_string().concat(r.as_str()).concat(" SET ").concat(set.as_str()).concat(
                ";\n",
            )
        },
        Statement::Edge(t, id, a, b) => {
            let from = rid(named(a.0), a.1.as_str());
            let edge = rid(named(*t), id.as_str());
            let to = rid(named(b.0), b.1.as_str());
            "RELATE ".to_string().concat(from.as_str()).concat("->").concat(edge.as_str()).concat(
                "->",
            ).concat(to.as_str()).concat(" SET gen = ").concat(gen).concat(";\n")
        },
        Statement::About => "\n-- Lessons, indexed by the interface they are about (ADR-0090's key, ADR-0091's store).\n".to_string().concat(
            "DEFINE TABLE IF NOT EXISTS memory;\n",
        ).concat("DEFINE TABLE IF NOT EXISTS about TYPE RELATION;\n").concat(
            "LET $pairs = (SELECT id AS lesson, (SELECT VALUE id FROM interface WHERE gen = ",
        ).concat(gen).concat(
            " AND name IN $parent.tags) AS ifaces FROM memory WHERE tags != []);\nFOR $pair IN $pairs {\n    IF array::len($pair.ifaces) > 0 {\n        LET $from = $pair.lesson;\n        LET $to = $pair.ifaces;\n        RELATE $from->about->$to SET gen = ",
        ).concat(gen).concat(";\n    };\n};\n"),
        Statement::Age(t) => "DELETE ".to_string().concat(named(*t)).concat(
            " WHERE gen < ",
        ).concat(gen).concat(";\n"),
    }
}

// -------------------------------------------------------------- projection --

/// An interface's node. One that nobody provides still gets one: that absence is a fact.
pub open spec fn interface_node(cat: Catalog, iface: Seq<char>, gen: Seq<char>) -> StatementView {
    let exporter = if cat.exporters@.contains_key(iface) {
        cat.exporters@[iface]@
    } else {
        Seq::empty()
    };
    let consumers = if cat.consumers@.contains_key(iface) {
        cat.consumers@[iface]
    } else {
        0
    };
    StatementView::Node(
        Table::Interface,
        iface,
        "name = "@ + json_string(iface) + ", exporter = "@ + json_string(exporter)
            + ", consumers = "@ + dec_of(consumers as nat) + ", gen = "@ + gen,
    )
}

/// A component's node. The digest shows whether it changed underneath a lesson.
pub open spec fn artifact_node(c: Component, gen: Seq<char>) -> StatementView {
    StatementView::Node(
        Table::Artifact,
        c.name@,
        "name = "@ + json_string(c.name@) + ", digest = "@ + json_string(c.digest@) + ", gen = "@
            + gen,
    )
}

/// An application's node.
pub open spec fn app_node(a: App, gen: Seq<char>) -> StatementView {
    StatementView::Node(
        Table::App,
        a.name@,
        "name = "@ + json_string(a.name@) + ", root = "@ + json_string(a.root@) + ", artifact = "@
            + json_string(a.artifact@) + ", gen = "@ + gen,
    )
}

/// The id of an edge: each generation has its own.
pub open spec fn edge_id(gen: Seq<char>, from: Seq<char>, to: Seq<char>) -> Seq<char> {
    gen + "|"@ + from + "|"@ + to
}

/// A component's edge to an interface.
pub open spec fn surface_edge(t: Table, name: Seq<char>, iface: Seq<char>, gen: Seq<char>) -> StatementView {
    StatementView::Edge(
        t,
        edge_id(gen, name, iface),
        (Table::Artifact, name),
        (Table::Interface, iface),
    )
}

/// A component's edges to interfaces, over one table.
pub open spec fn table_edges(t: Table, name: Seq<char>, ifaces: Seq<Seq<char>>, gen: Seq<char>) -> Seq<
    StatementView,
> {
    ifaces.map_values(|i: Seq<char>| surface_edge(t, name, i, gen))
}

/// The edges of all components: what each imports, then what it exports.
pub open spec fn surface_edges(cs: Seq<Component>, gen: Seq<char>) -> Seq<StatementView>
    decreases cs.len(),
{
    if cs.len() == 0 {
        Seq::empty()
    } else {
        let c = cs.last();
        surface_edges(cs.drop_last(), gen) + table_edges(
            Table::Imports,
            c.name@,
            imports_of(c),
            gen,
        ) + table_edges(Table::Exports, c.name@, exports_of(c), gen)
    }
}

/// What an application carries: what its root is composed from, and the root.
pub open spec fn carried(a: App) -> Seq<Seq<char>> {
    let parts = strs(a.parts@);
    if parts.contains(a.root@) {
        parts
    } else {
        parts.push(a.root@)
    }
}

/// An application's edge to a component that it carries.
pub open spec fn carry_edge(app: Seq<char>, part: Seq<char>, gen: Seq<char>) -> StatementView {
    StatementView::Edge(
        Table::Carries,
        edge_id(gen, app, part),
        (Table::App, app),
        (Table::Artifact, part),
    )
}

/// The edges of one application.
pub open spec fn app_edges(a: App, gen: Seq<char>) -> Seq<StatementView> {
    carried(a).map_values(|p: Seq<char>| carry_edge(a.name@, p, gen))
}

/// The edges of all applications.
pub open spec fn carry_edges(apps: Seq<App>, gen: Seq<char>) -> Seq<StatementView>
    decreases apps.len(),
{
    if apps.len() == 0 {
        Seq::empty()
    } else {
        carry_edges(apps.drop_last(), gen) + app_edges(apps.last(), gen)
    }
}

/// How many names all components import.
pub open spec fn count_imports(cs: Seq<Component>) -> nat
    decreases cs.len(),
{
    if cs.len() == 0 {
        0
    } else {
        count_imports(cs.drop_last()) + imports_of(cs.last()).len()
    }
}

/// How many names all components export.
pub open spec fn count_exports(cs: Seq<Component>) -> nat
    decreases cs.len(),
{
    if cs.len() == 0 {
        0
    } else {
        count_exports(cs.drop_last()) + exports_of(cs.last()).len()
    }
}

/// How many components all applications carry.
pub open spec fn count_carried(apps: Seq<App>) -> nat
    decreases apps.len(),
{
    if apps.len() == 0 {
        0
    } else {
        count_carried(apps.drop_last()) + carried(apps.last()).len()
    }
}

/// What this build was: the one row that a rebuild adds and never takes away.
pub open spec fn build_node(
    cat: Catalog,
    ifaces: Seq<Seq<char>>,
    apps: Seq<App>,
    gen: Seq<char>,
    at: u64,
    commit: Seq<char>,
) -> StatementView {
    StatementView::Node(
        Table::Generation,
        gen,
        "gen = "@ + gen + ", at = "@ + dec_of(at as nat) + ", commit = "@ + json_string(commit)
            + ", interfaces = "@ + dec_of(ifaces.len()) + ", artifacts = "@ + dec_of(
            cat.components@.len(),
        ) + ", apps = "@ + dec_of(apps.len()) + ", imports = "@ + dec_of(
            count_imports(cat.components@),
        ) + ", exports = "@ + dec_of(count_exports(cat.components@)) + ", carries = "@ + dec_of(
            count_carried(apps),
        ),
    )
}

/// The nodes of a projection.
pub open spec fn nodes(cat: Catalog, ifaces: Seq<Seq<char>>, apps: Seq<App>, gen: Seq<char>) -> Seq<
    StatementView,
> {
    ifaces.map_values(|i: Seq<char>| interface_node(cat, i, gen)) + cat.components@.map_values(
        |c: Component| artifact_node(c, gen),
    ) + apps.map_values(|a: App| app_node(a, gen))
}

/// The edges of a projection.
pub open spec fn edges(cat: Catalog, apps: Seq<App>, gen: Seq<char>) -> Seq<StatementView> {
    surface_edges(cat.components@, gen) + carry_edges(apps, gen)
}

/// The tables that are aged out, in order.
pub open spec fn aged() -> Seq<StatementView> {
    seq![
        StatementView::Age(Table::Interface),
        StatementView::Age(Table::Artifact),
        StatementView::Age(Table::App),
        StatementView::Age(Table::Imports),
        StatementView::Age(Table::Exports),
        StatementView::Age(Table::Carries),
        StatementView::Age(Table::About),
    ]
}

/// The text of some statements.
pub open spec fn statements_text(ss: Seq<StatementView>, gen: Seq<char>) -> Seq<char>
    decreases ss.len(),
{
    if ss.len() == 0 {
        Seq::empty()
    } else {
        statements_text(ss.drop_last(), gen) + statement_text(ss.last(), gen)
    }
}

/// The statements of a projection, in order: the new generation lands before the old
/// one goes, so that a reader between the two sees both rather than neither.
pub open spec fn projection(
    cat: Catalog,
    ifaces: Seq<Seq<char>>,
    apps: Seq<App>,
    gen: Seq<char>,
    at: u64,
    commit: Seq<char>,
) -> Seq<StatementView> {
    (nodes(cat, ifaces, apps, gen) + edges(cat, apps, gen)).push(StatementView::About).push(
        build_node(cat, ifaces, apps, gen, at, commit),
    ) + aged()
}

/// The text of a projection.
pub open spec fn projection_text(
    cat: Catalog,
    ifaces: Seq<Seq<char>>,
    apps: Seq<App>,
    gen: Seq<char>,
    at: u64,
    commit: Seq<char>,
) -> Seq<char> {
    "-- comp-capgraph projection, generation "@ + gen
        + ".\n-- Derived from the built artifacts. Never hand-edit: the next rebuild\n-- overwrites this, and nothing here is anybody's only copy (ADR-0091).\n"@
        + statements_text(
        (nodes(cat, ifaces, apps, gen) + edges(cat, apps, gen)).push(StatementView::About),
        gen,
    ) + "\n-- This build, kept. Never aged out: it is the only history the store has.\n"@
        + statement_text(build_node(cat, ifaces, apps, gen, at, commit), gen)
        + "\n-- Age out the previous generation. Seven derived tables, and only\n-- rows older than this run — `memory` and `task` are unreachable from here.\n"@
        + statements_text(aged(), gen)
}

/// `text` is the projection of what was built, with the interfaces in order and each once.
pub open spec fn projects(
    text: Seq<char>,
    cat: Catalog,
    apps: Seq<App>,
    generation: nat,
    at: u64,
    commit: Seq<char>,
) -> bool {
    exists|ifaces: Seq<Seq<char>>|
        sorted_set_of(ifaces, mentioned(cat.components@)) && text == #[trigger] projection_text(
            cat,
            ifaces,
            apps,
            dec_of(generation),
            at,
            commit,
        )
}

fn names_mentioned(cs: &Vec<Component>) -> (out: Vec<String>)
    ensures
        strs(out@) == mentioned(cs@),
{
    let mut out: Vec<String> = Vec::new();
    let mut i: usize = 0;
    assert(cs@.take(0) =~= Seq::empty());
    assert(strs(out@) =~= mentioned(cs@.take(0)));
    while i < cs.len()
        invariant
            i <= cs.len(),
            strs(out@) == mentioned(cs@.take(i as int)),
        decreases cs.len() - i,
    {
        let ghost o = strs(out@);
        let c = &cs[i];
        match &c.surface {
            Some(s) => {
                add_texts(&mut out, &s.exports);
                add_texts(&mut out, &s.imports);
            },
            None => {
                assert(o + exports_of(*c) + imports_of(*c) =~= o);
            },
        }
        assert(cs@.take(i + 1).drop_last() =~= cs@.take(i as int));
        i = i + 1;
    }
    assert(cs@.take(i as int) =~= cs@);
    out
}

fn add_texts(out: &mut Vec<String>, more: &Vec<String>)
    ensures
        strs(final(out)@) == strs(old(out)@) + strs(more@),
{
    let ghost o = strs(out@);
    let mut i: usize = 0;
    assert(strs(out@) =~= o + strs(more@).take(0));
    while i < more.len()
        invariant
            i <= more.len(),
            strs(out@) == o + strs(more@).take(i as int),
        decreases more.len() - i,
    {
        let ghost b = out@;
        out.push(more[i].clone());
        assert(strs(out@) =~= strs(b).push(more@[i as int]@));
        assert(strs(more@).take(i + 1) =~= strs(more@).take(i as int).push(more@[i as int]@));
        assert(strs(out@) =~= o + strs(more@).take(i + 1));
        i = i + 1;
    }
    assert(strs(more@).take(i as int) =~= strs(more@));
}

fn interface_statement(cat: &Catalog, iface: &str, gen: &str) -> (s: Statement)
    requires
        cat.wf(),
    ensures
        s@ == interface_node(*cat, iface@, gen@),
{
    let exporter = match cat.exporters.get(iface) {
        Some(e) => e.clone(),
        None => String::new(),
    };
    let consumers: u64 = match cat.consumers.get(iface) {
        Some(n) => *n,
        None => 0,
    };
    assert(exporter@ =~= if cat.exporters@.contains_key(iface@) {
        cat.exporters@[iface@]@
    } else {
        Seq::empty()
    });
    let set = "name = ".to_string().concat(lit(iface).as_str()).concat(", exporter = ").concat(
        lit(exporter.as_str()).as_str(),
    ).concat(", consumers = ").concat(dec(consumers).as_str()).concat(", gen = ").concat(gen);
    Statement::Node(Table::Interface, iface.to_string(), set)
}

fn artifact_statement(c: &Component, gen: &str) -> (s: Statement)
    ensures
        s@ == artifact_node(*c, gen@),
{
    let set = "name = ".to_string().concat(lit(c.name.as_str()).as_str()).concat(
        ", digest = ",
    ).concat(lit(c.digest.as_str()).as_str()).concat(", gen = ").concat(gen);
    Statement::Node(Table::Artifact, c.name.clone(), set)
}

fn app_statement(a: &App, gen: &str) -> (s: Statement)
    ensures
        s@ == app_node(*a, gen@),
{
    let set = "name = ".to_string().concat(lit(a.name.as_str()).as_str()).concat(
        ", root = ",
    ).concat(lit(a.root.as_str()).as_str()).concat(", artifact = ").concat(
        lit(a.artifact.as_str()).as_str(),
    ).concat(", gen = ").concat(gen);
    Statement::Node(Table::App, a.name.clone(), set)
}

fn node_statements(cat: &Catalog, ifaces: &Vec<String>, apps: &Vec<App>, gen: &str) -> (out: Vec<
    Statement,
>)
    requires
        cat.wf(),
    ensures
        views(out@) == nodes(*cat, strs(ifaces@), apps@, gen@),
{
    let ghost f = |i: Seq<char>| interface_node(*cat, i, gen@);
    let ghost a = strs(ifaces@).map_values(f);
    let ghost b = cat.components@.map_values(|c: Component| artifact_node(c, gen@));
    let ghost d = apps@.map_values(|x: App| app_node(x, gen@));
    let mut out: Vec<Statement> = Vec::new();
    let mut i: usize = 0;
    assert(views(out@) =~= a.take(0));
    while i < ifaces.len()
        invariant
            i <= ifaces.len(),
            cat.wf(),
            a.len() == ifaces@.len(),
            forall|k: int|
                0 <= k < a.len() ==> #[trigger] a[k] == interface_node(
                    *cat,
                    ifaces@[k]@,
                    gen@,
                ),
            views(out@) == a.take(i as int),
        decreases ifaces.len() - i,
    {
        let s = interface_statement(cat, ifaces[i].as_str(), gen);
        let ghost o = out@;
        out.push(s);
        assert(views(out@) =~= views(o).push(s@));
        assert(a.take(i + 1) =~= a.take(i as int).push(a[i as int]));
        i = i + 1;
    }
    assert(a.take(i as int) =~= a);
    i = 0;
    assert(a + b.take(0) =~= a);
    while i < cat.components.len()
        invariant
            i <= cat.components@.len(),
            b == cat.components@.map_values(|c: Component| artifact_node(c, gen@)),
            views(out@) == a + b.take(i as int),
        decreases cat.components@.len() - i,
    {
        let s = artifact_statement(&cat.components[i], gen);
        let ghost o = out@;
        out.push(s);
        assert(views(out@) =~= views(o).push(s@));
        assert(b.take(i + 1) =~= b.take(i as int).push(b[i as int]));
        assert(a + b.take(i + 1) =~= (a + b.take(i as int)).push(b[i as int]));
        i = i + 1;
    }
    assert(b.take(i as int) =~= b);
    i = 0;
    assert(a + b + d.take(0) =~= a + b);
    while i < apps.len()
        invariant
            i <= apps.len(),
            d == apps@.map_values(|x: App| app_node(x, gen@)),
            views(out@) == a + b + d.take(i as int),
        decreases apps.len() - i,
    {
        let s = app_statement(&apps[i], gen);
        let ghost o = out@;
        out.push(s);
        assert(views(out@) =~= views(o).push(s@));
        assert(d.take(i + 1) =~= d.take(i as int).push(d[i as int]));
        assert(a + b + d.take(i + 1) =~= (a + b + d.take(i as int)).push(d[i as int]));
        i = i + 1;
    }
    assert(d.take(i as int) =~= d);
    assert(views(out@) =~= nodes(*cat, strs(ifaces@), apps@, gen@));
    out
}

fn add_edges(out: &mut Vec<Statement>, t: Table, name: &str, ifaces: &Vec<String>, gen: &str)
    ensures
        views(final(out)@) == views(old(out)@) + table_edges(t, name@, strs(ifaces@), gen@),
{
    let ghost o = views(out@);
    let ghost want = table_edges(t, name@, strs(ifaces@), gen@);
    let mut i: usize = 0;
    assert(o + want.take(0) =~= o);
    while i < ifaces.len()
        invariant
            i <= ifaces.len(),
            want == table_edges(t, name@, strs(ifaces@), gen@),
            views(out@) == o + want.take(i as int),
        decreases ifaces.len() - i,
    {
        let iface = ifaces[i].as_str();
        let id = gen.to_string().concat("|").concat(name).concat("|").concat(iface);
        let s = Statement::Edge(
            t,
            id,
            (Table::Artifact, name.to_string()),
            (Table::Interface, iface.to_string()),
        );
        let ghost b = out@;
        out.push(s);
        assert(views(out@) =~= views(b).push(s@));
        assert(s@ == want[i as int]);
        assert(want.take(i + 1) =~= want.take(i as int).push(want[i as int]));
        assert(o + want.take(i + 1) =~= (o + want.take(i as int)).push(want[i as int]));
        i = i + 1;
    }
    assert(want.take(i as int) =~= want);
}

fn carried_by(a: &App) -> (out: Vec<String>)
    ensures
        strs(out@) == carried(*a),
{
    let mut out: Vec<String> = Vec::new();
    add_texts(&mut out, &a.parts);
    assert(strs(out@) =~= strs(a.parts@));
    if !crate::text::is_among(&a.parts, a.root.as_str()) {
        let ghost o = out@;
        out.push(a.root.clone());
        assert(strs(out@) =~= strs(o).push(a.root@));
    }
    out
}

fn edge_statements(cat: &Catalog, apps: &Vec<App>, gen: &str) -> (out: Vec<Statement>)
    ensures
        views(out@) == edges(*cat, apps@, gen@),
{
    let cs = &cat.components;
    let mut out: Vec<Statement> = Vec::new();
    let mut i: usize = 0;
    assert(cs@.take(0) =~= Seq::empty());
    assert(views(out@) =~= surface_edges(cs@.take(0), gen@));
    while i < cs.len()
        invariant
            i <= cs.len(),
            views(out@) == surface_edges(cs@.take(i as int), gen@),
        decreases cs.len() - i,
    {
        let c = &cs[i];
        let ghost o = views(out@);
        match &c.surface {
            Some(s) => {
                add_edges(&mut out, Table::Imports, c.name.as_str(), &s.imports, gen);
                add_edges(&mut out, Table::Exports, c.name.as_str(), &s.exports, gen);
            },
            None => {
                assert(o + table_edges(Table::Imports, c.name@, imports_of(*c), gen@)
                    + table_edges(Table::Exports, c.name@, exports_of(*c), gen@) =~= o);
            },
        }
        assert(cs@.take(i + 1).drop_last() =~= cs@.take(i as int));
        i = i + 1;
    }
    assert(cs@.take(i as int) =~= cs@);
    let ghost first = views(out@);
    i = 0;
    assert(apps@.take(0) =~= Seq::empty());
    assert(first + carry_edges(apps@.take(0), gen@) =~= first);
    while i < apps.len()
        invariant
            i <= apps.len(),
            views(out@) == first + carry_edges(apps@.take(i as int), gen@),
        decreases apps.len() - i,
    {
        let a = &apps[i];
        let parts = carried_by(a);
        let ghost before = views(out@);
        let ghost want = app_edges(*a, gen@);
        let mut k: usize = 0;
        assert(before + want.take(0) =~= before);
        while k < parts.len()
            invariant
                k <= parts.len(),
                strs(parts@) == carried(*a),
                want == app_edges(*a, gen@),
                views(out@) == before + want.take(k as int),
            decreases parts.len() - k,
        {
            let part = parts[k].as_str();
            let id = gen.to_string().concat("|").concat(a.name.as_str()).concat("|").concat(part);
            let s = Statement::Edge(
                Table::Carries,
                id,
                (Table::App, a.name.clone()),
                (Table::Artifact, part.to_string()),
            );
            let ghost b = out@;
            out.push(s);
            assert(views(out@) =~= views(b).push(s@));
            assert(carried(*a)[k as int] == part@);
            assert(s@ == want[k as int]);
            assert(want.take(k + 1) =~= want.take(k as int).push(want[k as int]));
            assert(before + want.take(k + 1) =~= (before + want.take(k as int)).push(
                want[k as int],
            ));
            k = k + 1;
        }
        assert(want.take(k as int) =~= want);
        assert(apps@.take(i + 1).drop_last() =~= apps@.take(i as int));
        assert(first + carry_edges(apps@.take(i as int), gen@) + want =~= first + (carry_edges(
            apps@.take(i as int),
            gen@,
        ) + want));
        i = i + 1;
    }
    assert(apps@.take(i as int) =~= apps@);
    out
}

fn write_statements(ss: &Vec<Statement>, gen: &str) -> (out: String)
    ensures
        out@ == statements_text(views(ss@), gen@),
{
    let ghost vs = views(ss@);
    let mut out = String::new();
    let mut i: usize = 0;
    assert(vs.take(0) =~= Seq::empty());
    assert(out@ =~= statements_text(vs.take(0), gen@));
    while i < ss.len()
        invariant
            i <= ss.len(),
            vs == views(ss@),
            out@ == statements_text(vs.take(i as int), gen@),
        decreases ss.len() - i,
    {
        let t = write_statement(&ss[i], gen);
        out = out.concat(t.as_str());
        assert(vs.take(i + 1).drop_last() =~= vs.take(i as int));
        i = i + 1;
    }
    assert(vs.take(i as int) =~= vs);
    out
}

fn counts(cat: &Catalog, apps: &Vec<App>) -> (n: (u64, u64, u64))
    requires
        count_imports(cat.components@) <= u64::MAX,
        count_exports(cat.components@) <= u64::MAX,
        count_carried(apps@) <= u64::MAX,
    ensures
        n.0 == count_imports(cat.components@),
        n.1 == count_exports(cat.components@),
        n.2 == count_carried(apps@),
{
    let cs = &cat.components;
    let mut imports: u64 = 0;
    let mut exports: u64 = 0;
    let mut i: usize = 0;
    assert(cs@.take(0) =~= Seq::empty());
    while i < cs.len()
        invariant
            i <= cs.len(),
            cs@ == cat.components@,
            count_imports(cs@) <= u64::MAX,
            count_exports(cs@) <= u64::MAX,
            imports == count_imports(cs@.take(i as int)),
            exports == count_exports(cs@.take(i as int)),
        decreases cs.len() - i,
    {
        assert(cs@.take(i + 1).drop_last() =~= cs@.take(i as int));
        let (a, b): (usize, usize) = match &cs[i].surface {
            Some(s) => (s.imports.len(), s.exports.len()),
            None => (0, 0),
        };
        proof {
            lemma_counts_grow(cs@, i + 1);
        }
        imports = imports + a as u64;
        exports = exports + b as u64;
        i = i + 1;
    }
    assert(cs@.take(i as int) =~= cs@);
    let mut carries: u64 = 0;
    i = 0;
    assert(apps@.take(0) =~= Seq::empty());
    while i < apps.len()
        invariant
            i <= apps.len(),
            count_carried(apps@) <= u64::MAX,
            carries == count_carried(apps@.take(i as int)),
        decreases apps.len() - i,
    {
        assert(apps@.take(i + 1).drop_last() =~= apps@.take(i as int));
        let n = carried_by(&apps[i]).len();
        assert(n == carried(apps@[i as int]).len());
        proof {
            lemma_carried_grows(apps@, i + 1);
        }
        carries = carries + n as u64;
        i = i + 1;
    }
    assert(apps@.take(i as int) =~= apps@);
    (imports, exports, carries)
}

proof fn lemma_counts_grow(cs: Seq<Component>, i: int)
    requires
        0 <= i <= cs.len(),
    ensures
        count_imports(cs.take(i)) <= count_imports(cs),
        count_exports(cs.take(i)) <= count_exports(cs),
    decreases cs.len(),
{
    if i < cs.len() {
        lemma_counts_grow(cs.drop_last(), i);
        assert(cs.drop_last().take(i) =~= cs.take(i));
    } else {
        assert(cs.take(i) =~= cs);
    }
}

proof fn lemma_carried_grows(apps: Seq<App>, i: int)
    requires
        0 <= i <= apps.len(),
    ensures
        count_carried(apps.take(i)) <= count_carried(apps),
    decreases apps.len(),
{
    if i < apps.len() {
        lemma_carried_grows(apps.drop_last(), i);
        assert(apps.drop_last().take(i) =~= apps.take(i));
    } else {
        assert(apps.take(i) =~= apps);
    }
}

/// The capability graph as a projection at generation `generation`, made at `at` from
/// `commit`.
pub fn surql(cat: &Catalog, apps: &Vec<App>, generation: u64, at: u64, commit: &str) -> (out: String)
    requires
        cat.wf(),
        count_imports(cat.components@) <= u64::MAX,
        count_exports(cat.components@) <= u64::MAX,
        count_carried(apps@) <= u64::MAX,
    ensures
        projects(out@, *cat, apps@, generation as nat, at, commit@),
{
    let gen_text = dec(generation);
    let gen = gen_text.as_str();
    let all = names_mentioned(&cat.components);
    let ifaces = sorted_set(&all);
    let mut first = node_statements(cat, &ifaces, apps, gen);
    let mut more = edge_statements(cat, apps, gen);
    let ghost a = views(first@);
    let ghost b = views(more@);
    first.append(&mut more);
    assert(views(first@) =~= a + b);
    first.push(Statement::About);
    assert(views(first@) =~= (a + b).push(StatementView::About));
    let body = write_statements(&first, gen);
    let (imports, exports, carries) = counts(cat, apps);
    let set = "gen = ".to_string().concat(gen).concat(", at = ").concat(dec(at).as_str()).concat(
        ", commit = ",
    ).concat(lit(commit).as_str()).concat(", interfaces = ").concat(
        dec(ifaces.len() as u64).as_str(),
    ).concat(", artifacts = ").concat(dec(cat.components.len() as u64).as_str()).concat(
        ", apps = ",
    ).concat(dec(apps.len() as u64).as_str()).concat(", imports = ").concat(
        dec(imports).as_str(),
    ).concat(", exports = ").concat(dec(exports).as_str()).concat(", carries = ").concat(
        dec(carries).as_str(),
    );
    let build = write_statement(
        &Statement::Node(Table::Generation, gen.to_string(), set),
        gen,
    );
    let mut last: Vec<Statement> = Vec::new();
    last.push(Statement::Age(Table::Interface));
    last.push(Statement::Age(Table::Artifact));
    last.push(Statement::Age(Table::App));
    last.push(Statement::Age(Table::Imports));
    last.push(Statement::Age(Table::Exports));
    last.push(Statement::Age(Table::Carries));
    last.push(Statement::Age(Table::About));
    assert(views(last@) =~= aged());
    let age = write_statements(&last, gen);
    let out = "-- comp-capgraph projection, generation ".to_string().concat(gen).concat(
        ".\n-- Derived from the built artifacts. Never hand-edit: the next rebuild\n-- overwrites this, and nothing here is anybody's only copy (ADR-0091).\n",
    ).concat(body.as_str()).concat(
        "\n-- This build, kept. Never aged out: it is the only history the store has.\n",
    ).concat(build.as_str()).concat(
        "\n-- Age out the previous generation. Seven derived tables, and only\n-- rows older than this run — `memory` and `task` are unreachable from here.\n",
    ).concat(age.as_str());
    assert(out@ == projection_text(*cat, strs(ifaces@), apps@, gen@, at, commit@));
    out
}

// -------------------------------------------------------------------- laws --

/// The table that a statement writes rows of.
pub open spec fn writes(s: StatementView) -> Option<Table> {
    match s {
        StatementView::Node(t, _, _) => Some(t),
        StatementView::Edge(t, _, _, _) => Some(t),
        StatementView::About => Some(Table::About),
        StatementView::Age(_) => None,
    }
}

/// The table that a statement deletes rows of.
pub open spec fn deletes(s: StatementView) -> Option<Table> {
    match s {
        StatementView::Age(t) => Some(t),
        _ => None,
    }
}

proof fn lemma_edges_write(cs: Seq<Component>, apps: Seq<App>, gen: Seq<char>)
    ensures
        forall|i: int|
            0 <= i < surface_edges(cs, gen).len() ==> (#[trigger] surface_edges(cs, gen)[i]) is Edge
                && derived(surface_edges(cs, gen)[i]->Edge_0),
        forall|i: int|
            0 <= i < carry_edges(apps, gen).len() ==> (#[trigger] carry_edges(apps, gen)[i]) is Edge
                && derived(carry_edges(apps, gen)[i]->Edge_0),
    decreases cs.len() + apps.len(),
{
    if cs.len() > 0 {
        lemma_edges_write(cs.drop_last(), apps, gen);
    }
    if apps.len() > 0 {
        lemma_edges_write(cs, apps.drop_last(), gen);
    }
}

/// A rebuild deletes rows of derived tables alone, and writes rows of derived tables and
/// the one row of its own generation: what cannot be computed again is out of its reach.
pub proof fn law_a_rebuild_reaches_what_it_can_recompute(
    cat: Catalog,
    ifaces: Seq<Seq<char>>,
    apps: Seq<App>,
    gen: Seq<char>,
    at: u64,
    commit: Seq<char>,
    i: int,
)
    requires
        0 <= i < projection(cat, ifaces, apps, gen, at, commit).len(),
    ensures
        ({
            let s = projection(cat, ifaces, apps, gen, at, commit)[i];
            &&& deletes(s) matches Some(t) ==> derived(t)
            &&& writes(s) matches Some(t) ==> derived(t) || s == build_node(
                cat,
                ifaces,
                apps,
                gen,
                at,
                commit,
            )
        }),
{
    lemma_edges_write(cat.components@, apps, gen);
}

/// A node keeps its id from one generation to the next.
pub proof fn law_nodes_keep_their_ids(
    cat: Catalog,
    ifaces: Seq<Seq<char>>,
    apps: Seq<App>,
    one: Seq<char>,
    two: Seq<char>,
    i: int,
)
    requires
        0 <= i < nodes(cat, ifaces, apps, one).len(),
    ensures
        nodes(cat, ifaces, apps, two).len() == nodes(cat, ifaces, apps, one).len(),
        nodes(cat, ifaces, apps, one)[i] is Node,
        nodes(cat, ifaces, apps, two)[i] is Node,
        nodes(cat, ifaces, apps, two)[i]->Node_0 == nodes(cat, ifaces, apps, one)[i]->Node_0,
        nodes(cat, ifaces, apps, two)[i]->Node_1 == nodes(cat, ifaces, apps, one)[i]->Node_1,
{
}

proof fn lemma_replace_concat(a: Seq<char>, b: Seq<char>, c: char, with: Seq<char>)
    ensures
        replace_char_of(a + b, c, with) == replace_char_of(a, c, with) + replace_char_of(
            b,
            c,
            with,
        ),
    decreases b.len(),
{
    if b.len() == 0 {
        assert(a + b =~= a);
        assert(replace_char_of(a, c, with) + replace_char_of(b, c, with) =~= replace_char_of(
            a,
            c,
            with,
        ));
    } else {
        lemma_replace_concat(a, b.drop_last(), c, with);
        assert((a + b).drop_last() =~= a + b.drop_last());
        assert((a + b).last() == b.last());
        assert(replace_char_of(a + b, c, with) =~= replace_char_of(a, c, with) + replace_char_of(
            b,
            c,
            with,
        ));
    }
}

proof fn lemma_replace_none(s: Seq<char>, c: char, with: Seq<char>)
    requires
        forall|i: int| 0 <= i < s.len() ==> s[i] != c,
    ensures
        replace_char_of(s, c, with) == s,
    decreases s.len(),
{
    if s.len() > 0 {
        lemma_replace_none(s.drop_last(), c, with);
        assert(replace_char_of(s, c, with) =~= s);
    }
}

/// Every generation mints its own edge ids: no edge of one is an edge of another, so
/// that relating again is never refused.
pub proof fn law_edge_ids_belong_to_their_generation(
    one: nat,
    two: nat,
    table: Seq<char>,
    from: Seq<char>,
    to: Seq<char>,
    other_from: Seq<char>,
    other_to: Seq<char>,
)
    requires
        one != two,
    ensures
        rid_of(table, edge_id(dec_of(one), from, to)) != rid_of(
            table,
            edge_id(dec_of(two), other_from, other_to),
        ),
{
    let a = edge_id(dec_of(one), from, to);
    let b = edge_id(dec_of(two), other_from, other_to);
    lemma_edge_id(one, from, to);
    lemma_edge_id(two, other_from, other_to);
    let ra = replace_char_of(a, '⟩', ""@);
    let rb = replace_char_of(b, '⟩', ""@);
    if rid_of(table, a) == rid_of(table, b) {
        let head = table + ":⟨"@;
        assert(rid_of(table, a) =~= head + ra + "⟩"@);
        assert(rid_of(table, b) =~= head + rb + "⟩"@);
        assert(ra.len() == rb.len());
        assert((head + ra + "⟩"@).subrange(head.len() as int, (head.len() + ra.len()) as int)
            =~= ra);
        assert((head + rb + "⟩"@).subrange(head.len() as int, (head.len() + rb.len()) as int)
            =~= rb);
        assert(ra == rb);
        let (m, n) = (dec_of(one).len() as int, dec_of(two).len() as int);
        assert(ra[m] == '|' && rb[n] == '|');
        assert(forall|i: int| 0 <= i < m ==> ra[i] != '|');
        assert(forall|i: int| 0 <= i < n ==> rb[i] != '|');
        assert(m == n);
        assert(dec_of(one) =~= ra.take(m));
        assert(dec_of(two) =~= rb.take(n));
        law_decimal_reads_back(one);
        law_decimal_reads_back(two);
    }
}

proof fn lemma_edge_id(gen: nat, from: Seq<char>, to: Seq<char>)
    ensures
        ({
            let r = replace_char_of(edge_id(dec_of(gen), from, to), '⟩', ""@);
            let n = dec_of(gen).len() as int;
            &&& r.len() > n
            &&& r.take(n) == dec_of(gen)
            &&& r[n] == '|'
            &&& forall|i: int| 0 <= i < n ==> r[i] != '|'
        }),
{
    reveal_strlit("|");
    lemma_dec_digits(gen);
    let d = dec_of(gen);
    let head = d + "|"@;
    let tail = from + "|"@ + to;
    assert(edge_id(d, from, to) =~= head + tail);
    lemma_replace_concat(head, tail, '⟩', ""@);
    lemma_replace_none(head, '⟩', ""@);
    let r = replace_char_of(edge_id(d, from, to), '⟩', ""@);
    assert(r =~= head + replace_char_of(tail, '⟩', ""@));
    assert(r.take(d.len() as int) =~= d);
}

// --------------------------------------------------------------------- laws --

/// Every import of a component is an edge of imports from that component to that interface,
/// and every export an edge of exports; there are no other edges between components and
/// interfaces.
pub proof fn law_each_import_and_export_is_an_edge(cs: Seq<Component>, gen: Seq<char>, k: int, i: int)
    requires
        0 <= k < cs.len(),
    ensures
        0 <= i < imports_of(cs[k]).len() ==> surface_edges(cs, gen).contains(
            StatementView::Edge(
                Table::Imports,
                gen + "|"@ + cs[k].name@ + "|"@ + imports_of(cs[k])[i],
                (Table::Artifact, cs[k].name@),
                (Table::Interface, imports_of(cs[k])[i]),
            ),
        ),
        0 <= i < exports_of(cs[k]).len() ==> surface_edges(cs, gen).contains(
            StatementView::Edge(
                Table::Exports,
                gen + "|"@ + cs[k].name@ + "|"@ + exports_of(cs[k])[i],
                (Table::Artifact, cs[k].name@),
                (Table::Interface, exports_of(cs[k])[i]),
            ),
        ),
        surface_edges(cs, gen).len() == count_imports(cs) + count_exports(cs),
    decreases cs.len(),
{
    let c = cs.last();
    let earlier = surface_edges(cs.drop_last(), gen);
    let ins = table_edges(Table::Imports, c.name@, imports_of(c), gen);
    let outs = table_edges(Table::Exports, c.name@, exports_of(c), gen);
    let all = surface_edges(cs, gen);
    assert(all == earlier + ins + outs);
    if cs.len() > 1 {
        law_each_import_and_export_is_an_edge(
            cs.drop_last(),
            gen,
            if k < cs.len() - 1 {
                k
            } else {
                0
            },
            i,
        );
    } else {
        assert(earlier.len() == 0);
        assert(count_imports(cs.drop_last()) == 0 && count_exports(cs.drop_last()) == 0);
    }
    if k < cs.len() - 1 {
        assert(cs.drop_last()[k] == cs[k]);
        assert forall|e: StatementView| earlier.contains(e) implies #[trigger] all.contains(e) by {
            let j = choose|j: int| 0 <= j < earlier.len() && earlier[j] == e;
            assert(all[j] == e);
        }
    } else {
        assert(cs[k] == c);
        if 0 <= i < imports_of(c).len() {
            assert(all[earlier.len() + i] == ins[i]);
        }
        if 0 <= i < exports_of(c).len() {
            assert(all[earlier.len() + ins.len() + i] == outs[i]);
        }
    }
}

/// An application carries its parts and its root, each once more than it lists them only where
/// the root was not listed; and each that it carries is an edge from the application to it.
pub proof fn law_each_part_that_an_app_carries_is_an_edge(apps: Seq<App>, gen: Seq<char>, k: int, i: int)
    requires
        0 <= k < apps.len(),
        0 <= i < carried(apps[k]).len(),
    ensures
        carry_edges(apps, gen).contains(
            StatementView::Edge(
                Table::Carries,
                gen + "|"@ + apps[k].name@ + "|"@ + carried(apps[k])[i],
                (Table::App, apps[k].name@),
                (Table::Artifact, carried(apps[k])[i]),
            ),
        ),
        carried(apps[k]).contains(apps[k].root@),
        strs(apps[k].parts@).is_prefix_of(carried(apps[k])),
        carried(apps[k]).len() == apps[k].parts@.len() <==> strs(apps[k].parts@).contains(
            apps[k].root@,
        ),
    decreases apps.len(),
{
    let earlier = carry_edges(apps.drop_last(), gen);
    let mine = app_edges(apps.last(), gen);
    let all = carry_edges(apps, gen);
    let parts = strs(apps[k].parts@);
    assert(parts.push(apps[k].root@)[parts.len() as int] == apps[k].root@);
    assert(parts.push(apps[k].root@).subrange(0, parts.len() as int) =~= parts);
    assert(parts.subrange(0, parts.len() as int) =~= parts);
    if k < apps.len() - 1 {
        law_each_part_that_an_app_carries_is_an_edge(apps.drop_last(), gen, k, i);
        let e = carry_edge(apps[k].name@, carried(apps[k])[i], gen);
        let j = choose|j: int| 0 <= j < earlier.len() && earlier[j] == e;
        assert(all[j] == e);
    } else {
        assert(all[earlier.len() + i] == mine[i]);
    }
}

/// Exactly the derived tables are aged.
pub proof fn law_exactly_what_is_derived_is_aged(t: Table)
    ensures
        aged().contains(StatementView::Age(t)) <==> t != Table::Generation,
{
    let all = aged();
    assert(all[0] == StatementView::Age(Table::Interface));
    assert(all[1] == StatementView::Age(Table::Artifact));
    assert(all[2] == StatementView::Age(Table::App));
    assert(all[3] == StatementView::Age(Table::Imports));
    assert(all[4] == StatementView::Age(Table::Exports));
    assert(all[5] == StatementView::Age(Table::Carries));
    assert(all[6] == StatementView::Age(Table::About));
}

/// A component is mentioned by what it exports and what it imports.
pub proof fn law_what_is_mentioned(cs: Seq<Component>, n: Seq<char>)
    ensures
        mentioned(cs).contains(n) <==> exists|k: int|
            0 <= k < cs.len() && (exports_of(#[trigger] cs[k]).contains(n) || imports_of(
                cs[k],
            ).contains(n)),
    decreases cs.len(),
{
    if cs.len() > 0 {
        let p = cs.drop_last();
        law_what_is_mentioned(p, n);
        let (m, x, y) = (mentioned(p), exports_of(cs.last()), imports_of(cs.last()));
        let all = m + x + y;
        assert(mentioned(cs) == all);
        if m.contains(n) {
            let j = choose|j: int| 0 <= j < m.len() && m[j] == n;
            assert(all[j] == n);
            let k = choose|k: int|
                0 <= k < p.len() && (exports_of(#[trigger] p[k]).contains(n) || imports_of(
                    p[k],
                ).contains(n));
            assert(cs[k] == p[k]);
        }
        assert(cs[cs.len() - 1] == cs.last());
        if x.contains(n) {
            let j = choose|j: int| 0 <= j < x.len() && x[j] == n;
            assert(all[m.len() + j] == n);
        }
        if y.contains(n) {
            let j = choose|j: int| 0 <= j < y.len() && y[j] == n;
            assert(all[m.len() + x.len() + j] == n);
        }
        if all.contains(n) {
            let j = choose|j: int| 0 <= j < all.len() && all[j] == n;
            if j < m.len() {
                assert(m[j] == n);
            } else if j < m.len() + x.len() {
                assert(x[j - m.len()] == n);
            } else {
                assert(y[j - m.len() - x.len()] == n);
            }
        }
        if exists|k: int|
            0 <= k < cs.len() && (exports_of(#[trigger] cs[k]).contains(n) || imports_of(
                cs[k],
            ).contains(n)) {
            let k = choose|k: int|
                0 <= k < cs.len() && (exports_of(#[trigger] cs[k]).contains(n) || imports_of(
                    cs[k],
                ).contains(n));
            if k < p.len() {
                assert(p[k] == cs[k]);
            }
        }
    }
}

/// An interface is stored by its name, with who exports it and how many use it.
pub proof fn law_an_interface_is_stored_with_its_exporter(cat: Catalog, iface: Seq<char>, gen: Seq<char>)
    ensures
        holds(interface_node(cat, iface, gen)->Node_2, "name = "@ + json_string(iface)),
        holds(interface_node(cat, iface, gen)->Node_2, ", exporter = "@ + json_string(
        if cat.exporters@.contains_key(iface) {
            cat.exporters@[iface]@
        } else {
            Seq::empty()
        },
    )),
        holds(interface_node(cat, iface, gen)->Node_2, ", consumers = "@ + dec_of(
        if cat.consumers@.contains_key(iface) {
            cat.consumers@[iface] as nat
        } else {
            0
        },
    )),
        holds(interface_node(cat, iface, gen)->Node_2, ", gen = "@ + gen),
{
    let c0 = "name = "@;
    let c1 = json_string(iface);
    let c2 = ", exporter = "@;
    let c3 = json_string(
        if cat.exporters@.contains_key(iface) {
            cat.exporters@[iface]@
        } else {
            Seq::empty()
        },
    );
    let c4 = ", consumers = "@;
    let c5 = dec_of(
        if cat.consumers@.contains_key(iface) {
            cat.consumers@[iface] as nat
        } else {
            0
        },
    );
    let c6 = ", gen = "@;
    let c7 = gen;
    let s0 = c0;
    let s1 = s0 + c1;
    let s2 = s1 + c2;
    let s3 = s2 + c3;
    let s4 = s3 + c4;
    let s5 = s4 + c5;
    let s6 = s5 + c6;
    let s7 = s6 + c7;
    lemma_holds_itself(s1);
    lemma_holds_longer(s1, s1, c2);
    lemma_holds_longer(s2, s1, c3);
    lemma_holds_longer(s3, s1, c4);
    lemma_holds_longer(s4, s1, c5);
    lemma_holds_longer(s5, s1, c6);
    lemma_holds_longer(s6, s1, c7);
    lemma_assoc(s1, c2, c3);
    lemma_holds_end(s1, c2 + c3);
    lemma_holds_longer(s3, c2 + c3, c4);
    lemma_holds_longer(s4, c2 + c3, c5);
    lemma_holds_longer(s5, c2 + c3, c6);
    lemma_holds_longer(s6, c2 + c3, c7);
    lemma_assoc(s3, c4, c5);
    lemma_holds_end(s3, c4 + c5);
    lemma_holds_longer(s5, c4 + c5, c6);
    lemma_holds_longer(s6, c4 + c5, c7);
    lemma_assoc(s5, c6, c7);
    lemma_holds_end(s5, c6 + c7);
}

/// An artifact is stored by its name, with its digest.
pub proof fn law_an_artifact_is_stored_with_its_digest(c: Component, gen: Seq<char>)
    ensures
        holds(artifact_node(c, gen)->Node_2, "name = "@ + json_string(c.name@)),
        holds(artifact_node(c, gen)->Node_2, ", digest = "@ + json_string(c.digest@)),
        holds(artifact_node(c, gen)->Node_2, ", gen = "@ + gen),
{
    let c0 = "name = "@;
    let c1 = json_string(c.name@);
    let c2 = ", digest = "@;
    let c3 = json_string(c.digest@);
    let c4 = ", gen = "@;
    let c5 = gen;
    let s0 = c0;
    let s1 = s0 + c1;
    let s2 = s1 + c2;
    let s3 = s2 + c3;
    let s4 = s3 + c4;
    let s5 = s4 + c5;
    lemma_holds_itself(s1);
    lemma_holds_longer(s1, s1, c2);
    lemma_holds_longer(s2, s1, c3);
    lemma_holds_longer(s3, s1, c4);
    lemma_holds_longer(s4, s1, c5);
    lemma_assoc(s1, c2, c3);
    lemma_holds_end(s1, c2 + c3);
    lemma_holds_longer(s3, c2 + c3, c4);
    lemma_holds_longer(s4, c2 + c3, c5);
    lemma_assoc(s3, c4, c5);
    lemma_holds_end(s3, c4 + c5);
}

/// An application is stored by its name, with the component at its root and its artifact.
pub proof fn law_an_app_is_stored_with_its_root(a: App, gen: Seq<char>)
    ensures
        holds(app_node(a, gen)->Node_2, "name = "@ + json_string(a.name@)),
        holds(app_node(a, gen)->Node_2, ", root = "@ + json_string(a.root@)),
        holds(app_node(a, gen)->Node_2, ", artifact = "@ + json_string(a.artifact@)),
        holds(app_node(a, gen)->Node_2, ", gen = "@ + gen),
{
    let c0 = "name = "@;
    let c1 = json_string(a.name@);
    let c2 = ", root = "@;
    let c3 = json_string(a.root@);
    let c4 = ", artifact = "@;
    let c5 = json_string(a.artifact@);
    let c6 = ", gen = "@;
    let c7 = gen;
    let s0 = c0;
    let s1 = s0 + c1;
    let s2 = s1 + c2;
    let s3 = s2 + c3;
    let s4 = s3 + c4;
    let s5 = s4 + c5;
    let s6 = s5 + c6;
    let s7 = s6 + c7;
    lemma_holds_itself(s1);
    lemma_holds_longer(s1, s1, c2);
    lemma_holds_longer(s2, s1, c3);
    lemma_holds_longer(s3, s1, c4);
    lemma_holds_longer(s4, s1, c5);
    lemma_holds_longer(s5, s1, c6);
    lemma_holds_longer(s6, s1, c7);
    lemma_assoc(s1, c2, c3);
    lemma_holds_end(s1, c2 + c3);
    lemma_holds_longer(s3, c2 + c3, c4);
    lemma_holds_longer(s4, c2 + c3, c5);
    lemma_holds_longer(s5, c2 + c3, c6);
    lemma_holds_longer(s6, c2 + c3, c7);
    lemma_assoc(s3, c4, c5);
    lemma_holds_end(s3, c4 + c5);
    lemma_holds_longer(s5, c4 + c5, c6);
    lemma_holds_longer(s6, c4 + c5, c7);
    lemma_assoc(s5, c6, c7);
    lemma_holds_end(s5, c6 + c7);
}

/// A build is stored with its moment and commit, and with how many interfaces, artifacts, apps,
/// imports, exports and carried parts it counted.
pub proof fn law_a_build_is_stored_with_its_counts(cat: Catalog, ifaces: Seq<Seq<char>>, apps: Seq<App>, gen: Seq<char>, at: u64, commit: Seq<char>)
    ensures
        holds(build_node(cat, ifaces, apps, gen, at, commit)->Node_2, "gen = "@ + gen),
        holds(build_node(cat, ifaces, apps, gen, at, commit)->Node_2, ", at = "@ + dec_of(at as nat)),
        holds(build_node(cat, ifaces, apps, gen, at, commit)->Node_2, ", commit = "@ + json_string(commit)),
        holds(build_node(cat, ifaces, apps, gen, at, commit)->Node_2, ", interfaces = "@ + dec_of(ifaces.len())),
        holds(build_node(cat, ifaces, apps, gen, at, commit)->Node_2, ", artifacts = "@ + dec_of(cat.components@.len())),
        holds(build_node(cat, ifaces, apps, gen, at, commit)->Node_2, ", apps = "@ + dec_of(apps.len())),
        holds(build_node(cat, ifaces, apps, gen, at, commit)->Node_2, ", imports = "@ + dec_of(count_imports(cat.components@))),
        holds(build_node(cat, ifaces, apps, gen, at, commit)->Node_2, ", exports = "@ + dec_of(count_exports(cat.components@))),
        holds(build_node(cat, ifaces, apps, gen, at, commit)->Node_2, ", carries = "@ + dec_of(count_carried(apps))),
{
    let c0 = "gen = "@;
    let c1 = gen;
    let c2 = ", at = "@;
    let c3 = dec_of(at as nat);
    let c4 = ", commit = "@;
    let c5 = json_string(commit);
    let c6 = ", interfaces = "@;
    let c7 = dec_of(ifaces.len());
    let c8 = ", artifacts = "@;
    let c9 = dec_of(cat.components@.len());
    let c10 = ", apps = "@;
    let c11 = dec_of(apps.len());
    let c12 = ", imports = "@;
    let c13 = dec_of(count_imports(cat.components@));
    let c14 = ", exports = "@;
    let c15 = dec_of(count_exports(cat.components@));
    let c16 = ", carries = "@;
    let c17 = dec_of(count_carried(apps));
    let s0 = c0;
    let s1 = s0 + c1;
    let s2 = s1 + c2;
    let s3 = s2 + c3;
    let s4 = s3 + c4;
    let s5 = s4 + c5;
    let s6 = s5 + c6;
    let s7 = s6 + c7;
    let s8 = s7 + c8;
    let s9 = s8 + c9;
    let s10 = s9 + c10;
    let s11 = s10 + c11;
    let s12 = s11 + c12;
    let s13 = s12 + c13;
    let s14 = s13 + c14;
    let s15 = s14 + c15;
    let s16 = s15 + c16;
    let s17 = s16 + c17;
    lemma_holds_itself(s1);
    lemma_holds_longer(s1, s1, c2);
    lemma_holds_longer(s2, s1, c3);
    lemma_holds_longer(s3, s1, c4);
    lemma_holds_longer(s4, s1, c5);
    lemma_holds_longer(s5, s1, c6);
    lemma_holds_longer(s6, s1, c7);
    lemma_holds_longer(s7, s1, c8);
    lemma_holds_longer(s8, s1, c9);
    lemma_holds_longer(s9, s1, c10);
    lemma_holds_longer(s10, s1, c11);
    lemma_holds_longer(s11, s1, c12);
    lemma_holds_longer(s12, s1, c13);
    lemma_holds_longer(s13, s1, c14);
    lemma_holds_longer(s14, s1, c15);
    lemma_holds_longer(s15, s1, c16);
    lemma_holds_longer(s16, s1, c17);
    lemma_assoc(s1, c2, c3);
    lemma_holds_end(s1, c2 + c3);
    lemma_holds_longer(s3, c2 + c3, c4);
    lemma_holds_longer(s4, c2 + c3, c5);
    lemma_holds_longer(s5, c2 + c3, c6);
    lemma_holds_longer(s6, c2 + c3, c7);
    lemma_holds_longer(s7, c2 + c3, c8);
    lemma_holds_longer(s8, c2 + c3, c9);
    lemma_holds_longer(s9, c2 + c3, c10);
    lemma_holds_longer(s10, c2 + c3, c11);
    lemma_holds_longer(s11, c2 + c3, c12);
    lemma_holds_longer(s12, c2 + c3, c13);
    lemma_holds_longer(s13, c2 + c3, c14);
    lemma_holds_longer(s14, c2 + c3, c15);
    lemma_holds_longer(s15, c2 + c3, c16);
    lemma_holds_longer(s16, c2 + c3, c17);
    lemma_assoc(s3, c4, c5);
    lemma_holds_end(s3, c4 + c5);
    lemma_holds_longer(s5, c4 + c5, c6);
    lemma_holds_longer(s6, c4 + c5, c7);
    lemma_holds_longer(s7, c4 + c5, c8);
    lemma_holds_longer(s8, c4 + c5, c9);
    lemma_holds_longer(s9, c4 + c5, c10);
    lemma_holds_longer(s10, c4 + c5, c11);
    lemma_holds_longer(s11, c4 + c5, c12);
    lemma_holds_longer(s12, c4 + c5, c13);
    lemma_holds_longer(s13, c4 + c5, c14);
    lemma_holds_longer(s14, c4 + c5, c15);
    lemma_holds_longer(s15, c4 + c5, c16);
    lemma_holds_longer(s16, c4 + c5, c17);
    lemma_assoc(s5, c6, c7);
    lemma_holds_end(s5, c6 + c7);
    lemma_holds_longer(s7, c6 + c7, c8);
    lemma_holds_longer(s8, c6 + c7, c9);
    lemma_holds_longer(s9, c6 + c7, c10);
    lemma_holds_longer(s10, c6 + c7, c11);
    lemma_holds_longer(s11, c6 + c7, c12);
    lemma_holds_longer(s12, c6 + c7, c13);
    lemma_holds_longer(s13, c6 + c7, c14);
    lemma_holds_longer(s14, c6 + c7, c15);
    lemma_holds_longer(s15, c6 + c7, c16);
    lemma_holds_longer(s16, c6 + c7, c17);
    lemma_assoc(s7, c8, c9);
    lemma_holds_end(s7, c8 + c9);
    lemma_holds_longer(s9, c8 + c9, c10);
    lemma_holds_longer(s10, c8 + c9, c11);
    lemma_holds_longer(s11, c8 + c9, c12);
    lemma_holds_longer(s12, c8 + c9, c13);
    lemma_holds_longer(s13, c8 + c9, c14);
    lemma_holds_longer(s14, c8 + c9, c15);
    lemma_holds_longer(s15, c8 + c9, c16);
    lemma_holds_longer(s16, c8 + c9, c17);
    lemma_assoc(s9, c10, c11);
    lemma_holds_end(s9, c10 + c11);
    lemma_holds_longer(s11, c10 + c11, c12);
    lemma_holds_longer(s12, c10 + c11, c13);
    lemma_holds_longer(s13, c10 + c11, c14);
    lemma_holds_longer(s14, c10 + c11, c15);
    lemma_holds_longer(s15, c10 + c11, c16);
    lemma_holds_longer(s16, c10 + c11, c17);
    lemma_assoc(s11, c12, c13);
    lemma_holds_end(s11, c12 + c13);
    lemma_holds_longer(s13, c12 + c13, c14);
    lemma_holds_longer(s14, c12 + c13, c15);
    lemma_holds_longer(s15, c12 + c13, c16);
    lemma_holds_longer(s16, c12 + c13, c17);
    lemma_assoc(s13, c14, c15);
    lemma_holds_end(s13, c14 + c15);
    lemma_holds_longer(s15, c14 + c15, c16);
    lemma_holds_longer(s16, c14 + c15, c17);
    lemma_assoc(s15, c16, c17);
    lemma_holds_end(s15, c16 + c17);
}

/// An edge is written from its source through its own table to its target.
pub proof fn law_an_edge_is_written_from_its_source(t: Table, id: Seq<char>, a: (Table, Seq<char>), b: (Table, Seq<char>), gen: Seq<char>)
    ensures
        holds(statement_text(StatementView::Edge(t, id, a, b), gen), "RELATE "@ + rid_of(table_name(a.0), a.1) + "->"@),
        holds(statement_text(StatementView::Edge(t, id, a, b), gen), "->"@ + rid_of(table_name(t), id) + "->"@),
        holds(statement_text(StatementView::Edge(t, id, a, b), gen), "->"@ + rid_of(table_name(b.0), b.1) + " SET gen = "@),
        holds(statement_text(StatementView::Edge(t, id, a, b), gen), " SET gen = "@ + gen + ";\n"@),
{
    let c0 = "RELATE "@;
    let c1 = rid_of(table_name(a.0), a.1);
    let c2 = "->"@;
    let c3 = rid_of(table_name(t), id);
    let c4 = "->"@;
    let c5 = rid_of(table_name(b.0), b.1);
    let c6 = " SET gen = "@;
    let c7 = gen;
    let c8 = ";\n"@;
    let s0 = c0;
    let s1 = s0 + c1;
    let s2 = s1 + c2;
    let s3 = s2 + c3;
    let s4 = s3 + c4;
    let s5 = s4 + c5;
    let s6 = s5 + c6;
    let s7 = s6 + c7;
    let s8 = s7 + c8;
    lemma_holds_itself(s2);
    lemma_holds_longer(s2, s2, c3);
    lemma_holds_longer(s3, s2, c4);
    lemma_holds_longer(s4, s2, c5);
    lemma_holds_longer(s5, s2, c6);
    lemma_holds_longer(s6, s2, c7);
    lemma_holds_longer(s7, s2, c8);
    lemma_assoc(s1, c2, c3);
    lemma_assoc(s1, c2 + c3, c4);
    lemma_holds_end(s1, c2 + c3 + c4);
    lemma_holds_longer(s4, c2 + c3 + c4, c5);
    lemma_holds_longer(s5, c2 + c3 + c4, c6);
    lemma_holds_longer(s6, c2 + c3 + c4, c7);
    lemma_holds_longer(s7, c2 + c3 + c4, c8);
    lemma_assoc(s3, c4, c5);
    lemma_assoc(s3, c4 + c5, c6);
    lemma_holds_end(s3, c4 + c5 + c6);
    lemma_holds_longer(s6, c4 + c5 + c6, c7);
    lemma_holds_longer(s7, c4 + c5 + c6, c8);
    lemma_assoc(s5, c6, c7);
    lemma_assoc(s5, c6 + c7, c8);
    lemma_holds_end(s5, c6 + c7 + c8);
}

/// A projection is written statement by statement, in order.
pub proof fn law_statements_are_written_in_order(ss: Seq<StatementView>, s: StatementView, gen: Seq<char>)
    ensures
        statements_text(ss.push(s), gen) == statements_text(ss, gen) + statement_text(s, gen),
        statements_text(Seq::empty(), gen) == Seq::<char>::empty(),
        (s matches StatementView::Node(t, id, set) ==> statement_text(s, gen) == "UPSERT "@ + rid_of(
            table_name(t),
            id,
        ) + " SET "@ + set + ";\n"@),
        (s matches StatementView::Age(t) ==> statement_text(s, gen) == "DELETE "@ + table_name(t)
            + " WHERE gen < "@ + gen + ";\n"@),
{
    assert(ss.push(s).drop_last() =~= ss);
}

/// A projection holds a node for each interface, each component and each application, and every
/// edge; then the build, and then what ages.
pub proof fn law_what_a_projection_holds(
    cat: Catalog,
    ifaces: Seq<Seq<char>>,
    apps: Seq<App>,
    gen: Seq<char>,
    at: u64,
    commit: Seq<char>,
    i: int,
)
    ensures
        ({
            let p = projection(cat, ifaces, apps, gen, at, commit);
            let n = ifaces.len() + cat.components@.len() + apps.len();
            let e = surface_edges(cat.components@, gen).len() + carry_edges(apps, gen).len();
            &&& p.len() == n + e + 2 + 7
            &&& 0 <= i < ifaces.len() ==> p[i] == interface_node(cat, ifaces[i], gen)
            &&& 0 <= i < cat.components@.len() ==> p[ifaces.len() + i] == artifact_node(
                cat.components@[i],
                gen,
            )
            &&& 0 <= i < apps.len() ==> p[ifaces.len() + cat.components@.len() + i] == app_node(
                apps[i],
                gen,
            )
            &&& 0 <= i < surface_edges(cat.components@, gen).len() ==> p[n + i] == surface_edges(
                cat.components@,
                gen,
            )[i]
            &&& 0 <= i < carry_edges(apps, gen).len() ==> p[n + surface_edges(
                cat.components@,
                gen,
            ).len() + i] == carry_edges(apps, gen)[i]
            &&& p[(n + e) as int] is About
            &&& p[(n + e + 1) as int] == build_node(cat, ifaces, apps, gen, at, commit)
        }),
{
}

/// A statement is seen with its table, its name and what it sets; an edge with both its ends.
pub proof fn law_a_statement_is_seen_whole(ss: Seq<Statement>, i: int)
    requires
        0 <= i < ss.len(),
    ensures
        views(ss).len() == ss.len(),
        ss[i] matches Statement::Node(t, id, set) ==> views(ss)[i] == StatementView::Node(
            t,
            id@,
            set@,
        ),
        ss[i] matches Statement::Edge(t, id, a, b) ==> views(ss)[i] == StatementView::Edge(
            t,
            id@,
            (a.0, a.1@),
            (b.0, b.1@),
        ),
        ss[i] is About <==> views(ss)[i] is About,
        ss[i] matches Statement::Age(t) ==> views(ss)[i] == StatementView::Age(t),
{
}

} // verus!
