//! The lines of a projection: which rows they write, which edges they relate, and what two
//! builds have in common.

use vstd::prelude::*;
use vstd::string::*;

use crate::capgraph::{App, Catalog, Component, StatementView, Table, about_text, aged, app_edges, app_node, artifact_node, build_node, carried, carry_edges, edge_id, edges, exports_of, imports_of, interface_node, lemma_edge_id, mentioned, nodes, projection, projection_text, projects, rid_of, statement_text, statements_text, surface_edges, table_edges, table_name, writes};
use crate::json::{json_char, json_chars, json_string};
use crate::number::{dec_of, digit_char, digit_value, law_decimal_reads_back, lemma_dec_digits};
use crate::order::{lemma_sorted_set_is_one, sorted_set_of};
use crate::text::{find_from, holds, is_char, lemma_filter_map_joined, lemma_find, lemma_lines_joined, lemma_split_plain, lemma_words_joined, lemma_words_plain, lines_of, occurs_at, replace_char_of, space, split_of, split_where, strip_cr, words_of};

verus! {

// ------------------------------------------------------------ what is read --

/// The second word of a line.
pub open spec fn second_word(line: Seq<char>) -> Seq<char> {
    if words_of(line).len() > 1 {
        words_of(line)[1]
    } else {
        Seq::empty()
    }
}

/// What stands between the first two arrows of a line.
pub open spec fn between_arrows(line: Seq<char>) -> Seq<char> {
    match find_from(line, "->"@, 0) {
        None => Seq::empty(),
        Some(i) => {
            let rest = line.skip(i + 2);
            match find_from(rest, "->"@, 0) {
                None => rest,
                Some(j) => rest.take(j),
            }
        },
    }
}

/// The row that a line writes, where it is a row of the graph.
pub open spec fn node_line(line: Seq<char>) -> Option<Seq<char>> {
    if "UPSERT"@.is_prefix_of(line) && !"UPSERT generation"@.is_prefix_of(line) {
        Some(second_word(line))
    } else {
        None
    }
}

/// The row that a line writes, where it is that of a build.
pub open spec fn build_line(line: Seq<char>) -> Option<Seq<char>> {
    if "UPSERT generation"@.is_prefix_of(line) {
        Some(second_word(line))
    } else {
        None
    }
}

/// The edge that a line relates.
pub open spec fn edge_line(line: Seq<char>) -> Option<Seq<char>> {
    if "RELATE"@.is_prefix_of(line) {
        Some(between_arrows(line))
    } else {
        None
    }
}

/// What some test picks out of the lines of a text.
pub open spec fn picked(text: Seq<char>, f: spec_fn(Seq<char>) -> Option<Seq<char>>) -> Seq<
    Seq<char>,
> {
    lines_of(text).filter_map(f)
}

/// The ids of the rows of the graph that a text writes.
pub open spec fn node_ids(text: Seq<char>) -> Seq<Seq<char>> {
    picked(text, |l: Seq<char>| node_line(l))
}

/// The ids of the builds that a text writes.
pub open spec fn build_ids(text: Seq<char>) -> Seq<Seq<char>> {
    picked(text, |l: Seq<char>| build_line(l))
}

/// The ids of the edges that a text relates.
pub open spec fn edge_ids(text: Seq<char>) -> Seq<Seq<char>> {
    picked(text, |l: Seq<char>| edge_line(l))
}

// ------------------------------------------------------------------- lines --

/// No line ends in it.
pub open spec fn one_line(s: Seq<char>) -> bool {
    forall|i: int| 0 <= i < s.len() ==> s[i] != '\n'
}

spec fn ended(t: Seq<char>) -> bool {
    t.len() == 0 || t.last() == '\n'
}

/// A line that no test picks begins with another letter.
spec fn quiet(f: spec_fn(Seq<char>) -> Option<Seq<char>>) -> bool {
    forall|l: Seq<char>| (l.len() == 0 || l[0] != 'U' && l[0] != 'R') ==> (#[trigger] f(l)) is None
}

/// No line of it begins with a letter that a test looks for.
spec fn calm(t: Seq<char>) -> bool {
    forall|i: int|
        0 <= i < t.len() && (i == 0 || t[i - 1] == '\n') ==> (#[trigger] t[i]) != 'U' && t[i] != 'R'
}

proof fn lemma_tests_are_quiet()
    ensures
        quiet(|l: Seq<char>| node_line(l)),
        quiet(|l: Seq<char>| build_line(l)),
        quiet(|l: Seq<char>| edge_line(l)),
{
    reveal_strlit("UPSERT");
    reveal_strlit("UPSERT generation");
    reveal_strlit("RELATE");
    assert forall|l: Seq<char>| (l.len() == 0 || l[0] != 'U' && l[0] != 'R') implies node_line(
        l,
    ) is None && build_line(l) is None && edge_line(l) is None by {
        if "UPSERT"@.is_prefix_of(l) {
            assert(l.subrange(0, 6)[0] == "UPSERT"@[0]);
        }
        if "UPSERT generation"@.is_prefix_of(l) {
            assert(l.subrange(0, 17)[0] == "UPSERT generation"@[0]);
        }
        if "RELATE"@.is_prefix_of(l) {
            assert(l.subrange(0, 6)[0] == "RELATE"@[0]);
        }
    }
}

proof fn lemma_picked_nothing(ls: Seq<Seq<char>>, f: spec_fn(Seq<char>) -> Option<Seq<char>>)
    requires
        forall|k: int| 0 <= k < ls.len() ==> f(#[trigger] ls[k]) is None,
    ensures
        ls.filter_map(f) == Seq::<Seq<char>>::empty(),
    decreases ls.len(),
{
    reveal(Seq::filter_map);
    if ls.len() > 0 {
        let shorter = ls.drop_last();
        assert forall|k: int| 0 <= k < shorter.len() implies f(#[trigger] shorter[k]) is None by {
            assert(shorter[k] == ls[k]);
        }
        lemma_picked_nothing(shorter, f);
        assert(f(ls[ls.len() - 1]) is None);
    }
}

/// Lines are picked out of what ends in a line end and out of what follows it.
proof fn lemma_picked_joined(
    t: Seq<char>,
    u: Seq<char>,
    f: spec_fn(Seq<char>) -> Option<Seq<char>>,
)
    requires
        ended(t),
    ensures
        picked(t + u, f) == picked(t, f) + picked(u, f),
{
    if t.len() == 0 {
        assert(t + u =~= u);
        assert(t =~= Seq::empty());
        assert(split_of(t, '\n') == seq![Seq::<char>::empty()]);
        assert(lines_of(t) =~= Seq::empty());
        reveal(Seq::filter_map);
        assert(picked(t, f) + picked(u, f) =~= picked(u, f));
    } else {
        let a = t.drop_last();
        assert(a.push('\n') =~= t);
        lemma_lines_joined(a, u);
        lemma_filter_map_joined(lines_of(t), lines_of(u), f);
    }
}

proof fn lemma_picked_line(l: Seq<char>, f: spec_fn(Seq<char>) -> Option<Seq<char>>)
    requires
        one_line(l),
        l.len() > 0,
        l.last() != '\r',
    ensures
        picked(l.push('\n'), f) == match f(l) {
            Some(x) => seq![x],
            None => Seq::empty(),
        },
{
    lemma_lines_joined(l, Seq::empty());
    lemma_split_plain(l, is_char('\n'));
    assert(lines_of(l.push('\n')) =~= seq![l]);
    Seq::lemma_filter_map_singleton(l, f);
}

proof fn lemma_calm_fields(t: Seq<char>, k: int)
    requires
        calm(t),
    ensures
        split_of(t, '\n').len() > 0,
        (split_of(t, '\n').last().len() == 0) == ended(t),
        0 <= k < split_of(t, '\n').len() ==> {
            let l = split_of(t, '\n')[k];
            l.len() == 0 || l[0] != 'U' && l[0] != 'R'
        },
    decreases t.len(),
{
    if t.len() > 0 {
        let shorter = t.drop_last();
        assert forall|i: int| 0 <= i < shorter.len() && (i == 0 || shorter[i - 1] == '\n') implies (
        #[trigger] shorter[i]) != 'U' && shorter[i] != 'R' by {
            assert(shorter[i] == t[i]);
        }
        lemma_calm_fields(shorter, k);
        let before = split_of(shorter, '\n');
        lemma_calm_fields(shorter, before.len() - 1);
        assert(t[t.len() - 1] == t.last());
        if t.last() != '\n' {
            let last = before.last().push(t.last());
            assert(split_of(t, '\n') == before.drop_last().push(last));
            if before.last().len() > 0 {
                assert(last[0] == before.last()[0]);
            }
        }
    }
}

proof fn lemma_calm_picks_nothing(t: Seq<char>, f: spec_fn(Seq<char>) -> Option<Seq<char>>)
    requires
        calm(t),
        quiet(f),
    ensures
        picked(t, f) == Seq::<Seq<char>>::empty(),
{
    let parts = split_of(t, '\n');
    let ls = lines_of(t);
    lemma_calm_fields(t, 0);
    assert forall|k: int| 0 <= k < ls.len() implies f(#[trigger] ls[k]) is None by {
        lemma_calm_fields(t, k);
        let l = parts[k];
        assert(ls[k] == l || ls[k] == strip_cr(l));
        assert(ls[k].len() == 0 || ls[k][0] == l[0]);
    }
    lemma_picked_nothing(ls, f);
}

proof fn lemma_calm_joined(a: Seq<char>, b: Seq<char>)
    requires
        calm(a),
        calm(b),
    ensures
        calm(a + b),
{
    let t = a + b;
    assert forall|i: int| 0 <= i < t.len() && (i == 0 || t[i - 1] == '\n') implies (
    #[trigger] t[i]) != 'U' && t[i] != 'R' by {
        if i < a.len() {
            assert(t[i] == a[i]);
        } else {
            assert(t[i] == b[i - a.len()]);
        }
    }
}

proof fn lemma_one_line_joined(a: Seq<char>, b: Seq<char>)
    requires
        one_line(a),
        one_line(b),
    ensures
        one_line(a + b),
{
}

proof fn lemma_digits_are_plain(gen: nat)
    ensures
        dec_of(gen).len() > 0,
        one_line(dec_of(gen)),
        calm(dec_of(gen)),
        forall|i: int|
            0 <= i < dec_of(gen).len() ==> '0' <= (#[trigger] dec_of(gen)[i]) && dec_of(gen)[i] <= '9',
{
    lemma_dec_digits(gen);
    let d = dec_of(gen);
    assert forall|i: int| 0 <= i < d.len() implies '0' <= (#[trigger] d[i]) && d[i] <= '9' by {
        assert(digit_value(d[i]) < 10);
    }
}

proof fn lemma_quoted_is_one_line(s: Seq<char>)
    ensures
        one_line(json_string(s)),
{
    lemma_quoted_chars(s);
}

proof fn lemma_quoted_char(c: char)
    ensures
        one_line(json_char(c)),
{
    let n = c as int;
    if n < 32 {
        assert(0 <= n);
        assert(n / 16 < 2 && n % 16 < 16);
        let a = digit_char(n / 16);
        let b = digit_char(n % 16);
        assert(a as int == 48 + n / 16);
        assert(b as int == if n % 16 < 10 {
            48 + n % 16
        } else {
            87 + n % 16
        });
        assert('\n' as int == 10);
    }
}

proof fn lemma_quoted_chars(s: Seq<char>)
    ensures
        one_line(json_chars(s)),
    decreases s.len(),
{
    if s.len() > 0 {
        lemma_quoted_chars(s.drop_last());
        let e = json_char(s.last());
        lemma_quoted_char(s.last());
        lemma_one_line_joined(json_chars(s.drop_last()), e);
    }
}

/// An id as it stands between its brackets.
pub open spec fn cut(id: Seq<char>) -> Seq<char> {
    replace_char_of(id, '⟩', ""@)
}

proof fn lemma_cut_is_one_line(id: Seq<char>)
    requires
        one_line(id),
    ensures
        one_line(cut(id)),
    decreases id.len(),
{
    reveal_strlit("");
    if id.len() > 0 {
        lemma_cut_is_one_line(id.drop_last());
        let e = if id.last() == '⟩' {
            ""@
        } else {
            seq![id.last()]
        };
        assert(id[id.len() - 1] == id.last());
        assert(one_line(e));
        lemma_one_line_joined(cut(id.drop_last()), e);
    }
}

proof fn lemma_rid_is_one_line(t: Table, id: Seq<char>)
    requires
        one_line(id),
    ensures
        one_line(rid_of(table_name(t), id)),
{
    reveal_table_names();
    reveal_strlit(":⟨");
    reveal_strlit("⟩");
    lemma_cut_is_one_line(id);
    let r = rid_of(table_name(t), id);
    assert(one_line(table_name(t)));
    assert(r == table_name(t) + ":⟨"@ + cut(id) + "⟩"@);
}

proof fn reveal_table_names()
    ensures
        "interface"@ == seq!['i', 'n', 't', 'e', 'r', 'f', 'a', 'c', 'e'],
        "artifact"@ == seq!['a', 'r', 't', 'i', 'f', 'a', 'c', 't'],
        "app"@ == seq!['a', 'p', 'p'],
        "imports"@ == seq!['i', 'm', 'p', 'o', 'r', 't', 's'],
        "exports"@ == seq!['e', 'x', 'p', 'o', 'r', 't', 's'],
        "carries"@ == seq!['c', 'a', 'r', 'r', 'i', 'e', 's'],
        "about"@ == seq!['a', 'b', 'o', 'u', 't'],
        "generation"@ == seq!['g', 'e', 'n', 'e', 'r', 'a', 't', 'i', 'o', 'n'],
{
    reveal_strlit("interface");
    reveal_strlit("artifact");
    reveal_strlit("app");
    reveal_strlit("imports");
    reveal_strlit("exports");
    reveal_strlit("carries");
    reveal_strlit("about");
    reveal_strlit("generation");
}

// -------------------------------------------------------------- statements --

/// The line of a statement that writes a row.
spec fn row_line(t: Table, id: Seq<char>, set: Seq<char>) -> Seq<char> {
    "UPSERT "@ + rid_of(table_name(t), id) + " SET "@ + set + ";"@
}

/// The first word of a row's id.
pub open spec fn first_word(t: Table, id: Seq<char>) -> Seq<char> {
    words_of(rid_of(table_name(t), id))[0]
}

/// A table's row begins with the table's name.
proof fn lemma_row_line(t: Table, id: Seq<char>, set: Seq<char>)
    ensures
        "UPSERT"@.is_prefix_of(row_line(t, id, set)),
        !"RELATE"@.is_prefix_of(row_line(t, id, set)),
        "UPSERT generation"@.is_prefix_of(row_line(t, id, set)) == (t == Table::Generation),
        second_word(row_line(t, id, set)) == first_word(t, id),
{
    reveal_table_names();
    reveal_strlit("UPSERT");
    reveal_strlit("UPSERT ");
    reveal_strlit("UPSERT generation");
    reveal_strlit("RELATE");
    reveal_strlit(" SET ");
    reveal_strlit(":⟨");
    let l = row_line(t, id, set);
    let r = rid_of(table_name(t), id);
    assert(l.subrange(0, 6) =~= "UPSERT"@);
    assert(l[0] == 'U');
    if "RELATE"@.is_prefix_of(l) {
        assert(l.subrange(0, 6)[0] == "RELATE"@[0]);
    }
    assert(l[7] == r[0] && r[0] == table_name(t)[0]);
    if t == Table::Generation {
        assert(l.subrange(0, 17) =~= "UPSERT generation"@);
    } else if "UPSERT generation"@.is_prefix_of(l) {
        assert(l.subrange(0, 17)[7] == "UPSERT generation"@[7]);
    }
    let tail = "SET "@ + set + ";"@;
    reveal_strlit("SET ");
    assert(l =~= "UPSERT"@.push(' ') + (r.push(' ') + tail));
    assert(space(' '));
    lemma_words_joined("UPSERT"@, ' ', r.push(' ') + tail);
    lemma_words_joined(r, ' ', tail);
    assert forall|i: int| 0 <= i < 6 implies !space(#[trigger] "UPSERT"@[i]) by {}
    lemma_words_plain("UPSERT"@);
    lemma_has_a_word(r);
    assert(words_of(l)[1] == words_of(r)[0]);
}

/// What begins with a letter has a word.
proof fn lemma_has_a_word(s: Seq<char>)
    requires
        s.len() > 0,
        !space(s[0]),
    ensures
        words_of(s).len() > 0,
{
    let sep = |x: char| space(x);
    let full = |w: Seq<char>| w.len() > 0;
    let parts = split_where(s, sep);
    lemma_first_field(s);
    assert(full(parts[0]));
    parts.lemma_filter_contains(full, 0);
}

proof fn lemma_first_field(s: Seq<char>)
    requires
        s.len() > 0,
        !space(s[0]),
    ensures
        split_where(s, |x: char| space(x)).len() > 0,
        split_where(s, |x: char| space(x))[0].len() > 0,
    decreases s.len(),
{
    let sep = |x: char| space(x);
    if s.len() > 1 {
        lemma_first_field(s.drop_last());
    } else {
        assert(s.drop_last() =~= Seq::empty());
        assert(split_where(s.drop_last(), sep) == seq![Seq::<char>::empty()]);
    }
}

/// The line of a statement that relates an edge.
spec fn arrow_line(
    t: Table,
    id: Seq<char>,
    a: (Table, Seq<char>),
    b: (Table, Seq<char>),
    gen: Seq<char>,
) -> Seq<char> {
    "RELATE "@ + rid_of(table_name(a.0), a.1) + "->"@ + rid_of(table_name(t), id) + "->"@ + rid_of(
        table_name(b.0),
        b.1,
    ) + " SET gen = "@ + gen + ";"@
}

/// A table of edges.
spec fn relates(t: Table) -> bool {
    t == Table::Imports || t == Table::Exports || t == Table::Carries
}

/// An edge's id that generation `gen` minted: a table of edges, and the generation.
spec fn minted(x: Seq<char>, t: Table, gen: nat) -> bool {
    relates(t) && (table_name(t) + ":⟨"@ + dec_of(gen) + "|"@).is_prefix_of(x)
}

/// An id that holds no arrow between its brackets.
pub open spec fn arrowless(id: Seq<char>) -> bool {
    !holds(cut(id), "->"@)
}

proof fn lemma_no_arrow_before(h: Seq<char>, k: int)
    requires
        0 <= k < h.len(),
        h[k] != '-' || k + 1 < h.len() && h[k + 1] != '>',
    ensures
        !occurs_at(h, "->"@, k),
{
    reveal_strlit("->");
    if occurs_at(h, "->"@, k) {
        assert(h.subrange(k, k + 2)[0] == '-');
        assert(h.subrange(k, k + 2)[1] == '>');
    }
}

/// The edge that a line relates stands between its arrows, and begins with its generation.
proof fn lemma_arrow_line(t: Table, a: (Table, Seq<char>), b: (Table, Seq<char>), gen: nat)
    requires
        relates(t),
        a.0 == Table::Artifact || a.0 == Table::App,
        arrowless(a.1),
    ensures
        ({
            let l = arrow_line(t, edge_id(dec_of(gen), a.1, b.1), a, b, dec_of(gen));
            &&& "RELATE"@.is_prefix_of(l)
            &&& !"UPSERT"@.is_prefix_of(l)
            &&& !"UPSERT generation"@.is_prefix_of(l)
            &&& minted(between_arrows(l), t, gen)
        }),
{
    reveal_table_names();
    reveal_strlit("RELATE");
    reveal_strlit("RELATE ");
    reveal_strlit("UPSERT");
    reveal_strlit("UPSERT generation");
    reveal_strlit("->");
    reveal_strlit(":⟨");
    reveal_strlit("⟩");
    reveal_strlit("|");
    let g = dec_of(gen);
    let id = edge_id(g, a.1, b.1);
    let from = rid_of(table_name(a.0), a.1);
    let edge = rid_of(table_name(t), id);
    let tail = rid_of(table_name(b.0), b.1) + " SET gen = "@ + g + ";"@;
    let l = arrow_line(t, id, a, b, g);
    let rest = edge + "->"@ + tail;
    assert(l =~= "RELATE "@ + from + "->"@ + rest);
    assert(l.subrange(0, 6) =~= "RELATE"@);
    assert(l[0] == 'R');
    if "UPSERT"@.is_prefix_of(l) {
        assert(l.subrange(0, 6)[0] == "UPSERT"@[0]);
    }
    if "UPSERT generation"@.is_prefix_of(l) {
        assert(l.subrange(0, 17)[0] == "UPSERT generation"@[0]);
    }
    // The first arrow.
    let n = 7 + from.len() as int;
    let clean = cut(a.1);
    let m = table_name(a.0).len() as int;
    assert(from == table_name(a.0) + ":⟨"@ + clean + "⟩"@);
    lemma_find(clean, "->"@, 0);
    assert forall|k: int| 0 <= k < n implies !occurs_at(l, "->"@, k) by {
        let start = 7 + m + 2;
        if k < 7 {
            assert(l[k] == "RELATE "@[k]);
            lemma_no_arrow_before(l, k);
        } else {
            assert(l[k] == from[k - 7]);
            if k < 7 + m {
                assert(l[k] == table_name(a.0)[k - 7]);
                lemma_no_arrow_before(l, k);
            } else if k < start {
                assert(l[k] == ":⟨"@[k - 7 - m]);
                lemma_no_arrow_before(l, k);
            } else if k < start + clean.len() {
                assert(l[k] == clean[k - start]);
                if occurs_at(l, "->"@, k) {
                    assert(l.subrange(k, k + 2)[0] == '-');
                    assert(l.subrange(k, k + 2)[1] == '>');
                    if k + 1 < start + clean.len() {
                        assert(l[k + 1] == from[k + 1 - 7]);
                        assert(l[k + 1] == clean[k + 1 - start]);
                        assert(clean.subrange(k - start, k - start + 2) =~= "->"@);
                        assert(occurs_at(clean, "->"@, k - start));
                    } else {
                        assert(l[k + 1] == from[k + 1 - 7]);
                        assert(l[k + 1] == '⟩');
                    }
                }
            } else {
                assert(l[k] == '⟩');
                lemma_no_arrow_before(l, k);
            }
        }
    }
    assert(l.subrange(n, n + 2) =~= "->"@);
    assert(occurs_at(l, "->"@, n));
    lemma_find(l, "->"@, 0);
    assert(find_from(l, "->"@, 0) == Some(n));
    assert(l.skip(n + 2) =~= rest);
    // The edge's own id, up to the next arrow.
    let head = table_name(t) + ":⟨"@ + g + "|"@;
    let h = head.len() as int;
    lemma_edge_id(gen, a.1, b.1);
    lemma_digits_are_plain(gen);
    let inner = cut(id);
    assert(edge == table_name(t) + ":⟨"@ + inner + "⟩"@);
    assert(inner.take(g.len() as int) == g);
    assert(inner[g.len() as int] == '|');
    assert forall|k: int| 0 <= k < h implies rest[k] == #[trigger] head[k] && head[k] != '-' by {
        assert(rest[k] == edge[k]);
        if k >= 9 {
            assert(edge[k] == inner[k - 9]);
            if k - 9 < g.len() {
                assert(inner[k - 9] == inner.take(g.len() as int)[k - 9]);
                assert(head[k] == g[k - 9]);
            }
        }
    }
    lemma_find(rest, "->"@, 0);
    assert(rest.subrange(edge.len() as int, edge.len() + 2int) =~= "->"@);
    assert(occurs_at(rest, "->"@, edge.len() as int));
    let j = find_from(rest, "->"@, 0)->0;
    assert(find_from(rest, "->"@, 0) is Some);
    if j < h {
        assert(rest[j] == head[j]);
        lemma_no_arrow_before(rest, j);
    }
    assert(between_arrows(l) == rest.take(j));
    assert(rest.take(j).subrange(0, h) =~= head);
}

/// No id is minted by two generations.
proof fn lemma_minted_once(x: Seq<char>, t: Table, u: Table, one: nat, two: nat)
    requires
        minted(x, t, one),
        minted(x, u, two),
    ensures
        one == two,
{
    reveal_table_names();
    reveal_strlit(":⟨");
    reveal_strlit("|");
    lemma_digits_are_plain(one);
    lemma_digits_are_plain(two);
    let (a, b) = (dec_of(one), dec_of(two));
    let p = table_name(t) + ":⟨"@ + a + "|"@;
    let q = table_name(u) + ":⟨"@ + b + "|"@;
    assert(p == x.subrange(0, p.len() as int));
    assert(q == x.subrange(0, q.len() as int));
    assert forall|i: int| 0 <= i < a.len() implies x[9 + i] == #[trigger] a[i] by {
        assert(p[9 + i] == a[i]);
    }
    assert forall|i: int| 0 <= i < b.len() implies x[9 + i] == #[trigger] b[i] by {
        assert(q[9 + i] == b[i]);
    }
    assert(x[9int + a.len()] == '|') by {
        assert(p[9int + a.len()] == '|');
    }
    assert(x[9int + b.len()] == '|') by {
        assert(q[9int + b.len()] == '|');
    }
    if a.len() < b.len() {
        assert(b[a.len() as int] == '|');
    }
    if b.len() < a.len() {
        assert(a[b.len() as int] == '|');
    }
    assert(a =~= b);
    law_decimal_reads_back(one);
    law_decimal_reads_back(two);
}

/// A statement of a build whose ids stay on their lines and between their arrows.
spec fn fits(s: StatementView, gen: nat) -> bool {
    match s {
        StatementView::Node(_, id, set) => one_line(id) && one_line(set),
        StatementView::Edge(t, id, a, b) => {
            &&& relates(t)
            &&& a.0 == Table::Artifact || a.0 == Table::App
            &&& id == edge_id(dec_of(gen), a.1, b.1)
            &&& one_line(a.1)
            &&& one_line(b.1)
            &&& arrowless(a.1)
        },
        _ => true,
    }
}

/// The rows of the graph that a statement writes.
spec fn rows_said(s: StatementView) -> Seq<Seq<char>> {
    match s {
        StatementView::Node(t, id, _) => if t != Table::Generation {
            seq![first_word(t, id)]
        } else {
            Seq::empty()
        },
        _ => Seq::empty(),
    }
}

/// The builds that a statement writes.
spec fn builds_said(s: StatementView) -> Seq<Seq<char>> {
    match s {
        StatementView::Node(t, id, _) => if t == Table::Generation {
            seq![first_word(t, id)]
        } else {
            Seq::empty()
        },
        _ => Seq::empty(),
    }
}

/// Every edge that a text relates was minted by generation `gen`.
spec fn mints(text: Seq<char>, gen: nat) -> bool {
    forall|x: Seq<char>| #[trigger]
        edge_ids(text).contains(x) ==> exists|t: Table| minted(x, t, gen)
}

/// What a text writes and relates.
spec fn says(text: Seq<char>, rows: Seq<Seq<char>>, builds: Seq<Seq<char>>, gen: nat) -> bool {
    &&& ended(text)
    &&& node_ids(text) == rows
    &&& build_ids(text) == builds
    &&& mints(text, gen)
}

proof fn lemma_says_joined(
    t: Seq<char>,
    u: Seq<char>,
    rows: Seq<Seq<char>>,
    more_rows: Seq<Seq<char>>,
    builds: Seq<Seq<char>>,
    more_builds: Seq<Seq<char>>,
    gen: nat,
)
    requires
        says(t, rows, builds, gen),
        says(u, more_rows, more_builds, gen),
    ensures
        says(t + u, rows + more_rows, builds + more_builds, gen),
{
    lemma_picked_joined(t, u, |l: Seq<char>| node_line(l));
    lemma_picked_joined(t, u, |l: Seq<char>| build_line(l));
    lemma_picked_joined(t, u, |l: Seq<char>| edge_line(l));
    if u.len() == 0 {
        assert(t + u =~= t);
    }
    assert forall|x: Seq<char>| #[trigger] edge_ids(t + u).contains(x) implies exists|k: Table|
        minted(x, k, gen) by {
        let both = edge_ids(t) + edge_ids(u);
        let i = choose|i: int| 0 <= i < both.len() && both[i] == x;
        if i < edge_ids(t).len() {
            assert(edge_ids(t)[i] == x);
            assert(edge_ids(t).contains(x));
        } else {
            assert(edge_ids(u)[i - edge_ids(t).len()] == x);
            assert(edge_ids(u).contains(x));
        }
    }
}

proof fn lemma_calm_says_nothing(t: Seq<char>, gen: nat)
    requires
        calm(t),
        ended(t),
    ensures
        says(t, Seq::empty(), Seq::empty(), gen),
{
    lemma_tests_are_quiet();
    lemma_calm_picks_nothing(t, |l: Seq<char>| node_line(l));
    lemma_calm_picks_nothing(t, |l: Seq<char>| build_line(l));
    lemma_calm_picks_nothing(t, |l: Seq<char>| edge_line(l));
}

proof fn lemma_node_statement(t: Table, id: Seq<char>, set: Seq<char>, gen: nat)
    requires
        one_line(id),
        one_line(set),
    ensures
        ({
            let s = StatementView::Node(t, id, set);
            says(statement_text(s, dec_of(gen)), rows_said(s), builds_said(s), gen)
        }),
{
    reveal_strlit("UPSERT ");
    reveal_strlit(" SET ");
    reveal_strlit(";");
    reveal_strlit(";\n");
    let s = StatementView::Node(t, id, set);
    let l = row_line(t, id, set);
    let r = rid_of(table_name(t), id);
    lemma_rid_is_one_line(t, id);
    lemma_row_line(t, id, set);
    lemma_one_line_joined("UPSERT "@, r);
    lemma_one_line_joined("UPSERT "@ + r, " SET "@);
    lemma_one_line_joined("UPSERT "@ + r + " SET "@, set);
    lemma_one_line_joined("UPSERT "@ + r + " SET "@ + set, ";"@);
    assert(l.last() == ';');
    let text = statement_text(s, dec_of(gen));
    assert(text =~= l.push('\n'));
    lemma_picked_line(l, |x: Seq<char>| node_line(x));
    lemma_picked_line(l, |x: Seq<char>| build_line(x));
    lemma_picked_line(l, |x: Seq<char>| edge_line(x));
}

proof fn lemma_edge_statement(
    t: Table,
    id: Seq<char>,
    a: (Table, Seq<char>),
    b: (Table, Seq<char>),
    gen: nat,
)
    requires
        fits(StatementView::Edge(t, id, a, b), gen),
    ensures
        says(
            statement_text(StatementView::Edge(t, id, a, b), dec_of(gen)),
            Seq::empty(),
            Seq::empty(),
            gen,
        ),
{
    reveal_strlit("RELATE ");
    reveal_strlit("->");
    reveal_strlit(" SET gen = ");
    reveal_strlit(";");
    reveal_strlit(";\n");
    reveal_strlit("|");
    let g = dec_of(gen);
    lemma_digits_are_plain(gen);
    let l = arrow_line(t, id, a, b, g);
    let (x, y, z) = (
        rid_of(table_name(a.0), a.1),
        rid_of(table_name(t), id),
        rid_of(table_name(b.0), b.1),
    );
    assert(one_line(id));
    lemma_rid_is_one_line(a.0, a.1);
    lemma_rid_is_one_line(t, id);
    lemma_rid_is_one_line(b.0, b.1);
    let l1 = "RELATE "@ + x + "->"@;
    lemma_one_line_joined("RELATE "@, x);
    lemma_one_line_joined("RELATE "@ + x, "->"@);
    let l2 = l1 + y + "->"@;
    lemma_one_line_joined(l1, y);
    lemma_one_line_joined(l1 + y, "->"@);
    let l3 = l2 + z + " SET gen = "@;
    lemma_one_line_joined(l2, z);
    lemma_one_line_joined(l2 + z, " SET gen = "@);
    lemma_one_line_joined(l3, g);
    lemma_one_line_joined(l3 + g, ";"@);
    assert(l == l3 + g + ";"@);
    assert(l.last() == ';');
    lemma_arrow_line(t, a, b, gen);
    let s = StatementView::Edge(t, id, a, b);
    let text = statement_text(s, g);
    assert(text =~= l.push('\n'));
    lemma_picked_line(l, |v: Seq<char>| node_line(v));
    lemma_picked_line(l, |v: Seq<char>| build_line(v));
    lemma_picked_line(l, |v: Seq<char>| edge_line(v));
    assert forall|v: Seq<char>| #[trigger] edge_ids(text).contains(v) implies exists|k: Table|
        minted(v, k, gen) by {
        assert(v == between_arrows(l));
        assert(minted(v, t, gen));
    }
}

proof fn lemma_age_statement(t: Table, gen: nat)
    ensures
        says(statement_text(StatementView::Age(t), dec_of(gen)), Seq::empty(), Seq::empty(), gen),
{
    reveal_table_names();
    reveal_strlit("DELETE ");
    reveal_strlit(" WHERE gen < ");
    reveal_strlit(";\n");
    lemma_digits_are_plain(gen);
    let g = dec_of(gen);
    assert(calm(table_name(t)));
    lemma_calm_joined("DELETE "@, table_name(t));
    lemma_calm_joined("DELETE "@ + table_name(t), " WHERE gen < "@);
    lemma_calm_joined("DELETE "@ + table_name(t) + " WHERE gen < "@, g);
    lemma_calm_joined("DELETE "@ + table_name(t) + " WHERE gen < "@ + g, ";\n"@);
    lemma_calm_says_nothing(statement_text(StatementView::Age(t), g), gen);
}

proof fn lemma_about_statement(gen: nat)
    ensures
        says(statement_text(StatementView::About, dec_of(gen)), Seq::empty(), Seq::empty(), gen),
{
    let a = "\n-- Lessons, indexed by the interface they are about (ADR-0090's key, ADR-0091's store).\n"@;
    let b = "DEFINE TABLE IF NOT EXISTS memory;\n"@;
    let c = "DEFINE TABLE IF NOT EXISTS about TYPE RELATION;\n"@;
    let d = "LET $pairs = (SELECT id AS lesson, (SELECT VALUE id FROM interface WHERE gen = "@;
    let e =
        " AND name IN $parent.tags) AS ifaces FROM memory WHERE tags != []);\nFOR $pair IN $pairs {\n    IF array::len($pair.ifaces) > 0 {\n        LET $from = $pair.lesson;\n        LET $to = $pair.ifaces;\n        RELATE $from->about->$to SET gen = "@;
    let f = ";\n    };\n};\n"@;
    let g = dec_of(gen);
    reveal_strlit(
        "\n-- Lessons, indexed by the interface they are about (ADR-0090's key, ADR-0091's store).\n",
    );
    assert(calm(a));
    reveal_strlit("DEFINE TABLE IF NOT EXISTS memory;\n");
    assert(calm(b));
    reveal_strlit("DEFINE TABLE IF NOT EXISTS about TYPE RELATION;\n");
    assert(calm(c));
    reveal_strlit(
        "LET $pairs = (SELECT id AS lesson, (SELECT VALUE id FROM interface WHERE gen = ",
    );
    assert(calm(d));
    lemma_lessons_are_calm();
    reveal_strlit(";\n    };\n};\n");
    assert(calm(f));
    lemma_digits_are_plain(gen);
    lemma_calm_joined(a, b);
    lemma_calm_joined(a + b, c);
    lemma_calm_joined(a + b + c, d);
    lemma_calm_joined(a + b + c + d, g);
    lemma_calm_joined(a + b + c + d + g, e);
    lemma_calm_joined(a + b + c + d + g + e, g);
    lemma_calm_joined(a + b + c + d + g + e + g, f);
    let text = about_text(g);
    assert(text == a + b + c + d + g + e + g + f);
    assert(text.last() == f.last());
    lemma_calm_says_nothing(text, gen);
}

proof fn lemma_lessons_are_calm()
    ensures
        calm(
            " AND name IN $parent.tags) AS ifaces FROM memory WHERE tags != []);\nFOR $pair IN $pairs {\n    IF array::len($pair.ifaces) > 0 {\n        LET $from = $pair.lesson;\n        LET $to = $pair.ifaces;\n        RELATE $from->about->$to SET gen = "@,
        ),
{
    reveal_strlit(
        " AND name IN $parent.tags) AS ifaces FROM memory WHERE tags != []);\nFOR $pair IN $pairs {\n    IF array::len($pair.ifaces) > 0 {\n        LET $from = $pair.lesson;\n        LET $to = $pair.ifaces;\n        RELATE $from->about->$to SET gen = ",
    );
}

/// The rows of the graph that some statements write.
spec fn all_rows(ss: Seq<StatementView>) -> Seq<Seq<char>>
    decreases ss.len(),
{
    if ss.len() == 0 {
        Seq::empty()
    } else {
        all_rows(ss.drop_last()) + rows_said(ss.last())
    }
}

/// The builds that some statements write.
spec fn all_builds(ss: Seq<StatementView>) -> Seq<Seq<char>>
    decreases ss.len(),
{
    if ss.len() == 0 {
        Seq::empty()
    } else {
        all_builds(ss.drop_last()) + builds_said(ss.last())
    }
}

proof fn lemma_statements(ss: Seq<StatementView>, gen: nat)
    requires
        forall|k: int| 0 <= k < ss.len() ==> fits(#[trigger] ss[k], gen),
    ensures
        says(statements_text(ss, dec_of(gen)), all_rows(ss), all_builds(ss), gen),
    decreases ss.len(),
{
    if ss.len() == 0 {
        let none = Seq::<char>::empty();
        assert(calm(none));
        lemma_calm_says_nothing(none, gen);
    } else {
        let shorter = ss.drop_last();
        assert forall|k: int| 0 <= k < shorter.len() implies fits(#[trigger] shorter[k], gen) by {
            assert(shorter[k] == ss[k]);
        }
        lemma_statements(shorter, gen);
        let s = ss.last();
        assert(s == ss[ss.len() - 1]);
        match s {
            StatementView::Node(t, id, set) => {
                lemma_node_statement(t, id, set, gen);
            },
            StatementView::Edge(t, id, a, b) => {
                lemma_edge_statement(t, id, a, b, gen);
            },
            StatementView::About => {
                lemma_about_statement(gen);
            },
            StatementView::Age(t) => {
                lemma_age_statement(t, gen);
            },
        }
        lemma_says_joined(
            statements_text(shorter, dec_of(gen)),
            statement_text(s, dec_of(gen)),
            all_rows(shorter),
            rows_said(s),
            all_builds(shorter),
            builds_said(s),
            gen,
        );
    }
}

/// Statements that write the same rows one by one write the same rows.
proof fn lemma_same_rows(a: Seq<StatementView>, b: Seq<StatementView>)
    requires
        a.len() == b.len(),
        forall|k: int|
            0 <= k < a.len() ==> rows_said(#[trigger] a[k]) == rows_said(b[k]) && builds_said(a[k])
                == builds_said(b[k]),
    ensures
        all_rows(a) == all_rows(b),
        all_builds(a) == all_builds(b),
    decreases a.len(),
{
    if a.len() > 0 {
        let (x, y) = (a.drop_last(), b.drop_last());
        assert forall|k: int| 0 <= k < x.len() implies rows_said(#[trigger] x[k]) == rows_said(y[k])
            && builds_said(x[k]) == builds_said(y[k]) by {
            assert(x[k] == a[k] && y[k] == b[k]);
        }
        lemma_same_rows(x, y);
        assert(rows_said(a[a.len() - 1]) == rows_said(b[a.len() - 1]));
    }
}

/// Statements that write no build write none.
proof fn lemma_no_builds(ss: Seq<StatementView>)
    requires
        forall|k: int| 0 <= k < ss.len() ==> builds_said(#[trigger] ss[k]).len() == 0,
    ensures
        all_builds(ss) == Seq::<Seq<char>>::empty(),
    decreases ss.len(),
{
    if ss.len() > 0 {
        let shorter = ss.drop_last();
        assert forall|k: int| 0 <= k < shorter.len() implies builds_said(#[trigger] shorter[k]).len()
            == 0 by {
            assert(shorter[k] == ss[k]);
        }
        lemma_no_builds(shorter);
        assert(builds_said(ss[ss.len() - 1]).len() == 0);
        assert(all_builds(ss) =~= Seq::<Seq<char>>::empty());
    }
}

// -------------------------------------------------------------- two builds --

/// The names of a component stay on one line, and its own holds no arrow.
pub open spec fn plain_component(c: Component) -> bool {
    &&& one_line(c.name@)
    &&& arrowless(c.name@)
    &&& forall|i: int| 0 <= i < imports_of(c).len() ==> one_line(#[trigger] imports_of(c)[i])
    &&& forall|i: int| 0 <= i < exports_of(c).len() ==> one_line(#[trigger] exports_of(c)[i])
}

/// The names of an application stay on one line, and its own holds no arrow.
pub open spec fn plain_app(a: App) -> bool {
    &&& one_line(a.name@)
    &&& arrowless(a.name@)
    &&& forall|i: int| 0 <= i < carried(a).len() ==> one_line(#[trigger] carried(a)[i])
}

/// Every name of what was built reads as one name on the line that holds it.
pub open spec fn plain_names(cat: Catalog, apps: Seq<App>) -> bool {
    &&& forall|k: int|
        0 <= k < cat.components@.len() ==> plain_component(#[trigger] cat.components@[k])
    &&& forall|k: int| 0 <= k < apps.len() ==> plain_app(#[trigger] apps[k])
}

proof fn lemma_mentioned_are_plain(cs: Seq<Component>, i: int)
    requires
        forall|k: int| 0 <= k < cs.len() ==> plain_component(#[trigger] cs[k]),
        0 <= i < mentioned(cs).len(),
    ensures
        one_line(mentioned(cs)[i]),
    decreases cs.len(),
{
    let shorter = cs.drop_last();
    let c = cs.last();
    let n = mentioned(shorter).len() as int;
    let m = n + exports_of(c).len();
    assert(plain_component(cs[cs.len() - 1]));
    if i < n {
        assert forall|k: int| 0 <= k < shorter.len() implies plain_component(
            #[trigger] shorter[k],
        ) by {
            assert(shorter[k] == cs[k]);
        }
        lemma_mentioned_are_plain(shorter, i);
        assert(mentioned(cs)[i] == mentioned(shorter)[i]);
    } else if i < m {
        assert(mentioned(cs)[i] == exports_of(c)[i - n]);
    } else {
        assert(mentioned(cs)[i] == imports_of(c)[i - m]);
    }
}

proof fn lemma_nodes_fit(cat: Catalog, ifaces: Seq<Seq<char>>, apps: Seq<App>, gen: nat, k: int)
    requires
        plain_names(cat, apps),
        sorted_set_of(ifaces, mentioned(cat.components@)),
        0 <= k < nodes(cat, ifaces, apps, dec_of(gen)).len(),
    ensures
        fits(nodes(cat, ifaces, apps, dec_of(gen))[k], gen),
        builds_said(nodes(cat, ifaces, apps, dec_of(gen))[k]).len() == 0,
{
    reveal_strlit("name = ");
    reveal_strlit(", exporter = ");
    reveal_strlit(", consumers = ");
    reveal_strlit(", gen = ");
    reveal_strlit(", digest = ");
    reveal_strlit(", root = ");
    reveal_strlit(", artifact = ");
    lemma_digits_are_plain(gen);
    let g = dec_of(gen);
    let cs = cat.components@;
    let all = nodes(cat, ifaces, apps, g);
    let (n, m) = (ifaces.len() as int, ifaces.len() + cs.len());
    if k < n {
        let name = ifaces[k];
        assert(all[k] == interface_node(cat, name, g));
        assert(ifaces.contains(name));
        let i = choose|i: int| 0 <= i < mentioned(cs).len() && mentioned(cs)[i] == name;
        lemma_mentioned_are_plain(cs, i);
        let exporter = if cat.exporters@.contains_key(name) {
            cat.exporters@[name]@
        } else {
            Seq::empty()
        };
        let consumers = if cat.consumers@.contains_key(name) {
            cat.consumers@[name]
        } else {
            0
        };
        lemma_quoted_is_one_line(name);
        lemma_quoted_is_one_line(exporter);
        lemma_digits_are_plain(consumers as nat);
        let a = "name = "@ + json_string(name) + ", exporter = "@;
        lemma_one_line_joined("name = "@, json_string(name));
        lemma_one_line_joined("name = "@ + json_string(name), ", exporter = "@);
        let b = a + json_string(exporter) + ", consumers = "@;
        lemma_one_line_joined(a, json_string(exporter));
        lemma_one_line_joined(a + json_string(exporter), ", consumers = "@);
        let c = b + dec_of(consumers as nat) + ", gen = "@;
        lemma_one_line_joined(b, dec_of(consumers as nat));
        lemma_one_line_joined(b + dec_of(consumers as nat), ", gen = "@);
        lemma_one_line_joined(c, g);
    } else if k < m {
        let x = cs[k - n];
        assert(plain_component(cs[k - n]));
        assert(all[k] == artifact_node(x, g));
        lemma_quoted_is_one_line(x.name@);
        lemma_quoted_is_one_line(x.digest@);
        let a = "name = "@ + json_string(x.name@) + ", digest = "@;
        lemma_one_line_joined("name = "@, json_string(x.name@));
        lemma_one_line_joined("name = "@ + json_string(x.name@), ", digest = "@);
        let b = a + json_string(x.digest@) + ", gen = "@;
        lemma_one_line_joined(a, json_string(x.digest@));
        lemma_one_line_joined(a + json_string(x.digest@), ", gen = "@);
        lemma_one_line_joined(b, g);
    } else {
        let x = apps[k - m];
        assert(plain_app(apps[k - m]));
        assert(all[k] == app_node(x, g));
        lemma_quoted_is_one_line(x.name@);
        lemma_quoted_is_one_line(x.root@);
        lemma_quoted_is_one_line(x.artifact@);
        let a = "name = "@ + json_string(x.name@) + ", root = "@;
        lemma_one_line_joined("name = "@, json_string(x.name@));
        lemma_one_line_joined("name = "@ + json_string(x.name@), ", root = "@);
        let b = a + json_string(x.root@) + ", artifact = "@;
        lemma_one_line_joined(a, json_string(x.root@));
        lemma_one_line_joined(a + json_string(x.root@), ", artifact = "@);
        let c = b + json_string(x.artifact@) + ", gen = "@;
        lemma_one_line_joined(b, json_string(x.artifact@));
        lemma_one_line_joined(b + json_string(x.artifact@), ", gen = "@);
        lemma_one_line_joined(c, g);
    }
}

proof fn lemma_surface_edges_fit(cs: Seq<Component>, gen: nat, k: int)
    requires
        forall|i: int| 0 <= i < cs.len() ==> plain_component(#[trigger] cs[i]),
        0 <= k < surface_edges(cs, dec_of(gen)).len(),
    ensures
        surface_edges(cs, dec_of(gen))[k] is Edge,
        fits(surface_edges(cs, dec_of(gen))[k], gen),
    decreases cs.len(),
{
    let g = dec_of(gen);
    let shorter = cs.drop_last();
    let c = cs.last();
    assert(plain_component(cs[cs.len() - 1]));
    let a = surface_edges(shorter, g);
    let b = table_edges(Table::Imports, c.name@, imports_of(c), g);
    let (n, m) = (a.len() as int, a.len() + b.len());
    if k < n {
        assert forall|i: int| 0 <= i < shorter.len() implies plain_component(
            #[trigger] shorter[i],
        ) by {
            assert(shorter[i] == cs[i]);
        }
        lemma_surface_edges_fit(shorter, gen, k);
        assert(surface_edges(cs, g)[k] == a[k]);
    } else if k < m {
        assert(surface_edges(cs, g)[k] == b[k - n]);
        assert(one_line(imports_of(c)[k - n]));
    } else {
        let d = table_edges(Table::Exports, c.name@, exports_of(c), g);
        assert(surface_edges(cs, g)[k] == d[k - m]);
        assert(one_line(exports_of(c)[k - m]));
    }
}

proof fn lemma_carry_edges_fit(apps: Seq<App>, gen: nat, k: int)
    requires
        forall|i: int| 0 <= i < apps.len() ==> plain_app(#[trigger] apps[i]),
        0 <= k < carry_edges(apps, dec_of(gen)).len(),
    ensures
        carry_edges(apps, dec_of(gen))[k] is Edge,
        fits(carry_edges(apps, dec_of(gen))[k], gen),
    decreases apps.len(),
{
    let g = dec_of(gen);
    let shorter = apps.drop_last();
    let a = carry_edges(shorter, g);
    assert(plain_app(apps[apps.len() - 1]));
    if k < a.len() {
        assert forall|i: int| 0 <= i < shorter.len() implies plain_app(#[trigger] shorter[i]) by {
            assert(shorter[i] == apps[i]);
        }
        lemma_carry_edges_fit(shorter, gen, k);
        assert(carry_edges(apps, g)[k] == a[k]);
    } else {
        let b = app_edges(apps.last(), g);
        assert(carry_edges(apps, g)[k] == b[k - a.len()]);
        assert(one_line(carried(apps.last())[k - a.len()]));
    }
}

/// As many edges in each generation.
proof fn lemma_edges_count(cs: Seq<Component>, apps: Seq<App>, one: Seq<char>, two: Seq<char>)
    ensures
        surface_edges(cs, one).len() == surface_edges(cs, two).len(),
        carry_edges(apps, one).len() == carry_edges(apps, two).len(),
    decreases cs.len() + apps.len(),
{
    if cs.len() > 0 {
        lemma_edges_count(cs.drop_last(), apps, one, two);
    }
    if apps.len() > 0 {
        lemma_edges_count(cs, apps.drop_last(), one, two);
    }
}

/// The statements of a build before it says what it was.
spec fn graph(cat: Catalog, ifaces: Seq<Seq<char>>, apps: Seq<App>, gen: nat) -> Seq<StatementView> {
    (nodes(cat, ifaces, apps, dec_of(gen)) + edges(cat, apps, dec_of(gen))).push(
        StatementView::About,
    )
}

proof fn lemma_graph_fits(cat: Catalog, ifaces: Seq<Seq<char>>, apps: Seq<App>, gen: nat, k: int)
    requires
        plain_names(cat, apps),
        sorted_set_of(ifaces, mentioned(cat.components@)),
        0 <= k < graph(cat, ifaces, apps, gen).len(),
    ensures
        fits(graph(cat, ifaces, apps, gen)[k], gen),
        builds_said(graph(cat, ifaces, apps, gen)[k]).len() == 0,
        k >= nodes(cat, ifaces, apps, dec_of(gen)).len() ==> rows_said(
            graph(cat, ifaces, apps, gen)[k],
        ).len() == 0,
{
    let g = dec_of(gen);
    let n = nodes(cat, ifaces, apps, g).len() as int;
    let m = surface_edges(cat.components@, g).len() as int;
    let e = carry_edges(apps, g).len() as int;
    let all = graph(cat, ifaces, apps, gen);
    if k < n {
        lemma_nodes_fit(cat, ifaces, apps, gen, k);
        assert(all[k] == nodes(cat, ifaces, apps, g)[k]);
    } else if k < n + m {
        lemma_surface_edges_fit(cat.components@, gen, k - n);
        assert(all[k] == surface_edges(cat.components@, g)[k - n]);
    } else if k < n + m + e {
        lemma_carry_edges_fit(apps, gen, k - n - m);
        assert(all[k] == carry_edges(apps, g)[k - n - m]);
    }
}

/// What the text of a projection writes and relates: the rows of its graph, its own build,
/// and edges of its own generation.
proof fn lemma_projection_says(
    cat: Catalog,
    ifaces: Seq<Seq<char>>,
    apps: Seq<App>,
    gen: nat,
    at: u64,
    commit: Seq<char>,
)
    requires
        plain_names(cat, apps),
        sorted_set_of(ifaces, mentioned(cat.components@)),
    ensures
        says(
            projection_text(cat, ifaces, apps, dec_of(gen), at, commit),
            all_rows(graph(cat, ifaces, apps, gen)),
            seq![rid_of("generation"@, dec_of(gen))],
            gen,
        ),
{
    let g = dec_of(gen);
    let none = Seq::<Seq<char>>::empty();
    lemma_digits_are_plain(gen);
    let first = graph(cat, ifaces, apps, gen);
    assert forall|k: int| 0 <= k < first.len() implies fits(#[trigger] first[k], gen)
        && builds_said(first[k]).len() == 0 by {
        lemma_graph_fits(cat, ifaces, apps, gen, k);
    }
    lemma_statements(first, gen);
    lemma_no_builds(first);
    let build = build_node(cat, ifaces, apps, g, at, commit);
    lemma_build_says(cat, ifaces, apps, gen, at, commit);
    lemma_statements(aged(), gen);
    lemma_aged_says_nothing();
    let h1 = "-- comp-capgraph projection, generation "@;
    let h2 =
        ".\n-- Derived from the built artifacts. Never hand-edit: the next rebuild\n-- overwrites this, and nothing here is anybody's only copy (ADR-0091).\n"@;
    let h3 = "\n-- This build, kept. Never aged out: it is the only history the store has.\n"@;
    let h4 =
        "\n-- Age out the previous generation. Seven derived tables, and only\n-- rows older than this run — `memory` and `task` are unreachable from here.\n"@;
    lemma_headers_are_calm();
    lemma_calm_joined(h1, g);
    lemma_calm_joined(h1 + g, h2);
    let head = h1 + g + h2;
    assert(head.last() == h2.last());
    lemma_calm_says_nothing(head, gen);
    lemma_calm_says_nothing(h3, gen);
    lemma_calm_says_nothing(h4, gen);
    let rows = all_rows(first);
    let own = seq![rid_of("generation"@, g)];
    let body = statements_text(first, g);
    let row = statement_text(build, g);
    let age = statements_text(aged(), g);
    lemma_says_joined(head, body, none, rows, none, none, gen);
    lemma_says_joined(head + body, h3, none + rows, none, none + none, none, gen);
    lemma_says_joined(head + body + h3, row, none + rows + none, none, none + none + none, own, gen);
    lemma_says_joined(
        head + body + h3 + row,
        h4,
        none + rows + none + none,
        none,
        none + none + none + own,
        none,
        gen,
    );
    lemma_says_joined(
        head + body + h3 + row + h4,
        age,
        none + rows + none + none + none,
        none,
        none + none + none + own + none,
        none,
        gen,
    );
    assert(none + rows + none + none + none + none =~= rows);
    assert(none + none + none + own + none + none =~= own);
    assert(projection_text(cat, ifaces, apps, g, at, commit) == head + body + h3 + row + h4 + age);
}

proof fn lemma_headers_are_calm()
    ensures
        calm("-- comp-capgraph projection, generation "@),
        ({
            let h2 =
                ".\n-- Derived from the built artifacts. Never hand-edit: the next rebuild\n-- overwrites this, and nothing here is anybody's only copy (ADR-0091).\n"@;
            calm(h2) && ended(h2) && h2.len() > 0
        }),
        ({
            let h3 =
                "\n-- This build, kept. Never aged out: it is the only history the store has.\n"@;
            calm(h3) && ended(h3)
        }),
        ({
            let h4 =
                "\n-- Age out the previous generation. Seven derived tables, and only\n-- rows older than this run — `memory` and `task` are unreachable from here.\n"@;
            calm(h4) && ended(h4)
        }),
{
    reveal_strlit("-- comp-capgraph projection, generation ");
    reveal_strlit(
        ".\n-- Derived from the built artifacts. Never hand-edit: the next rebuild\n-- overwrites this, and nothing here is anybody's only copy (ADR-0091).\n",
    );
    reveal_strlit(
        "\n-- This build, kept. Never aged out: it is the only history the store has.\n",
    );
    reveal_strlit(
        "\n-- Age out the previous generation. Seven derived tables, and only\n-- rows older than this run — `memory` and `task` are unreachable from here.\n",
    );
}

proof fn lemma_aged_says_nothing()
    ensures
        forall|k: int| 0 <= k < aged().len() ==> (#[trigger] aged()[k]) is Age,
        all_rows(aged()) == Seq::<Seq<char>>::empty(),
        all_builds(aged()) == Seq::<Seq<char>>::empty(),
{
    reveal_with_fuel(all_rows, 8);
    lemma_no_builds(aged());
    assert(all_rows(aged()) =~= Seq::<Seq<char>>::empty());
}

proof fn lemma_build_says(
    cat: Catalog,
    ifaces: Seq<Seq<char>>,
    apps: Seq<App>,
    gen: nat,
    at: u64,
    commit: Seq<char>,
)
    ensures
        says(
            statement_text(build_node(cat, ifaces, apps, dec_of(gen), at, commit), dec_of(gen)),
            Seq::empty(),
            seq![rid_of("generation"@, dec_of(gen))],
            gen,
        ),
{
    let g = dec_of(gen);
    lemma_digits_are_plain(gen);
    let set = build_node(cat, ifaces, apps, g, at, commit)->Node_2;
    lemma_build_set(cat, ifaces, apps, gen, at, commit);
    lemma_node_statement(Table::Generation, g, set, gen);
    reveal_table_names();
    reveal_strlit(":⟨");
    reveal_strlit("⟩");
    crate::capgraph::lemma_replace_none(g, '⟩', ""@);
    let r = rid_of("generation"@, g);
    assert(r =~= "generation"@ + ":⟨"@ + g + "⟩"@);
    assert forall|i: int| 0 <= i < r.len() implies !space(#[trigger] r[i]) by {
        if 12 <= i < 12 + g.len() {
            assert(r[i] == g[i - 12]);
        }
    }
    lemma_words_plain(r);
}

proof fn lemma_build_set(
    cat: Catalog,
    ifaces: Seq<Seq<char>>,
    apps: Seq<App>,
    gen: nat,
    at: u64,
    commit: Seq<char>,
)
    ensures
        one_line(build_node(cat, ifaces, apps, dec_of(gen), at, commit)->Node_2),
{
    reveal_strlit("gen = ");
    reveal_strlit(", at = ");
    reveal_strlit(", commit = ");
    reveal_strlit(", interfaces = ");
    reveal_strlit(", artifacts = ");
    reveal_strlit(", apps = ");
    reveal_strlit(", imports = ");
    reveal_strlit(", exports = ");
    reveal_strlit(", carries = ");
    let (a, b, c) = (ifaces.len(), cat.components@.len(), apps.len());
    let d = crate::capgraph::count_imports(cat.components@);
    let e = crate::capgraph::count_exports(cat.components@);
    let f = crate::capgraph::count_carried(apps);
    lemma_digits_are_plain(gen);
    lemma_digits_are_plain(at as nat);
    lemma_digits_are_plain(a);
    lemma_digits_are_plain(b);
    lemma_digits_are_plain(c);
    lemma_digits_are_plain(d);
    lemma_digits_are_plain(e);
    lemma_digits_are_plain(f);
    lemma_quoted_is_one_line(commit);
    let s0 = "gen = "@;
    let s1 = lemma_one_line_more(s0, dec_of(gen), ", at = "@);
    let s2 = lemma_one_line_more(s1, dec_of(at as nat), ", commit = "@);
    let s3 = lemma_one_line_more(s2, json_string(commit), ", interfaces = "@);
    let s4 = lemma_one_line_more(s3, dec_of(a), ", artifacts = "@);
    let s5 = lemma_one_line_more(s4, dec_of(b), ", apps = "@);
    let s6 = lemma_one_line_more(s5, dec_of(c), ", imports = "@);
    let s7 = lemma_one_line_more(s6, dec_of(d), ", exports = "@);
    let s8 = lemma_one_line_more(s7, dec_of(e), ", carries = "@);
    lemma_one_line_joined(s8, dec_of(f));
}

proof fn lemma_one_line_more(a: Seq<char>, b: Seq<char>, c: Seq<char>) -> (r: Seq<char>)
    requires
        one_line(a),
        one_line(b),
        one_line(c),
    ensures
        r == a + b + c,
        one_line(r),
{
    lemma_one_line_joined(a, b);
    lemma_one_line_joined(a + b, c);
    a + b + c
}

/// Two builds of the same things write the same rows and share no edge, and each writes one
/// row that is its own: the rows that something points at stay, relating again is never
/// refused, and no build hides another. This is what the lines of the text show; a name with
/// a line end in it, or with an arrow where an edge starts, would read as something else on
/// its line, and what holds of the statements whatever the names is said further down.
pub proof fn law_two_builds_share_their_rows_and_no_edge(
    a: Seq<char>,
    b: Seq<char>,
    cat: Catalog,
    apps: Seq<App>,
    one: nat,
    two: nat,
    at_one: u64,
    at_two: u64,
    commit_one: Seq<char>,
    commit_two: Seq<char>,
)
    requires
        one != two,
        plain_names(cat, apps),
        projects(a, cat, apps, one, at_one, commit_one),
        projects(b, cat, apps, two, at_two, commit_two),
    ensures
        node_ids(a) == node_ids(b),
        forall|x: Seq<char>| !(#[trigger] edge_ids(a).contains(x) && edge_ids(b).contains(x)),
        build_ids(a).len() == 1,
        build_ids(b).len() == 1,
        build_ids(a)[0] != build_ids(b)[0],
{
    let mine = mentioned(cat.components@);
    let i1 = choose|ifaces: Seq<Seq<char>>|
        sorted_set_of(ifaces, mine) && a == #[trigger] projection_text(
            cat,
            ifaces,
            apps,
            dec_of(one),
            at_one,
            commit_one,
        );
    let i2 = choose|ifaces: Seq<Seq<char>>|
        sorted_set_of(ifaces, mine) && b == #[trigger] projection_text(
            cat,
            ifaces,
            apps,
            dec_of(two),
            at_two,
            commit_two,
        );
    lemma_sorted_set_is_one(i1, i2);
    lemma_projection_says(cat, i1, apps, one, at_one, commit_one);
    lemma_projection_says(cat, i1, apps, two, at_two, commit_two);
    let (p, q) = (graph(cat, i1, apps, one), graph(cat, i1, apps, two));
    lemma_edges_count(cat.components@, apps, dec_of(one), dec_of(two));
    let n = nodes(cat, i1, apps, dec_of(one)).len() as int;
    assert(nodes(cat, i1, apps, dec_of(two)).len() == n);
    assert forall|k: int| 0 <= k < p.len() implies rows_said(#[trigger] p[k]) == rows_said(q[k])
        && builds_said(p[k]) == builds_said(q[k]) by {
        lemma_graph_fits(cat, i1, apps, one, k);
        lemma_graph_fits(cat, i1, apps, two, k);
        if k < n {
            assert(p[k] == nodes(cat, i1, apps, dec_of(one))[k]);
            assert(q[k] == nodes(cat, i1, apps, dec_of(two))[k]);
            crate::capgraph::law_nodes_keep_their_ids(cat, i1, apps, dec_of(one), dec_of(two), k);
        }
        assert(rows_said(p[k]) =~= rows_said(q[k]));
        assert(builds_said(p[k]) =~= builds_said(q[k]));
    }
    lemma_same_rows(p, q);
    assert forall|x: Seq<char>| !(#[trigger] edge_ids(a).contains(x) && edge_ids(b).contains(x)) by {
        if edge_ids(a).contains(x) && edge_ids(b).contains(x) {
            let t = choose|t: Table| minted(x, t, one);
            let u = choose|u: Table| minted(x, u, two);
            lemma_minted_once(x, t, u, one, two);
        }
    }
    lemma_builds_differ(one, two);
}

// -------------------------------------------------------- whatever the names --

proof fn lemma_builds_differ(one: nat, two: nat)
    requires
        one != two,
    ensures
        rid_of("generation"@, dec_of(one)) != rid_of("generation"@, dec_of(two)),
{
    let (x, y) = (rid_of("generation"@, dec_of(one)), rid_of("generation"@, dec_of(two)));
    if x == y {
        lemma_digits_are_plain(one);
        lemma_digits_are_plain(two);
        crate::capgraph::lemma_replace_none(dec_of(one), '⟩', ""@);
        crate::capgraph::lemma_replace_none(dec_of(two), '⟩', ""@);
        let head = "generation"@ + ":⟨"@;
        let (d, e) = (dec_of(one), dec_of(two));
        assert(x =~= head + d + "⟩"@);
        assert(y =~= head + e + "⟩"@);
        assert(d.len() == e.len());
        assert(d =~= x.subrange(head.len() as int, head.len() + d.len() as int));
        assert(e =~= y.subrange(head.len() as int, head.len() + e.len() as int));
        law_decimal_reads_back(one);
        law_decimal_reads_back(two);
    }
}

/// The record of the row that a statement writes.
pub open spec fn row_record(s: StatementView) -> Option<Seq<char>> {
    match s {
        StatementView::Node(t, id, _) => Some(rid_of(table_name(t), id)),
        _ => None,
    }
}

/// The record of the edge that a statement relates.
pub open spec fn edge_record(s: StatementView) -> Option<Seq<char>> {
    match s {
        StatementView::Edge(t, id, _, _) => Some(rid_of(table_name(t), id)),
        _ => None,
    }
}

/// Where a projection says which build it is.
pub open spec fn build_place(
    cat: Catalog,
    ifaces: Seq<Seq<char>>,
    apps: Seq<App>,
    gen: Seq<char>,
) -> int {
    nodes(cat, ifaces, apps, gen).len() + edges(cat, apps, gen).len() + 1int
}

/// An edge between what its id names.
spec fn own_edge(s: StatementView, gen: Seq<char>) -> bool {
    match s {
        StatementView::Edge(t, id, a, b) => relates(t) && id == edge_id(gen, a.1, b.1),
        _ => false,
    }
}

proof fn lemma_edges_own(cs: Seq<Component>, apps: Seq<App>, gen: Seq<char>)
    ensures
        forall|i: int|
            0 <= i < surface_edges(cs, gen).len() ==> own_edge(
                #[trigger] surface_edges(cs, gen)[i],
                gen,
            ),
        forall|i: int|
            0 <= i < carry_edges(apps, gen).len() ==> own_edge(
                #[trigger] carry_edges(apps, gen)[i],
                gen,
            ),
    decreases cs.len() + apps.len(),
{
    if cs.len() > 0 {
        lemma_edges_own(cs.drop_last(), apps, gen);
        let c = cs.last();
        let a = surface_edges(cs.drop_last(), gen);
        let b = table_edges(Table::Imports, c.name@, imports_of(c), gen);
        let d = table_edges(Table::Exports, c.name@, exports_of(c), gen);
        let all = surface_edges(cs, gen);
        assert forall|i: int| 0 <= i < all.len() implies own_edge(#[trigger] all[i], gen) by {
            if i < a.len() {
                assert(all[i] == a[i]);
            } else if i < a.len() + b.len() {
                assert(all[i] == b[i - a.len()]);
            } else {
                assert(all[i] == d[i - a.len() - b.len()]);
            }
        }
    }
    if apps.len() > 0 {
        lemma_edges_own(cs, apps.drop_last(), gen);
        let a = carry_edges(apps.drop_last(), gen);
        let b = app_edges(apps.last(), gen);
        let all = carry_edges(apps, gen);
        assert forall|i: int| 0 <= i < all.len() implies own_edge(#[trigger] all[i], gen) by {
            if i < a.len() {
                assert(all[i] == a[i]);
            } else {
                assert(all[i] == b[i - a.len()]);
            }
        }
    }
}

proof fn lemma_edge_minted(t: Table, gen: nat, from: Seq<char>, to: Seq<char>)
    requires
        relates(t),
    ensures
        minted(rid_of(table_name(t), edge_id(dec_of(gen), from, to)), t, gen),
{
    reveal_strlit("|");
    lemma_edge_id(gen, from, to);
    let r = crate::text::replace_char_of(edge_id(dec_of(gen), from, to), '⟩', ""@);
    let d = dec_of(gen);
    let x = rid_of(table_name(t), edge_id(d, from, to));
    let p = table_name(t) + ":⟨"@ + d + "|"@;
    let head = table_name(t) + ":⟨"@;
    assert(x =~= head + r + "⟩"@);
    assert(r.take(d.len() as int) == d);
    assert forall|i: int| 0 <= i < p.len() implies p[i] == #[trigger] x[i] by {
        let k = i - head.len();
        if 0 <= k < d.len() {
            assert(r.take(d.len() as int)[k] == r[k]);
        }
    }
    assert(p =~= x.subrange(0, p.len() as int));
}

/// What stands at each place of a projection.
proof fn lemma_places(
    cat: Catalog,
    ifaces: Seq<Seq<char>>,
    apps: Seq<App>,
    gen: nat,
    at: u64,
    commit: Seq<char>,
    i: int,
)
    requires
        0 <= i < projection(cat, ifaces, apps, dec_of(gen), at, commit).len(),
    ensures
        ({
            let g = dec_of(gen);
            let s = projection(cat, ifaces, apps, g, at, commit)[i];
            let n = nodes(cat, ifaces, apps, g).len() as int;
            let place = build_place(cat, ifaces, apps, g);
            &&& i < n ==> s == nodes(cat, ifaces, apps, g)[i] && s is Node && s->Node_0
                != Table::Generation
            &&& n <= i && i != place ==> s !is Node
            &&& i == place ==> s == build_node(cat, ifaces, apps, g, at, commit)
            &&& s is Edge ==> minted(rid_of(table_name(s->Edge_0), s->Edge_1), s->Edge_0, gen)
        }),
{
    let g = dec_of(gen);
    let all = projection(cat, ifaces, apps, g, at, commit);
    let s = all[i];
    let n = nodes(cat, ifaces, apps, g).len() as int;
    let es = edges(cat, apps, g);
    lemma_edges_own(cat.components@, apps, g);
    let m = surface_edges(cat.components@, g).len() as int;
    if n <= i < n + es.len() {
        assert(s == es[i - n]);
        if i - n < m {
            assert(s == surface_edges(cat.components@, g)[i - n]);
        } else {
            assert(s == carry_edges(apps, g)[i - n - m]);
        }
        assert(own_edge(s, g));
        lemma_edge_minted(s->Edge_0, gen, s->Edge_2.1, s->Edge_3.1);
    } else if i < n {
        assert(s == nodes(cat, ifaces, apps, g)[i]);
    } else if i > n + es.len() + 1 {
        assert(s == aged()[i - n - es.len() - 2]);
    }
}

/// Two builds of the same things, whatever their names, write the same rows at the same
/// places, but for the one row that says which build it was, and have no edge in common:
/// the rows that something points at stay, relating again is never refused, and no build
/// hides another.
pub proof fn law_builds_differ_by_their_edges_and_one_row(
    cat: Catalog,
    ifaces: Seq<Seq<char>>,
    apps: Seq<App>,
    one: nat,
    two: nat,
    at_one: u64,
    at_two: u64,
    commit_one: Seq<char>,
    commit_two: Seq<char>,
)
    requires
        one != two,
    ensures
        ({
            let p = projection(cat, ifaces, apps, dec_of(one), at_one, commit_one);
            let q = projection(cat, ifaces, apps, dec_of(two), at_two, commit_two);
            let place = build_place(cat, ifaces, apps, dec_of(one));
            &&& p.len() == q.len()
            &&& 0 <= place < p.len()
            &&& p[place] is Node && p[place]->Node_0 == Table::Generation
            &&& q[place] is Node && q[place]->Node_0 == Table::Generation
            &&& row_record(p[place]) != row_record(q[place])
            &&& forall|i: int|
                0 <= i < p.len() && i != place ==> row_record(#[trigger] p[i]) == row_record(q[i])
            &&& forall|i: int|
                0 <= i < p.len() && i != place ==> writes(#[trigger] p[i]) != Some(
                    Table::Generation,
                )
            &&& forall|i: int, j: int|
                0 <= i < p.len() && 0 <= j < q.len() && edge_record(#[trigger] p[i]) is Some
                    ==> edge_record(p[i]) != edge_record(#[trigger] q[j])
        }),
{
    let (g, h) = (dec_of(one), dec_of(two));
    let p = projection(cat, ifaces, apps, g, at_one, commit_one);
    let q = projection(cat, ifaces, apps, h, at_two, commit_two);
    let place = build_place(cat, ifaces, apps, g);
    lemma_edges_count(cat.components@, apps, g, h);
    assert(nodes(cat, ifaces, apps, h).len() == nodes(cat, ifaces, apps, g).len());
    lemma_places(cat, ifaces, apps, one, at_one, commit_one, place);
    lemma_places(cat, ifaces, apps, two, at_two, commit_two, place);
    lemma_builds_differ(one, two);
    assert forall|i: int| 0 <= i < p.len() && i != place implies row_record(#[trigger] p[i])
        == row_record(q[i]) && writes(p[i]) != Some(Table::Generation) by {
        lemma_places(cat, ifaces, apps, one, at_one, commit_one, i);
        lemma_places(cat, ifaces, apps, two, at_two, commit_two, i);
        if i < nodes(cat, ifaces, apps, g).len() {
            crate::capgraph::law_nodes_keep_their_ids(cat, ifaces, apps, g, h, i);
        }
    }
    assert forall|i: int, j: int|
        0 <= i < p.len() && 0 <= j < q.len() && edge_record(#[trigger] p[i]) is Some implies edge_record(
        p[i],
    ) != edge_record(#[trigger] q[j]) by {
        lemma_places(cat, ifaces, apps, one, at_one, commit_one, i);
        lemma_places(cat, ifaces, apps, two, at_two, commit_two, j);
        if edge_record(p[i]) == edge_record(q[j]) {
            let x = edge_record(p[i])->0;
            lemma_minted_once(x, p[i]->Edge_0, q[j]->Edge_0, one, two);
        }
    }
}

} // verus!
