//! Scoping a goal to one component crate: deriving its build-scope from the
//! repository layout, and trimming a shared workspace manifest down to it.

use vstd::prelude::*;
use vstd::string::*;

use crate::text::{chars_of, find_chars, find_from, join, join_of, lemma_find, lemma_next, next_at, next_char, occurs_at, slice_text, strs};

verus! {

/// The manifest of the workspace that holds every component.
pub open spec fn workspace_root() -> Seq<char> {
    "components/Cargo.toml"@
}

/// The paths that a component crate is built from.
pub open spec fn scope_paths(name: Seq<char>) -> Seq<Seq<char>> {
    seq!["components/"@ + name + "/"@, workspace_root()]
}

/// The workspace members that a component crate is built with.
pub open spec fn scope_members(name: Seq<char>) -> Seq<Seq<char>> {
    seq![name]
}

/// The build-scope of one component crate: the crate and the shared workspace
/// root, whose members are trimmed to just this crate.
pub fn component_scope(name: &str) -> (r: (Vec<String>, String, Vec<String>))
    ensures
        strs(r.0@) == scope_paths(name@),
        r.1@ == workspace_root(),
        strs(r.2@) == scope_members(name@),
{
    let dir = "components/".to_string().concat(name).concat("/");
    let root = "components/Cargo.toml".to_string();
    let paths = vec![dir, root.clone()];
    let members = vec![name.to_string()];
    assert(strs(paths@) =~= scope_paths(name@));
    assert(strs(members@) =~= scope_members(name@));
    (paths, root, members)
}

/// Where the `]` stands that closes an array whose reading has come to `i`: one
/// inside a quoted string or behind a `#` on its line does not close it.
pub open spec fn close_from(s: Seq<char>, i: int, in_comment: bool, in_string: bool) -> Option<int>
    decreases s.len() - i,
{
    if i < 0 || i >= s.len() {
        None
    } else if s[i] == '\n' {
        close_from(s, i + 1, false, in_string)
    } else if s[i] == '"' && !in_comment {
        close_from(s, i + 1, in_comment, !in_string)
    } else if s[i] == '#' && !in_string {
        close_from(s, i + 1, true, in_string)
    } else if s[i] == ']' && !in_comment && !in_string {
        Some(i)
    } else {
        close_from(s, i + 1, in_comment, in_string)
    }
}

/// Where the `]` stands that closes the array opened at `open`.
pub fn closing_bracket(text: &Vec<char>, open: usize) -> (r: Option<usize>)
    requires
        open < text.len(),
    ensures
        r is Some <==> close_from(text@, open + 1, false, false) is Some,
        r matches Some(i) ==> close_from(text@, open + 1, false, false) == Some(i as int) && open
            < i < text.len(),
{
    let mut in_comment = false;
    let mut in_string = false;
    let mut i: usize = open + 1;
    while i < text.len()
        invariant
            open < i <= text.len(),
            close_from(text@, open + 1, false, false) == close_from(
                text@,
                i as int,
                in_comment,
                in_string,
            ),
        decreases text.len() - i,
    {
        let c = text[i];
        if c == '\n' {
            in_comment = false;
        } else if c == '"' && !in_comment {
            in_string = !in_string;
        } else if c == '#' && !in_string {
            in_comment = true;
        } else if c == ']' && !in_comment && !in_string {
            return Some(i);
        }
        i = i + 1;
    }
    None
}

/// Where the members list of a manifest opens: the first `[` after the word.
pub open spec fn members_open(m: Seq<char>) -> Option<int> {
    match find_from(m, "members"@, 0) {
        Some(start) => if next_at(m, '[', start) < m.len() {
            Some(next_at(m, '[', start))
        } else {
            None
        },
        None => None,
    }
}

/// Each member between quotes.
pub open spec fn quoted(members: Seq<Seq<char>>) -> Seq<Seq<char>> {
    members.map_values(|m: Seq<char>| "\""@ + m + "\""@)
}

/// `m` with its members list replaced by exactly `keep`; `m` itself where it has
/// no such list.
pub open spec fn trimmed(m: Seq<char>, keep: Seq<Seq<char>>) -> Seq<char> {
    match members_open(m) {
        Some(open) => match close_from(m, open + 1, false, false) {
            Some(close) => m.take(open) + "["@ + join_of(quoted(keep), ", "@) + "]"@ + m.skip(
                close + 1,
            ),
            None => m,
        },
        None => m,
    }
}

/// Rewrite a manifest's `members = [ … ]` to exactly `keep`; the rest of it
/// survives untouched.
pub fn trim_members(manifest: &str, keep: &Vec<String>) -> (out: String)
    ensures
        out@ == trimmed(manifest@, strs(keep@)),
{
    let cs = chars_of(manifest);
    let word = chars_of("members");
    let start = match find_chars(&cs, &word, 0) {
        Some(i) => i,
        None => return manifest.to_string(),
    };
    let open = next_char(&cs, '[', start);
    if open == cs.len() {
        return manifest.to_string();
    }
    let close = match closing_bracket(&cs, open) {
        Some(i) => i,
        None => return manifest.to_string(),
    };
    let mut list: Vec<String> = Vec::new();
    let mut i: usize = 0;
    while i < keep.len()
        invariant
            i <= keep.len(),
            strs(list@) == quoted(strs(keep@)).take(i as int),
        decreases keep.len() - i,
    {
        let m = "\"".to_string().concat(keep[i].as_str()).concat("\"");
        let ghost o = list@;
        list.push(m);
        proof {
            assert(strs(list@) =~= strs(o).push(m@));
            assert(quoted(strs(keep@)).take(i + 1) =~= quoted(strs(keep@)).take(i as int).push(m@));
        }
        i = i + 1;
    }
    let inside = join(&list, ", ");
    let head = slice_text(&cs, 0, open);
    let tail = slice_text(&cs, close + 1, cs.len());
    proof {
        assert(quoted(strs(keep@)).take(i as int) =~= quoted(strs(keep@)));
        assert(head@ =~= manifest@.take(open as int));
        assert(tail@ =~= manifest@.skip(close + 1));
    }
    head.concat("[").concat(inside.as_str()).concat("]").concat(tail.as_str())
}

/// Trimming changes nothing before the list and nothing behind it.
pub proof fn law_trimming_keeps_the_rest(m: Seq<char>, keep: Seq<Seq<char>>, open: int, close: int)
    requires
        members_open(m) == Some(open),
        close_from(m, open + 1, false, false) == Some(close),
    ensures
        m.take(open).is_prefix_of(trimmed(m, keep)),
        m.skip(close + 1).is_suffix_of(trimmed(m, keep)),
{
    lemma_close_inside(m, open + 1, false, false);
    crate::text::lemma_find(m, "members"@, 0);
    crate::text::lemma_next(m, '[', find_from(m, "members"@, 0)->0);
    let t = trimmed(m, keep);
    assert(m.take(open) =~= t.take(open));
    assert(m.skip(close + 1) =~= t.skip(t.len() - m.skip(close + 1).len()));
}

/// A name between quotes closes nothing: reading goes on behind it as before it.
proof fn lemma_close_skips_quoted(s: Seq<char>, i: int, name: Seq<char>, k: int)
    requires
        0 <= k <= name.len(),
        0 <= i,
        i + name.len() + 2 <= s.len(),
        s[i] == '"',
        s[i + 1 + name.len()] == '"',
        forall|j: int| 0 <= j < name.len() ==> s[i + 1 + j] == #[trigger] name[j] && name[j] != '"',
    ensures
        close_from(s, i + 1 + k, false, true) == close_from(
            s,
            i + 2 + name.len(),
            false,
            false,
        ),
        close_from(s, i, false, false) == close_from(s, i + 1, false, true),
    decreases name.len() - k,
{
    if k < name.len() {
        assert(s[i + 1 + k] == name[k]);
        lemma_close_skips_quoted(s, i, name, k + 1);
    }
}

/// The names of a list come one after another: those before the `k`th open it.
proof fn lemma_join_prefix(parts: Seq<Seq<char>>, sep: Seq<char>, k: int)
    requires
        0 <= k <= parts.len(),
    ensures
        join_of(parts.take(k), sep).is_prefix_of(join_of(parts, sep)),
    decreases parts.len(),
{
    if k < parts.len() {
        lemma_join_prefix(parts.drop_last(), sep, k);
        assert(parts.drop_last().take(k) =~= parts.take(k));
        let a = join_of(parts.take(k), sep);
        let b = join_of(parts.drop_last(), sep);
        let c = join_of(parts, sep);
        if parts.len() == 1 {
            assert(parts.take(k) =~= Seq::empty());
            assert(a =~= c.take(0));
        } else {
            assert(c.take(b.len() as int) =~= b);
            assert(c.take(a.len() as int) =~= b.take(a.len() as int));
        }
    } else {
        assert(parts.take(k) =~= parts);
        assert(join_of(parts, sep) =~= join_of(parts, sep).take(join_of(parts, sep).len() as int));
    }
}

/// Reading passes over the first `k` names that a list was written with.
proof fn lemma_close_skips_list(s: Seq<char>, i: int, names: Seq<Seq<char>>, k: int)
    requires
        0 <= k <= names.len(),
        0 <= i,
        i + join_of(quoted(names), ", "@).len() <= s.len(),
        s.subrange(i, i + join_of(quoted(names), ", "@).len()) == join_of(quoted(names), ", "@),
        forall|n: int, j: int|
            0 <= n < names.len() && 0 <= j < names[n].len() ==> #[trigger] names[n][j] != '"',
    ensures
        close_from(s, i, false, false) == close_from(
            s,
            i + join_of(quoted(names).take(k), ", "@).len(),
            false,
            false,
        ),
    decreases k,
{
    reveal_strlit(", ");
    reveal_strlit("\"");
    let all = quoted(names);
    let whole = join_of(all, ", "@);
    if k == 0 {
        assert(all.take(0) =~= Seq::empty());
    } else {
        lemma_close_skips_list(s, i, names, k - 1);
        lemma_join_prefix(all, ", "@, k);
        let now = all.take(k);
        let before = join_of(all.take(k - 1), ", "@);
        let after = join_of(now, ", "@);
        assert(now.drop_last() =~= all.take(k - 1));
        let name = names[k - 1];
        let last = all[k - 1];
        assert(now.last() == last);
        assert(last == "\""@ + name + "\""@);
        assert(last =~= seq!['"'] + name + seq!['"']);
        let gap: int = if k == 1 {
            0
        } else {
            2
        };
        if k == 1 {
            assert(before.len() == 0);
            assert(now[0] == last);
            assert(after == last);
        } else {
            assert(after == before + ", "@ + last);
        }
        assert(after.len() == before.len() + gap + last.len());
        let at = i + before.len();
        assert forall|j: int| 0 <= j < after.len() implies s[i + j] == #[trigger] after[j] by {
            assert(whole.take(after.len() as int)[j] == after[j]);
            assert(s.subrange(i, i + whole.len())[j] == whole[j]);
        }
        if k > 1 {
            assert(after[before.len() as int] == ',');
            assert(after[before.len() + 1int] == ' ');
            assert(s[at] == ',' && s[at + 1] == ' ');
            assert(close_from(s, at, false, false) == close_from(s, at + 1, false, false));
            assert(close_from(s, at + 1, false, false) == close_from(s, at + 2, false, false));
        }
        let open = at + gap;
        assert forall|j: int| 0 <= j < last.len() implies s[open + j] == #[trigger] last[j] by {
            assert(after[before.len() + gap + j] == last[j]);
        }
        assert(last[0] == '"');
        assert(last[1int + name.len()] == '"');
        assert forall|j: int| 0 <= j < name.len() implies s[open + 1 + j] == #[trigger] name[j]
            && name[j] != '"' by {
            assert(last[1 + j] == name[j]);
            assert(names[k - 1][j] != '"');
        }
        lemma_close_skips_quoted(s, open, name, 0);
    }
}

/// Trimming a trimmed manifest is trimming it by the second list alone: the last list wins,
/// and trimming twice by one list is trimming once. A name that holds a quote would end its
/// own quotation, so the first list holds none.
pub proof fn law_the_last_trim_wins(m: Seq<char>, first: Seq<Seq<char>>, second: Seq<Seq<char>>)
    requires
        forall|n: int, j: int|
            0 <= n < first.len() && 0 <= j < first[n].len() ==> #[trigger] first[n][j] != '"',
    ensures
        trimmed(trimmed(m, first), second) == trimmed(m, second),
{
    reveal_strlit("members");
    reveal_strlit("[");
    reveal_strlit("]");
    let word = "members"@;
    if let Some(open) = members_open(m) {
        if let Some(close) = close_from(m, open + 1, false, false) {
            lemma_close_inside(m, open + 1, false, false);
            let start = find_from(m, word, 0)->0;
            crate::text::lemma_find(m, word, 0);
            crate::text::lemma_next(m, '[', start);
            assert(m.subrange(start, start + 7) == word);
            assert(open >= start + 7) by {
                if open < start + 7 {
                    assert(m.subrange(start, start + 7)[open - start] == '[');
                    assert(word[open - start] != '[');
                }
            }
            let list = join_of(quoted(first), ", "@);
            let t = trimmed(m, first);
            assert(t =~= m.take(open) + seq!['['] + list + seq![']'] + m.skip(close + 1));
            assert forall|j: int| 0 <= j <= open implies #[trigger] t[j] == m[j] by {}
            crate::text::lemma_find(t, word, 0);
            assert(t.subrange(start, start + 7) =~= word);
            assert(occurs_at(t, word, start));
            let found = find_from(t, word, 0)->0;
            assert(find_from(t, word, 0) is Some);
            if found < start {
                assert(t.subrange(found, found + 7) =~= m.subrange(found, found + 7));
                assert(occurs_at(m, word, found));
            }
            assert(found == start);
            crate::text::lemma_next(t, '[', start);
            let at = next_at(t, '[', start);
            if at < open {
                assert(t[at] == m[at]);
            }
            assert(t[open] == '[');
            assert(at == open);
            assert(members_open(t) == Some(open));
            assert(t.subrange(open + 1, open + 1 + list.len()) =~= list);
            lemma_close_skips_list(t, open + 1, first, first.len() as int);
            assert(quoted(first).take(first.len() as int) =~= quoted(first));
            let end = open + 1 + list.len();
            assert(t[end] == ']');
            assert(close_from(t, open + 1, false, false) == Some(end));
            assert(t.take(open) =~= m.take(open));
            assert(t.skip(end + 1) =~= m.skip(close + 1));
        }
    }
}

proof fn lemma_close_inside(s: Seq<char>, i: int, in_comment: bool, in_string: bool)
    requires
        i >= 0,
    ensures
        close_from(s, i, in_comment, in_string) matches Some(j) ==> i <= j < s.len(),
    decreases s.len() - i,
{
    if i < s.len() {
        lemma_close_inside(s, i + 1, false, in_string);
        lemma_close_inside(s, i + 1, in_comment, !in_string);
        lemma_close_inside(s, i + 1, true, in_string);
        lemma_close_inside(s, i + 1, in_comment, in_string);
    }
}

/// The scope of a component is its own directory and the workspace's manifest, trimmed to that
/// one member.
pub proof fn law_the_scope_of_a_component(name: Seq<char>)
    ensures
        scope_paths(name) == seq!["components/"@ + name + "/"@, "components/Cargo.toml"@],
        scope_members(name) == seq![name],
        workspace_root() == "components/Cargo.toml"@,
{
}

/// Trimming writes the members that are kept, in quotes and in their order, between the brackets
/// that were there; and changes nothing where there are none.
pub proof fn law_what_is_kept_is_written(m: Seq<char>, keep: Seq<Seq<char>>)
    ensures
        members_open(m) is None ==> trimmed(m, keep) == m,
        members_open(m) is Some && close_from(m, members_open(m)->0 + 1, false, false) is Some
            ==> trimmed(m, keep) == m.take(members_open(m)->0) + "["@ + join_of(
            keep.map_values(|k: Seq<char>| "\""@ + k + "\""@),
            ", "@,
        ) + "]"@ + m.skip(close_from(m, members_open(m)->0 + 1, false, false)->0 + 1),
{
    assert(quoted(keep) =~= keep.map_values(|k: Seq<char>| "\""@ + k + "\""@));
}

/// The members list of a manifest opens at the first bracket behind the first word "members".
pub proof fn law_where_the_members_stand(m: Seq<char>, start: int, open: int)
    requires
        occurs_at(m, "members"@, start),
        forall|k: int| 0 <= k < start ==> !occurs_at(m, "members"@, k),
        start <= open < m.len(),
        m[open] == '[',
        forall|k: int| start <= k < open ==> m[k] != '[',
    ensures
        members_open(m) == Some(open),
{
    lemma_find(m, "members"@, 0);
    match find_from(m, "members"@, 0) {
        Some(j) => {
            if j < start {
                assert(!occurs_at(m, "members"@, j));
            }
        },
        None => {},
    }
    lemma_next(m, '[', start);
}

} // verus!
