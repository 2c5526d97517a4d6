//! Text as a sequence of characters: the operations the tools parse with, each
//! stated over `Seq<char>`.

use vstd::prelude::*;
use vstd::string::*;

verus! {

/// `String::push` appends the given character to the end of the string.
pub assume_specification[ String::push ](s: &mut String, c: char)
    ensures
        final(s)@ == old(s)@.push(c),
;

/// `char::from_u32` gives the character of a code point, and `None` where the number is no
/// Unicode scalar value.
pub assume_specification[ char::from_u32 ](i: u32) -> (r: Option<char>)
    ensures
        r is Some <==> i < 0xd800 || 0xe000 <= i <= 0x10ffff,
        r matches Some(c) ==> c as int == i,
;

/// How `{:?}` writes a text: between quotes, with what is not printable escaped.
pub uninterp spec fn debug_of(s: Seq<char>) -> Seq<char>;

/// The `Debug` of `str`. What it writes is a function of the text; which characters
/// it escapes is left to the standard library.
#[verifier::external_body]
pub(crate) fn debug(s: &str) -> (out: String)
    ensures
        out@ == debug_of(s@),
{
    format!("{:?}", s)
}

/// A text in lower case, as Unicode maps it.
pub uninterp spec fn lowercase_of(s: Seq<char>) -> Seq<char>;

/// Every character is one of ASCII's.
pub open spec fn ascii(s: Seq<char>) -> bool {
    forall|i: int| 0 <= i < s.len() ==> (#[trigger] s[i] as int) < 128
}

/// `str::to_lowercase`: a function of the text, which of ASCII maps the letters alone.
#[verifier::external_body]
pub(crate) fn lowercase(s: &str) -> (out: String)
    ensures
        out@ == lowercase_of(s@),
        ascii(s@) ==> out@ == lower_of(s@),
{
    s.to_lowercase()
}

/// The text that some bytes are, with what is not UTF-8 replaced.
pub uninterp spec fn lossy_of(b: Seq<u8>) -> Seq<char>;

/// `String::from_utf8_lossy`: a function of the bytes, and their text where they are
/// UTF-8.
#[verifier::external_body]
pub(crate) fn lossy(b: &[u8]) -> (out: String)
    ensures
        out@ == lossy_of(b@),
        vstd::utf8::valid_utf8(b@) ==> out@ == vstd::utf8::decode_utf8(b@),
{
    String::from_utf8_lossy(b).to_string()
}

// ---------------------------------------------------------------- models ----

/// The views of a list of strings.
pub open spec fn strs(v: Seq<String>) -> Seq<Seq<char>> {
    v.map_values(|s: String| s@)
}

/// Unicode's `White_Space` property.
pub open spec fn space(c: char) -> bool {
    let u = c as u32;
    ||| 0x9 <= u <= 0xd
    ||| u == 0x20
    ||| u == 0x85
    ||| u == 0xa0
    ||| u == 0x1680
    ||| 0x2000 <= u <= 0x200a
    ||| u == 0x2028
    ||| u == 0x2029
    ||| u == 0x202f
    ||| u == 0x205f
    ||| u == 0x3000
}

/// `s` without its leading white space.
pub open spec fn trim_start_of(s: Seq<char>) -> Seq<char>
    decreases s.len(),
{
    if s.len() > 0 && space(s[0]) {
        trim_start_of(s.skip(1))
    } else {
        s
    }
}

/// `s` without its trailing white space.
pub open spec fn trim_end_of(s: Seq<char>) -> Seq<char>
    decreases s.len(),
{
    if s.len() > 0 && space(s.last()) {
        trim_end_of(s.drop_last())
    } else {
        s
    }
}

/// `s` without white space at either end.
pub open spec fn trim_of(s: Seq<char>) -> Seq<char> {
    trim_end_of(trim_start_of(s))
}

/// `s` without the run of `c` at its end.
pub open spec fn trim_end_char_of(s: Seq<char>, c: char) -> Seq<char>
    decreases s.len(),
{
    if s.len() > 0 && s.last() == c {
        trim_end_char_of(s.drop_last(), c)
    } else {
        s
    }
}

/// The fields of `s` between separators: each separator closes one field and
/// opens the next, so there is always one more field than separators.
pub open spec fn split_where(s: Seq<char>, sep: spec_fn(char) -> bool) -> Seq<Seq<char>>
    decreases s.len(),
{
    if s.len() == 0 {
        seq![Seq::<char>::empty()]
    } else {
        let before = split_where(s.drop_last(), sep);
        if sep(s.last()) {
            before.push(Seq::<char>::empty())
        } else {
            before.drop_last().push(before.last().push(s.last()))
        }
    }
}

/// What begins with a separator has an empty first field, and one behind it.
pub proof fn lemma_split_first(s: Seq<char>, sep: spec_fn(char) -> bool)
    requires
        s.len() > 0,
        sep(s[0]),
    ensures
        split_where(s, sep).len() >= 2,
        split_where(s, sep)[0].len() == 0,
    decreases s.len(),
{
    if s.len() == 1 {
        assert(s.drop_last() =~= Seq::empty());
        assert(split_where(s.drop_last(), sep) == seq![Seq::<char>::empty()]);
    } else {
        lemma_split_first(s.drop_last(), sep);
    }
}

/// A separator joins the fields before it and those behind it.
pub proof fn lemma_split_joined(a: Seq<char>, c: char, b: Seq<char>, sep: spec_fn(char) -> bool)
    requires
        sep(c),
    ensures
        split_where(a.push(c) + b, sep) == split_where(a, sep) + split_where(b, sep),
        split_where(a, sep).len() > 0,
        split_where(b, sep).len() > 0,
    decreases a.len() + b.len(),
{
    if a.len() > 0 {
        lemma_split_joined(a.drop_last(), c, Seq::empty(), sep);
    }
    if b.len() == 0 {
        assert(a.push(c) + b =~= a.push(c));
        assert(a.push(c).drop_last() =~= a);
        assert(split_where(a, sep) + split_where(b, sep) =~= split_where(a, sep).push(Seq::empty()));
    } else {
        let shorter = b.drop_last();
        lemma_split_joined(a, c, shorter, sep);
        assert((a.push(c) + b).drop_last() =~= a.push(c) + shorter);
        let front = split_where(a, sep);
        let back = split_where(shorter, sep);
        assert((front + back).drop_last() =~= front + back.drop_last());
        assert((front + back).last() == back.last());
        assert(split_where(a.push(c) + b, sep) =~= front + split_where(b, sep));
    }
}

/// A text without a separator is one field.
pub proof fn lemma_split_plain(s: Seq<char>, sep: spec_fn(char) -> bool)
    requires
        forall|i: int| 0 <= i < s.len() ==> !sep(#[trigger] s[i]),
    ensures
        split_where(s, sep) == seq![s],
    decreases s.len(),
{
    if s.len() == 0 {
        assert(s =~= Seq::empty());
    } else {
        let t = s.drop_last();
        assert forall|i: int| 0 <= i < t.len() implies !sep(#[trigger] t[i]) by {
            assert(t[i] == s[i]);
        }
        lemma_split_plain(t, sep);
        assert(!sep(s.last()));
        assert(t.push(s.last()) =~= s);
        assert(split_where(s, sep) =~= seq![s]);
    }
}

/// The test for one character.
pub open spec fn is_char(c: char) -> spec_fn(char) -> bool {
    |x: char| x == c
}

/// The fields of `s` between occurrences of `c`.
pub open spec fn split_of(s: Seq<char>, c: char) -> Seq<Seq<char>> {
    split_where(s, is_char(c))
}

/// The fields of `s` that white space separates, none of them empty.
pub open spec fn words_of(s: Seq<char>) -> Seq<Seq<char>> {
    split_where(s, |x: char| space(x)).filter(|w: Seq<char>| w.len() > 0)
}

/// What is picked out of two lists is picked out of each.
pub proof fn lemma_filter_map_joined<A, B>(a: Seq<A>, b: Seq<A>, f: spec_fn(A) -> Option<B>)
    ensures
        (a + b).filter_map(f) == a.filter_map(f) + b.filter_map(f),
    decreases b.len(),
{
    reveal(Seq::filter_map);
    if b.len() == 0 {
        assert(a + b =~= a);
        assert(a.filter_map(f) + b.filter_map(f) =~= a.filter_map(f));
    } else {
        lemma_filter_map_joined(a, b.drop_last(), f);
        assert((a + b).drop_last() =~= a + b.drop_last());
        assert((a + b).filter_map(f) =~= a.filter_map(f) + b.filter_map(f));
    }
}

/// White space joins the words before it and those behind it.
pub proof fn lemma_words_joined(a: Seq<char>, c: char, b: Seq<char>)
    requires
        space(c),
    ensures
        words_of(a.push(c) + b) == words_of(a) + words_of(b),
{
    let sep = |x: char| space(x);
    lemma_split_joined(a, c, b, sep);
    Seq::filter_distributes_over_add(
        split_where(a, sep),
        split_where(b, sep),
        |w: Seq<char>| w.len() > 0,
    );
}

/// A text without white space is one word.
pub proof fn lemma_words_plain(s: Seq<char>)
    requires
        s.len() > 0,
        forall|i: int| 0 <= i < s.len() ==> !space(#[trigger] s[i]),
    ensures
        words_of(s) == seq![s],
{
    let sep = |x: char| space(x);
    let full = |w: Seq<char>| w.len() > 0;
    lemma_split_plain(s, sep);
    reveal(Seq::filter);
    assert(seq![s].drop_last() =~= Seq::empty());
    assert(seq![s].filter(full) =~= seq![s]) by {
        assert(Seq::<Seq<char>>::empty().filter(full) =~= Seq::empty());
    }
}

/// `line` without one carriage return at its end.
pub open spec fn strip_cr(line: Seq<char>) -> Seq<char> {
    if line.len() > 0 && line.last() == '\r' {
        line.drop_last()
    } else {
        line
    }
}

/// The lines of `s`: a line ends at `\n` or `\r\n`, and the last one needs no
/// ending.
pub open spec fn lines_of(s: Seq<char>) -> Seq<Seq<char>> {
    let parts = split_of(s, '\n');
    let ended = parts.drop_last().map_values(|l: Seq<char>| strip_cr(l));
    if parts.last().len() == 0 {
        ended
    } else {
        ended.push(parts.last())
    }
}

/// What ends in a line end has its lines, whatever follows has its own.
pub proof fn lemma_lines_joined(a: Seq<char>, b: Seq<char>)
    ensures
        lines_of(a.push('\n') + b) == split_of(a, '\n').map_values(|l: Seq<char>| strip_cr(l))
            + lines_of(b),
        lines_of(a.push('\n')) == split_of(a, '\n').map_values(|l: Seq<char>| strip_cr(l)),
{
    let f = |l: Seq<char>| strip_cr(l);
    let front = split_of(a, '\n');
    let back = split_of(b, '\n');
    lemma_split_joined(a, '\n', b, is_char('\n'));
    lemma_split_joined(a, '\n', Seq::empty(), is_char('\n'));
    assert(a.push('\n') + Seq::<char>::empty() =~= a.push('\n'));
    let none = split_of(Seq::<char>::empty(), '\n');
    assert(none == seq![Seq::<char>::empty()]);
    assert((front + none).drop_last() =~= front);
    assert((front + back).drop_last() =~= front + back.drop_last());
    assert((front + back.drop_last()).map_values(f) =~= front.map_values(f)
        + back.drop_last().map_values(f));
    assert((front + back).last() == back.last());
    assert(lines_of(a.push('\n') + b) =~= front.map_values(f) + lines_of(b));
}

/// Where the first element `x` of `s` at or after `i` stands; `s.len()` where
/// there is none.
pub open spec fn next_at<T>(s: Seq<T>, x: T, i: int) -> int
    decreases s.len() - i,
{
    if i < 0 || i >= s.len() {
        s.len() as int
    } else if s[i] == x {
        i
    } else {
        next_at(s, x, i + 1)
    }
}

/// `n` stands in `h` at `i`.
pub open spec fn occurs_at<T>(h: Seq<T>, n: Seq<T>, i: int) -> bool {
    0 <= i && i + n.len() <= h.len() && h.subrange(i, i + n.len()) == n
}

/// Where the first occurrence of `n` in `h` at or after `i` starts.
pub open spec fn find_from<T>(h: Seq<T>, n: Seq<T>, i: int) -> Option<int>
    decreases h.len() + 1 - i,
{
    if i < 0 || i + n.len() > h.len() {
        None
    } else if occurs_at(h, n, i) {
        Some(i)
    } else {
        find_from(h, n, i + 1)
    }
}

/// `h` holds `n`.
pub open spec fn holds(h: Seq<char>, n: Seq<char>) -> bool {
    find_from(h, n, 0) is Some
}

/// What stands before and after the first `c` of `s`.
pub open spec fn split_once_of(s: Seq<char>, c: char) -> Option<(Seq<char>, Seq<char>)> {
    let i = next_at(s, c, 0);
    if i < s.len() {
        Some((s.take(i), s.skip(i + 1)))
    } else {
        None
    }
}

/// Where the last `c` of the first `i` characters of `s` stands; -1 where there
/// is none.
pub open spec fn last_before(s: Seq<char>, c: char, i: int) -> int
    decreases i,
{
    if i <= 0 {
        -1
    } else if s[i - 1] == c {
        i - 1
    } else {
        last_before(s, c, i - 1)
    }
}

/// What stands before and after the last `c` of `s`.
pub open spec fn rsplit_once_of(s: Seq<char>, c: char) -> Option<(Seq<char>, Seq<char>)> {
    let i = last_before(s, c, s.len() as int);
    if i >= 0 {
        Some((s.take(i), s.skip(i + 1)))
    } else {
        None
    }
}

/// What stands before the first `c` of `s`; all of it where there is none.
pub open spec fn before_char_of(s: Seq<char>, c: char) -> Seq<char> {
    s.take(next_at(s, c, 0))
}

/// What follows the prefix `p` of `s`.
pub open spec fn after_prefix(s: Seq<char>, p: Seq<char>) -> Option<Seq<char>> {
    if p.is_prefix_of(s) {
        Some(s.skip(p.len() as int))
    } else {
        None
    }
}

/// An ASCII capital as the small letter, any other character as it is.
pub open spec fn lower_char(c: char) -> char {
    if 'A' <= c && c <= 'Z' {
        ((c as u32 + 32) as u32) as char
    } else {
        c
    }
}

/// `s` with its ASCII capitals made small.
pub open spec fn lower_of(s: Seq<char>) -> Seq<char> {
    s.map_values(|c: char| lower_char(c))
}

/// `s` with each `c` replaced by `with`.
pub open spec fn replace_char_of(s: Seq<char>, c: char, with: Seq<char>) -> Seq<char>
    decreases s.len(),
{
    if s.len() == 0 {
        s
    } else {
        replace_char_of(s.drop_last(), c, with) + (if s.last() == c {
            with
        } else {
            seq![s.last()]
        })
    }
}

/// `s` from `i` on, with each occurrence of `from` replaced by `to`, the
/// leftmost first and none overlapping another.
pub open spec fn replace_from(s: Seq<char>, from: Seq<char>, to: Seq<char>, i: int) -> Seq<char>
    decreases s.len() - i,
{
    if from.len() == 0 || i < 0 || i > s.len() {
        Seq::empty()
    } else {
        match find_from(s, from, i) {
            Some(j) => if j < i || j + from.len() > s.len() {
                Seq::empty()
            } else {
                s.subrange(i, j) + to + replace_from(s, from, to, j + from.len())
            },
            None => s.skip(i),
        }
    }
}

/// `s` with `with` before each character and behind the last.
pub open spec fn interleaved(s: Seq<char>, with: Seq<char>) -> Seq<char>
    decreases s.len(),
{
    if s.len() == 0 {
        with
    } else {
        interleaved(s.drop_last(), with) + seq![s.last()] + with
    }
}

/// `s` with each occurrence of `from` replaced by `to`. An empty `from` occurs before each
/// character and behind the last.
pub open spec fn replace_of(s: Seq<char>, from: Seq<char>, to: Seq<char>) -> Seq<char> {
    if from.len() == 0 {
        interleaved(s, to)
    } else {
        replace_from(s, from, to, 0)
    }
}

/// The parts one after another with `sep` between neighbours.
pub open spec fn join_of(parts: Seq<Seq<char>>, sep: Seq<char>) -> Seq<char>
    decreases parts.len(),
{
    if parts.len() == 0 {
        Seq::empty()
    } else if parts.len() == 1 {
        parts[0]
    } else {
        join_of(parts.drop_last(), sep) + sep + parts.last()
    }
}

/// What is put together in one order is put together in the other.
pub proof fn lemma_assoc(a: Seq<char>, b: Seq<char>, c: Seq<char>)
    ensures
        a + b + c == a + (b + c),
{
    assert(a + b + c =~= a + (b + c));
}

/// What stands between the same texts is the same where the whole is.
pub proof fn lemma_between(a: Seq<char>, x: Seq<char>, y: Seq<char>, b: Seq<char>)
    requires
        a + x + b == a + y + b,
    ensures
        x == y,
{
    assert((a + x + b).len() == a.len() + x.len() + b.len());
    assert((a + y + b).len() == a.len() + y.len() + b.len());
    assert forall|i: int| 0 <= i < x.len() implies x[i] == y[i] by {
        assert((a + x + b)[a.len() + i] == x[i]);
        assert((a + y + b)[a.len() + i] == y[i]);
    }
    assert(x =~= y);
}

/// Where a part stands among joined parts: what comes before it and what comes after it do
/// not depend on it.
pub proof fn lemma_join_around(parts: Seq<Seq<char>>, i: int, sep: Seq<char>) -> (r: (
    Seq<char>,
    Seq<char>,
))
    requires
        0 <= i < parts.len(),
    ensures
        join_of(parts, sep) == r.0 + parts[i] + r.1,
        forall|x: Seq<char>| #[trigger] join_of(parts.update(i, x), sep) == r.0 + x + r.1,
    decreases parts.len(),
{
    let none = Seq::<char>::empty();
    assert(parts.update(i, parts[i]) =~= parts);
    if parts.len() == 1 {
        assert forall|x: Seq<char>| #[trigger] join_of(parts.update(i, x), sep) == none + x
            + none by {
            assert(none + x + none =~= x);
        }
        assert(none + parts[i] + none =~= parts[i]);
        (none, none)
    } else if i == parts.len() - 1 {
        let before = join_of(parts.drop_last(), sep) + sep;
        assert forall|x: Seq<char>| #[trigger] join_of(parts.update(i, x), sep) == before + x
            + none by {
            assert(parts.update(i, x).drop_last() =~= parts.drop_last());
            assert(before + x + none =~= before + x);
        }
        assert(before + parts[i] + none =~= before + parts[i]);
        (before, none)
    } else {
        let r = lemma_join_around(parts.drop_last(), i, sep);
        let after = r.1 + sep + parts.last();
        assert forall|x: Seq<char>| #[trigger] join_of(parts.update(i, x), sep) == r.0 + x
            + after by {
            let whole = parts.update(i, x);
            assert(whole.drop_last() =~= parts.drop_last().update(i, x));
            assert(join_of(parts.drop_last().update(i, x), sep) == r.0 + x + r.1);
            assert(whole.last() == parts.last());
            assert(join_of(whole, sep) == r.0 + x + r.1 + sep + parts.last());
            assert(r.0 + x + r.1 + sep + parts.last() =~= r.0 + x + after);
        }
        assert(r.0 + parts[i] + r.1 + sep + parts.last() =~= r.0 + parts[i] + after);
        (r.0, after)
    }
}

/// What was put together stands in the whole where it was put.
pub proof fn lemma_stands(a: Seq<char>, x: Seq<char>, b: Seq<char>)
    ensures
        occurs_at(a + x + b, x, a.len() as int),
{
    assert((a + x + b).subrange(a.len() as int, (a.len() + x.len()) as int) =~= x);
}

/// A text holds what stands in it.
pub proof fn lemma_holds_at(s: Seq<char>, n: Seq<char>, i: int)
    requires
        occurs_at(s, n, i),
    ensures
        holds(s, n),
{
    lemma_find(s, n, 0);
}

/// A text holds itself.
pub proof fn lemma_holds_itself(s: Seq<char>)
    ensures
        holds(s, s),
{
    assert(s.subrange(0, s.len() as int) =~= s);
    lemma_holds_at(s, s, 0);
}

/// A text holds what it ends with.
pub proof fn lemma_holds_end(x: Seq<char>, n: Seq<char>)
    ensures
        holds(x + n, n),
{
    assert((x + n).subrange(x.len() as int, (x.len() + n.len()) as int) =~= n);
    lemma_holds_at(x + n, n, x.len() as int);
}

/// What a text holds, it holds with more behind it.
pub proof fn lemma_holds_longer(s: Seq<char>, n: Seq<char>, t: Seq<char>)
    requires
        holds(s, n),
    ensures
        holds(s + t, n),
{
    lemma_find(s, n, 0);
    let i = find_from(s, n, 0)->0;
    assert((s + t).subrange(i, i + n.len()) =~= s.subrange(i, i + n.len()));
    lemma_holds_at(s + t, n, i);
}

/// A text without `c` that a `c` follows is read back whole.
pub proof fn lemma_read_back(x: Seq<char>, c: char, b: Seq<char>)
    requires
        !x.contains(c),
    ensures
        before_char_of(x.push(c) + b, c) == x,
{
    let s = x.push(c) + b;
    assert forall|k: int| 0 <= k < x.len() implies s[k] != c by {
        assert(s[k] == x[k]);
    }
    assert(s[x.len() as int] == c);
    lemma_next_at(s, c, 0, x.len() as int);
    assert(s.take(x.len() as int) =~= x);
}

/// What is written in quotes behind a label is read back from the whole text.
pub proof fn lemma_quoted_read_back(
    before: Seq<char>,
    label: Seq<char>,
    q: Seq<char>,
    rest: Seq<char>,
    after: Seq<char>,
)
    requires
        !q.contains('"'),
        rest.len() > 0,
        rest[0] == '"',
    ensures
        ({
            let text = before + label + (q + rest + after);
            let behind = text.skip((before.len() + label.len()) as int);
            &&& occurs_at(text, label, before.len() as int)
            &&& before_char_of(behind, '"') == q
            &&& rest.is_prefix_of(behind.skip(q.len() as int))
        }),
{
    let text = before + label + (q + rest + after);
    let behind = text.skip((before.len() + label.len()) as int);
    lemma_stands(before, label, q + rest + after);
    assert(behind =~= q + rest + after);
    assert(behind =~= q.push('"') + (rest.skip(1) + after));
    lemma_read_back(q, '"', rest.skip(1) + after);
    assert(behind.skip(q.len() as int) =~= rest + after);
    assert(rest.is_prefix_of(rest + after)) by {
        assert((rest + after).subrange(0, rest.len() as int) =~= rest);
    }
}

/// An ASCII decimal digit.
pub open spec fn digit(c: char) -> bool {
    '0' <= c && c <= '9'
}

/// An ASCII letter or decimal digit.
pub open spec fn alphanumeric(c: char) -> bool {
    digit(c) || ('a' <= c && c <= 'z') || ('A' <= c && c <= 'Z')
}

// -------------------------------------------------------------- characters --

/// The characters of `s`, in order.
pub fn chars_of(s: &str) -> (out: Vec<char>)
    ensures
        out@ == s@,
{
    let mut out: Vec<char> = Vec::new();
    for c in it: s.chars()
        invariant
            out@ == s@.take(it.index() as int),
            it.seq() == s@,
    {
        out.push(c);
    }
    out
}

/// The text of `cs[i..j]`.
pub fn slice_text(cs: &Vec<char>, i: usize, j: usize) -> (out: String)
    requires
        i <= j <= cs.len(),
    ensures
        out@ == cs@.subrange(i as int, j as int),
{
    let mut out = String::new();
    let mut k: usize = i;
    while k < j
        invariant
            i <= k <= j <= cs.len(),
            out@ == cs@.subrange(i as int, k as int),
        decreases j - k,
    {
        out.push(cs[k]);
        k = k + 1;
    }
    out
}

/// Is `c` white space?
pub fn is_space(c: char) -> (b: bool)
    ensures
        b == space(c),
{
    let u: u32 = c as u32;
    (0x9 <= u && u <= 0xd) || u == 0x20 || u == 0x85 || u == 0xa0 || u == 0x1680 || (0x2000 <= u
        && u <= 0x200a) || u == 0x2028 || u == 0x2029 || u == 0x202f || u == 0x205f || u == 0x3000
}

/// Do two texts hold the same characters?
pub fn same(a: &str, b: &str) -> (r: bool)
    ensures
        r == (a@ == b@),
{
    let x = chars_of(a);
    let y = chars_of(b);
    if x.len() != y.len() {
        return false;
    }
    let mut i: usize = 0;
    while i < x.len()
        invariant
            i <= x.len(),
            x.len() == y.len(),
            x@ == a@,
            y@ == b@,
            forall|k: int| 0 <= k < i ==> x[k] == y[k],
        decreases x.len() - i,
    {
        if x[i] != y[i] {
            assert(a@[i as int] != b@[i as int]);
            return false;
        }
        i = i + 1;
    }
    assert(a@ =~= b@);
    true
}

// ------------------------------------------------------------------- ends --

/// `trim_start_of` is a suffix that starts at the first character that is no
/// white space.
proof fn lemma_trim_start(s: Seq<char>, i: int)
    requires
        0 <= i <= s.len(),
        forall|k: int| 0 <= k < i ==> space(s[k]),
        i < s.len() ==> !space(s[i]),
    ensures
        trim_start_of(s) == s.skip(i),
    decreases i,
{
    if i > 0 {
        let t = s.skip(1);
        assert forall|k: int| 0 <= k < i - 1 implies space(t[k]) by {
            assert(t[k] == s[k + 1]);
        }
        lemma_trim_start(t, i - 1);
        assert(t.skip(i - 1) =~= s.skip(i));
    } else {
        assert(s.skip(0) =~= s);
    }
}

proof fn lemma_trim_end(s: Seq<char>, j: int)
    requires
        0 <= j <= s.len(),
        forall|k: int| j <= k < s.len() ==> space(s[k]),
        j > 0 ==> !space(s[j - 1]),
    ensures
        trim_end_of(s) == s.take(j),
    decreases s.len(),
{
    if j < s.len() {
        assert(space(s.last()));
        lemma_trim_end(s.drop_last(), j);
        assert(s.drop_last().take(j) =~= s.take(j));
    } else {
        assert(s.take(j) =~= s);
    }
}

/// White space at the end of a text is trimmed with the rest.
pub proof fn lemma_trim_push(s: Seq<char>, c: char)
    requires
        space(c),
    ensures
        trim_of(s.push(c)) == trim_of(s),
    decreases s.len(),
{
    if s.len() == 0 {
        assert(s.push(c).skip(1) =~= Seq::empty());
        assert(s =~= Seq::empty());
        assert(trim_start_of(s.push(c)) == trim_start_of(Seq::<char>::empty()));
    } else if space(s[0]) {
        assert(s.push(c)[0] == s[0]);
        assert(s.push(c).skip(1) =~= s.skip(1).push(c));
        lemma_trim_push(s.skip(1), c);
    } else {
        assert(s.push(c)[0] == s[0]);
        assert(s.push(c).drop_last() =~= s);
        assert(trim_end_of(s.push(c)) == trim_end_of(s));
    }
}

/// `s` without its leading white space.
pub fn trim_start(s: &str) -> (out: String)
    ensures
        out@ == trim_start_of(s@),
{
    let cs = chars_of(s);
    let mut i: usize = 0;
    while i < cs.len() && is_space(cs[i])
        invariant
            i <= cs.len(),
            forall|k: int| 0 <= k < i ==> space(cs[k]),
        decreases cs.len() - i,
    {
        i = i + 1;
    }
    proof {
        lemma_trim_start(s@, i as int);
        assert(cs@.subrange(i as int, cs.len() as int) =~= s@.skip(i as int));
    }
    slice_text(&cs, i, cs.len())
}

/// `s` without its trailing white space.
pub fn trim_end(s: &str) -> (out: String)
    ensures
        out@ == trim_end_of(s@),
{
    let cs = chars_of(s);
    let mut j: usize = cs.len();
    while j > 0 && is_space(cs[j - 1])
        invariant
            j <= cs.len(),
            forall|k: int| j <= k < cs.len() ==> space(cs[k]),
        decreases j,
    {
        j = j - 1;
    }
    proof {
        lemma_trim_end(s@, j as int);
        assert(cs@.subrange(0, j as int) =~= s@.take(j as int));
    }
    slice_text(&cs, 0, j)
}

/// `s` without white space at either end.
pub fn trim(s: &str) -> (out: String)
    ensures
        out@ == trim_of(s@),
{
    let t = trim_start(s);
    trim_end(t.as_str())
}

proof fn lemma_trim_end_char(s: Seq<char>, c: char, j: int)
    requires
        0 <= j <= s.len(),
        forall|k: int| j <= k < s.len() ==> s[k] == c,
        j > 0 ==> s[j - 1] != c,
    ensures
        trim_end_char_of(s, c) == s.take(j),
    decreases s.len(),
{
    if j < s.len() {
        lemma_trim_end_char(s.drop_last(), c, j);
        assert(s.drop_last().take(j) =~= s.take(j));
    } else {
        assert(s.take(j) =~= s);
    }
}

/// `s` without the run of `c` at its end.
pub fn trim_end_char(s: &str, c: char) -> (out: String)
    ensures
        out@ == trim_end_char_of(s@, c),
{
    let cs = chars_of(s);
    let mut j: usize = cs.len();
    while j > 0 && cs[j - 1] == c
        invariant
            j <= cs.len(),
            forall|k: int| j <= k < cs.len() ==> cs[k] == c,
        decreases j,
    {
        j = j - 1;
    }
    proof {
        lemma_trim_end_char(s@, c, j as int);
        assert(cs@.subrange(0, j as int) =~= s@.take(j as int));
    }
    slice_text(&cs, 0, j)
}

// --------------------------------------------------------------- searching --

/// Does `s` start with `p`?
pub fn starts_with(s: &str, p: &str) -> (r: bool)
    ensures
        r == p@.is_prefix_of(s@),
{
    let a = chars_of(s);
    let b = chars_of(p);
    matches_at(&a, &b, 0)
}

/// Does `n` stand in `h` at `i`?
pub fn matches_at(h: &Vec<char>, n: &Vec<char>, i: usize) -> (r: bool)
    requires
        i <= h.len(),
    ensures
        r == occurs_at(h@, n@, i as int),
        i == 0 ==> r == n@.is_prefix_of(h@),
{
    if n.len() > h.len() - i {
        return false;
    }
    let mut k: usize = 0;
    while k < n.len()
        invariant
            k <= n.len() <= h.len() - i,
            i <= h.len(),
            forall|m: int| 0 <= m < k ==> h[i + m] == n[m],
        decreases n.len() - k,
    {
        if h[i + k] != n[k] {
            assert(h@.subrange(i as int, i + n.len())[k as int] != n@[k as int]);
            return false;
        }
        k = k + 1;
    }
    assert(h@.subrange(i as int, i + n.len()) =~= n@);
    true
}

/// Does `s` end with `p`?
pub fn ends_with(s: &str, p: &str) -> (r: bool)
    ensures
        r == p@.is_suffix_of(s@),
{
    let a = chars_of(s);
    let b = chars_of(p);
    if b.len() > a.len() {
        return false;
    }
    let r = matches_at(&a, &b, a.len() - b.len());
    assert(s@.subrange(s@.len() - p@.len(), s@.len() as int) =~= s@.skip(s@.len() - p@.len()));
    r
}

/// What follows the prefix `p` of `s`, if `s` has it.
pub fn strip_prefix(s: &str, p: &str) -> (out: Option<String>)
    ensures
        out is Some <==> after_prefix(s@, p@) is Some,
        out matches Some(t) ==> t@ == after_prefix(s@, p@)->0,
{
    if starts_with(s, p) {
        let a = chars_of(s);
        let n = chars_of(p).len();
        assert(a@.subrange(n as int, a.len() as int) =~= s@.skip(n as int));
        Some(slice_text(&a, n, a.len()))
    } else {
        None
    }
}

/// What is found from a later start is found from any start that skips no
/// occurrence.
proof fn lemma_find_skip<T>(h: Seq<T>, n: Seq<T>, i: int, j: int)
    requires
        0 <= i <= j,
        forall|k: int| i <= k < j ==> !occurs_at(h, n, k),
    ensures
        find_from(h, n, i) == find_from(h, n, j),
    decreases j - i,
{
    if i < j {
        if i + n.len() <= h.len() {
            assert(!occurs_at(h, n, i));
            lemma_find_skip(h, n, i + 1, j);
        }
    }
}

/// A found occurrence lies in the text, at or after the start, and no earlier
/// one does.
pub proof fn lemma_find<T>(h: Seq<T>, n: Seq<T>, i: int)
    requires
        0 <= i,
    ensures
        find_from(h, n, i) matches Some(j) ==> {
            &&& i <= j
            &&& occurs_at(h, n, j)
            &&& forall|k: int| i <= k < j ==> !occurs_at(h, n, k)
        },
        find_from(h, n, i) is None ==> forall|k: int| i <= k ==> !occurs_at(h, n, k),
    decreases h.len() + 1 - i,
{
    if i + n.len() <= h.len() && !occurs_at(h, n, i) {
        lemma_find(h, n, i + 1);
    }
}

/// Where `n` first occurs in `h` at or after `from`.
pub fn find_chars(h: &Vec<char>, n: &Vec<char>, from: usize) -> (r: Option<usize>)
    requires
        from <= h.len(),
    ensures
        r is Some <==> find_from(h@, n@, from as int) is Some,
        r matches Some(j) ==> find_from(h@, n@, from as int) == Some(j as int) && from <= j && j
            + n.len() <= h.len(),
{
    let mut i: usize = from;
    while i <= h.len()
        invariant
            from <= i <= h.len() + 1,
            from <= h.len(),
            forall|k: int| from <= k < i ==> !occurs_at(h@, n@, k),
        decreases h.len() + 1 - i,
    {
        if matches_at(h, n, i) {
            proof {
                lemma_find_skip(h@, n@, from as int, i as int);
            }
            return Some(i);
        }
        if i == h.len() {
            proof {
                lemma_find_skip(h@, n@, from as int, i + 1);
            }
            return None;
        }
        i = i + 1;
    }
    proof {
        lemma_find_skip(h@, n@, from as int, i as int);
    }
    None
}

/// Does `h` hold `n`?
pub fn contains(h: &str, n: &str) -> (r: bool)
    ensures
        r == holds(h@, n@),
{
    let a = chars_of(h);
    let b = chars_of(n);
    find_chars(&a, &b, 0).is_some()
}

proof fn lemma_next_at<T>(s: Seq<T>, x: T, i: int, j: int)
    requires
        0 <= i <= j <= s.len(),
        forall|k: int| i <= k < j ==> s[k] != x,
        j < s.len() ==> s[j] == x,
    ensures
        next_at(s, x, i) == j,
    decreases j - i,
{
    if i < j {
        lemma_next_at(s, x, i + 1, j);
    }
}

/// The first `x` at or after `i` is one, and none comes earlier.
pub proof fn lemma_next<T>(s: Seq<T>, x: T, i: int)
    requires
        0 <= i <= s.len(),
    ensures
        i <= next_at(s, x, i) <= s.len(),
        forall|k: int| i <= k < next_at(s, x, i) ==> s[k] != x,
        next_at(s, x, i) < s.len() ==> s[next_at(s, x, i)] == x,
    decreases s.len() - i,
{
    if i < s.len() && s[i] != x {
        lemma_next(s, x, i + 1);
    }
}

/// Where the first `c` of `cs` at or after `from` stands, or the length.
pub fn next_char(cs: &Vec<char>, c: char, from: usize) -> (r: usize)
    requires
        from <= cs.len(),
    ensures
        r == next_at(cs@, c, from as int),
        from <= r <= cs.len(),
{
    let mut i: usize = from;
    while i < cs.len() && cs[i] != c
        invariant
            from <= i <= cs.len(),
            forall|k: int| from <= k < i ==> cs[k] != c,
        decreases cs.len() - i,
    {
        i = i + 1;
    }
    proof {
        lemma_next_at(cs@, c, from as int, i as int);
    }
    i
}

/// What stands before and after the first `c` of `s`.
pub fn split_once(s: &str, c: char) -> (out: Option<(String, String)>)
    ensures
        out is Some <==> split_once_of(s@, c) is Some,
        out matches Some(p) ==> split_once_of(s@, c) == Some((p.0@, p.1@)),
{
    let cs = chars_of(s);
    let i = next_char(&cs, c, 0);
    if i < cs.len() {
        assert(cs@.subrange(0, i as int) =~= s@.take(i as int));
        assert(cs@.subrange(i + 1, cs.len() as int) =~= s@.skip(i + 1));
        Some((slice_text(&cs, 0, i), slice_text(&cs, i + 1, cs.len())))
    } else {
        None
    }
}

/// What stands before the first `c` of `s`; all of it where there is none.
pub fn before_char(s: &str, c: char) -> (out: String)
    ensures
        out@ == before_char_of(s@, c),
{
    let cs = chars_of(s);
    let i = next_char(&cs, c, 0);
    assert(cs@.subrange(0, i as int) =~= s@.take(i as int));
    slice_text(&cs, 0, i)
}

/// The last `c` before `i` is one, and none comes later.
pub proof fn lemma_last(s: Seq<char>, c: char, i: int)
    requires
        0 <= i <= s.len(),
    ensures
        -1 <= last_before(s, c, i) < i || i == 0,
        forall|k: int| last_before(s, c, i) < k < i ==> s[k] != c,
        last_before(s, c, i) >= 0 ==> last_before(s, c, i) < i && s[last_before(s, c, i)] == c,
    decreases i,
{
    if i > 0 && s[i - 1] != c {
        lemma_last(s, c, i - 1);
    }
}

proof fn lemma_last_before(s: Seq<char>, c: char, i: int, j: int)
    requires
        -1 <= j < i <= s.len(),
        forall|k: int| j < k < i ==> s[k] != c,
        j >= 0 ==> s[j] == c,
    ensures
        last_before(s, c, i) == j,
    decreases i,
{
    if i > 0 && j < i - 1 {
        lemma_last_before(s, c, i - 1, j);
    }
}

/// What stands before and after the last `c` of `s`.
pub fn rsplit_once(s: &str, c: char) -> (out: Option<(String, String)>)
    ensures
        out is Some <==> rsplit_once_of(s@, c) is Some,
        out matches Some(p) ==> rsplit_once_of(s@, c) == Some((p.0@, p.1@)),
{
    let cs = chars_of(s);
    let mut i: usize = cs.len();
    while i > 0 && cs[i - 1] != c
        invariant
            i <= cs.len(),
            forall|k: int| i <= k < cs.len() ==> cs[k] != c,
        decreases i,
    {
        i = i - 1;
    }
    proof {
        lemma_last_before(s@, c, cs.len() as int, i - 1);
    }
    if i > 0 {
        assert(cs@.subrange(0, i - 1) =~= s@.take(i - 1));
        assert(cs@.subrange(i as int, cs.len() as int) =~= s@.skip(i as int));
        Some((slice_text(&cs, 0, i - 1), slice_text(&cs, i, cs.len())))
    } else {
        None
    }
}

// --------------------------------------------------------------- splitting --

/// The fields of `s` between occurrences of `c`.
pub fn split(s: &str, c: char) -> (out: Vec<String>)
    ensures
        strs(out@) == split_of(s@, c),
        out.len() > 0,
{
    let cs = chars_of(s);
    let mut out: Vec<String> = Vec::new();
    let mut cur = String::new();
    let ghost sep = is_char(c);
    let mut i: usize = 0;
    proof {
        assert(s@.take(0) =~= Seq::<char>::empty());
        assert(strs(out@).push(cur@) =~= seq![Seq::<char>::empty()]);
    }
    while i < cs.len()
        invariant
            i <= cs.len(),
            cs@ == s@,
            sep == is_char(c),
            split_where(s@.take(i as int), sep) == strs(out@).push(cur@),
        decreases cs.len() - i,
    {
        let ghost before = strs(out@).push(cur@);
        proof {
            assert(s@.take(i + 1).drop_last() =~= s@.take(i as int));
            assert(before.drop_last() =~= strs(out@));
        }
        if cs[i] == c {
            let ghost o = out@;
            let ghost k = cur;
            out.push(cur);
            cur = String::new();
            proof {
                assert(strs(out@) =~= strs(o).push(k@));
                assert(cur@ =~= Seq::<char>::empty());
            }
        } else {
            cur.push(cs[i]);
        }
        i = i + 1;
    }
    let ghost o = out@;
    let ghost k = cur;
    out.push(cur);
    proof {
        assert(strs(out@) =~= strs(o).push(k@));
        assert(s@.take(i as int) =~= s@);
    }
    out
}

/// The fields of `s` that white space separates, none of them empty.
pub fn words(s: &str) -> (out: Vec<String>)
    ensures
        strs(out@) == words_of(s@),
{
    let cs = chars_of(s);
    let mut out: Vec<String> = Vec::new();
    let mut cur = String::new();
    let ghost sep = |x: char| space(x);
    let ghost full = |w: Seq<char>| w.len() > 0;
    let ghost mut fields: Seq<Seq<char>> = Seq::empty();
    let mut i: usize = 0;
    proof {
        assert(s@.take(0) =~= Seq::<char>::empty());
        assert(fields.push(cur@) =~= seq![Seq::<char>::empty()]);
        assert(fields.filter(full) =~= Seq::<Seq<char>>::empty()) by {
            reveal(Seq::filter);
        }
        assert(strs(out@) =~= fields.filter(full));
    }
    while i < cs.len()
        invariant
            i <= cs.len(),
            cs@ == s@,
            sep == (|x: char| space(x)),
            full == (|w: Seq<char>| w.len() > 0),
            split_where(s@.take(i as int), sep) == fields.push(cur@),
            strs(out@) == fields.filter(full),
        decreases cs.len() - i,
    {
        proof {
            assert(s@.take(i + 1).drop_last() =~= s@.take(i as int));
            assert(fields.push(cur@).drop_last() =~= fields);
        }
        if is_space(cs[i]) {
            proof {
                fields.lemma_filter_push(cur@, full);
                fields = fields.push(cur@);
            }
            let ghost o = out@;
            let ghost k = cur;
            if !cur.as_str().is_empty() {
                out.push(cur);
                proof {
                    assert(strs(out@) =~= strs(o).push(k@));
                }
            }
            cur = String::new();
            proof {
                assert(cur@ =~= Seq::<char>::empty());
            }
        } else {
            cur.push(cs[i]);
        }
        i = i + 1;
    }
    proof {
        fields.lemma_filter_push(cur@, full);
        assert(s@.take(i as int) =~= s@);
    }
    let ghost o = out@;
    let ghost k = cur;
    if !cur.as_str().is_empty() {
        out.push(cur);
        proof {
            assert(strs(out@) =~= strs(o).push(k@));
        }
    }
    out
}

/// The lines of `s`.
pub fn lines(s: &str) -> (out: Vec<String>)
    ensures
        strs(out@) == lines_of(s@),
{
    let parts = split(s, '\n');
    let ghost ps = strs(parts@);
    let mut out: Vec<String> = Vec::new();
    let mut i: usize = 0;
    while i + 1 < parts.len()
        invariant
            i + 1 <= parts.len(),
            ps == strs(parts@),
            strs(out@) == ps.take(i as int).map_values(|l: Seq<char>| strip_cr(l)),
        decreases parts.len() - i,
    {
        let line = chars_of(parts[i].as_str());
        let n: usize = if line.len() > 0 && line[line.len() - 1] == '\r' {
            line.len() - 1
        } else {
            line.len()
        };
        let kept = slice_text(&line, 0, n);
        proof {
            assert(ps[i as int] == line@);
            assert(kept@ =~= strip_cr(line@));
            assert(ps.take(i + 1).map_values(|l: Seq<char>| strip_cr(l)) =~= ps.take(
                i as int,
            ).map_values(|l: Seq<char>| strip_cr(l)).push(kept@));
        }
        let ghost o = out@;
        out.push(kept);
        assert(strs(out@) =~= strs(o).push(kept@));
        i = i + 1;
    }
    proof {
        assert(ps.take(i as int) =~= ps.drop_last());
    }
    let last = parts[i].clone();
    assert(ps.last() == last@);
    if !last.as_str().is_empty() {
        let ghost o = out@;
        let ghost k = last;
        out.push(last);
        assert(strs(out@) =~= strs(o).push(k@));
    }
    out
}

// ---------------------------------------------------------------- building --

/// `s` with its ASCII capitals made small.
pub fn lower(s: &str) -> (out: String)
    ensures
        out@ == lower_of(s@),
{
    let cs = chars_of(s);
    let mut out = String::new();
    let mut i: usize = 0;
    while i < cs.len()
        invariant
            i <= cs.len(),
            cs@ == s@,
            out@ == lower_of(s@.take(i as int)),
        decreases cs.len() - i,
    {
        proof {
            assert(lower_of(s@.take(i + 1)) =~= lower_of(s@.take(i as int)).push(
                lower_char(cs[i as int]),
            ));
        }
        out.push(lower_one(cs[i]));
        i = i + 1;
    }
    assert(s@.take(i as int) =~= s@);
    out
}

/// An ASCII capital as the small letter, any other character as it is.
pub fn lower_one(c: char) -> (r: char)
    ensures
        r == lower_char(c),
{
    if 'A' <= c && c <= 'Z' {
        let u: u8 = c as u8;
        (u + 32) as char
    } else {
        c
    }
}

/// `s` with each `c` replaced by `with`.
pub fn replace_char(s: &str, c: char, with: &str) -> (out: String)
    ensures
        out@ == replace_char_of(s@, c, with@),
{
    let cs = chars_of(s);
    let mut out = String::new();
    let mut i: usize = 0;
    while i < cs.len()
        invariant
            i <= cs.len(),
            cs@ == s@,
            out@ == replace_char_of(s@.take(i as int), c, with@),
        decreases cs.len() - i,
    {
        proof {
            assert(s@.take(i + 1).drop_last() =~= s@.take(i as int));
        }
        let ghost o = out@;
        if cs[i] == c {
            out.append(with);
        } else {
            out.push(cs[i]);
            assert(out@ =~= o + seq![cs[i as int]]);
        }
        i = i + 1;
    }
    assert(s@.take(i as int) =~= s@);
    out
}

fn interleave(s: &str, with: &str) -> (out: String)
    ensures
        out@ == interleaved(s@, with@),
{
    let cs = chars_of(s);
    let mut out = with.to_string();
    let mut i: usize = 0;
    assert(cs@.take(0) =~= Seq::empty());
    while i < cs.len()
        invariant
            i <= cs.len(),
            out@ == interleaved(cs@.take(i as int), with@),
        decreases cs.len() - i,
    {
        assert(cs@.take(i + 1).drop_last() =~= cs@.take(i as int));
        let ghost o = out@;
        out.push(cs[i]);
        out.append(with);
        assert(out@ =~= o + seq![cs@[i as int]] + with@);
        i = i + 1;
    }
    assert(cs@.take(i as int) =~= cs@);
    out
}

/// `s` with each occurrence of `from` replaced by `to`.
pub fn replace(s: &str, from: &str, to: &str) -> (out: String)
    ensures
        out@ == replace_of(s@, from@, to@),
{
    let cs = chars_of(s);
    let pat = chars_of(from);
    if pat.len() == 0 {
        return interleave(s, to);
    }
    let mut out = String::new();
    let mut i: usize = 0;
    assert(Seq::<char>::empty() + replace_from(s@, from@, to@, 0) =~= replace_of(s@, from@, to@));
    loop
        invariant
            i <= cs.len(),
            cs@ == s@,
            pat@ == from@,
            from@.len() > 0,
            out@ + replace_from(s@, from@, to@, i as int) == replace_of(s@, from@, to@),
        decreases cs.len() - i,
    {
        match find_chars(&cs, &pat, i) {
            Some(j) => {
                let ghost o = out@;
                let piece = slice_text(&cs, i, j);
                out.append(piece.as_str());
                out.append(to);
                proof {
                    let rest = replace_from(s@, from@, to@, j + from@.len());
                    assert(out@ + rest =~= o + (s@.subrange(i as int, j as int) + to@ + rest));
                }
                i = j + pat.len();
            },
            None => {
                let piece = slice_text(&cs, i, cs.len());
                out.append(piece.as_str());
                assert(piece@ =~= s@.skip(i as int));
                return out;
            },
        }
    }
}

/// The parts one after another with `sep` between neighbours.
pub fn join(parts: &Vec<String>, sep: &str) -> (out: String)
    ensures
        out@ == join_of(strs(parts@), sep@),
{
    let mut out = String::new();
    let ghost ps = strs(parts@);
    let mut i: usize = 0;
    while i < parts.len()
        invariant
            i <= parts.len(),
            ps == strs(parts@),
            out@ == join_of(ps.take(i as int), sep@),
        decreases parts.len() - i,
    {
        proof {
            assert(ps.take(i + 1).drop_last() =~= ps.take(i as int));
            assert(ps.take(i + 1).last() == parts[i as int]@);
        }
        let ghost o = out@;
        if i > 0 {
            out.append(sep);
        }
        out.append(parts[i].as_str());
        proof {
            if i == 0 {
                assert(out@ =~= parts[0]@);
            }
        }
        i = i + 1;
    }
    assert(ps.take(i as int) =~= ps);
    out
}

// ------------------------------------------------------------------- lists --

/// A copy of a list of texts.
pub fn copy_texts(v: &Vec<String>) -> (out: Vec<String>)
    ensures
        out@ == v@,
{
    let mut out: Vec<String> = Vec::new();
    let mut i: usize = 0;
    while i < v.len()
        invariant
            i <= v.len(),
            out@ == v@.take(i as int),
        decreases v.len() - i,
    {
        out.push(v[i].clone());
        i = i + 1;
    }
    assert(v@.take(i as int) =~= v@);
    out
}

/// Is `t` one of the texts?
pub fn is_among(v: &Vec<String>, t: &str) -> (r: bool)
    ensures
        r == strs(v@).contains(t@),
{
    let mut i: usize = 0;
    while i < v.len()
        invariant
            i <= v.len(),
            forall|k: int| 0 <= k < i ==> #[trigger] v[k]@ != t@,
        decreases v.len() - i,
    {
        if same(v[i].as_str(), t) {
            assert(strs(v@)[i as int] == t@);
            return true;
        }
        i = i + 1;
    }
    assert forall|k: int| 0 <= k < strs(v@).len() implies strs(v@)[k] != t@ by {
        assert(v[k]@ != t@);
    }
    false
}

/// The texts `v[i..j]`.
pub fn slice_texts(v: &Vec<String>, i: usize, j: usize) -> (out: Vec<String>)
    requires
        i <= j <= v.len(),
    ensures
        out@ == v@.subrange(i as int, j as int),
        strs(out@) == strs(v@).subrange(i as int, j as int),
{
    let mut out: Vec<String> = Vec::new();
    let mut k: usize = i;
    while k < j
        invariant
            i <= k <= j <= v.len(),
            out@ == v@.subrange(i as int, k as int),
        decreases j - k,
    {
        out.push(v[k].clone());
        k = k + 1;
    }
    assert(strs(out@) =~= strs(v@).subrange(i as int, j as int));
    out
}

// ------------------------------------------------------------------ padding --

/// `n` spaces.
pub open spec fn spaces(n: int) -> Seq<char> {
    Seq::new(
        if n > 0 {
            n as nat
        } else {
            0
        },
        |i: int| ' ',
    )
}

/// `s` with spaces behind it, to a width of at least `n`.
pub open spec fn pad_end_of(s: Seq<char>, n: int) -> Seq<char> {
    s + spaces(n - s.len())
}

/// `s` with spaces before it, to a width of at least `n`.
pub open spec fn pad_start_of(s: Seq<char>, n: int) -> Seq<char> {
    spaces(n - s.len()) + s
}

fn blanks(n: usize) -> (out: String)
    ensures
        out@ == spaces(n as int),
{
    let mut out = String::new();
    let mut i: usize = 0;
    assert(out@ =~= spaces(n as int).take(0));
    while i < n
        invariant
            i <= n,
            out@ == spaces(n as int).take(i as int),
        decreases n - i,
    {
        let ghost o = out@;
        out.push(' ');
        assert(spaces(n as int).take(i + 1) =~= o.push(' '));
        i = i + 1;
    }
    assert(spaces(n as int).take(n as int) =~= spaces(n as int));
    out
}

/// `s` with spaces behind it, to a width of at least `n`.
pub fn pad_end(s: &str, n: usize) -> (out: String)
    ensures
        out@ == pad_end_of(s@, n as int),
{
    let len = chars_of(s).len();
    let more: usize = if n > len {
        n - len
    } else {
        0
    };
    let b = blanks(more);
    assert(spaces(more as int) =~= spaces(n - s@.len()));
    s.to_string().concat(b.as_str())
}

/// `s` with spaces before it, to a width of at least `n`.
pub fn pad_start(s: &str, n: usize) -> (out: String)
    ensures
        out@ == pad_start_of(s@, n as int),
{
    let len = chars_of(s).len();
    let more: usize = if n > len {
        n - len
    } else {
        0
    };
    let b = blanks(more);
    assert(spaces(more as int) =~= spaces(n - s@.len()));
    b.concat(s)
}

/// What counts as space: a blank, a tab and the ends of lines do, and no other printable ASCII
/// character.
pub proof fn law_what_counts_as_space(c: char)
    ensures
        space(' ') && space('\t') && space('\n') && space('\r'),
        '!' <= c && c <= '~' ==> !space(c),
{
}

proof fn lemma_trim_start_takes(s: Seq<char>) -> (i: int)
    ensures
        0 <= i <= s.len(),
        trim_start_of(s) == s.skip(i),
        forall|k: int| 0 <= k < i ==> space(s[k]),
        i < s.len() ==> !space(s[i]),
    decreases s.len(),
{
    if s.len() > 0 && space(s[0]) {
        let j = lemma_trim_start_takes(s.skip(1));
        assert(s.skip(1).skip(j) =~= s.skip(j + 1));
        assert forall|k: int| 0 <= k < j + 1 implies space(s[k]) by {
            if k > 0 {
                assert(s[k] == s.skip(1)[k - 1]);
            }
        }
        if j + 1 < s.len() {
            assert(s[j + 1] == s.skip(1)[j]);
        }
        j + 1
    } else {
        assert(s.skip(0) =~= s);
        0
    }
}

proof fn lemma_trim_end_takes(s: Seq<char>) -> (j: int)
    ensures
        0 <= j <= s.len(),
        trim_end_of(s) == s.take(j),
        forall|k: int| j <= k < s.len() ==> space(s[k]),
        j > 0 ==> !space(s[j - 1]),
    decreases s.len(),
{
    if s.len() > 0 && space(s.last()) {
        let j = lemma_trim_end_takes(s.drop_last());
        assert(s.drop_last().take(j) =~= s.take(j));
        assert forall|k: int| j <= k < s.len() implies space(s[k]) by {
            if k < s.len() - 1 {
                assert(s[k] == s.drop_last()[k]);
            }
        }
        if j > 0 {
            assert(s[j - 1] == s.drop_last()[j - 1]);
        }
        j
    } else {
        assert(s.take(s.len() as int) =~= s);
        s.len() as int
    }
}

/// Trimming takes space off both ends and nothing else: what is left stands in the text with
/// only space around it, and neither begins nor ends with space.
pub proof fn law_trimming_takes_only_space(s: Seq<char>) -> (r: (int, int))
    ensures
        0 <= r.0 <= r.1 <= s.len(),
        trim_of(s) == s.subrange(r.0, r.1),
        forall|k: int| 0 <= k < r.0 ==> space(s[k]),
        forall|k: int| r.1 <= k < s.len() ==> space(s[k]),
        trim_of(s).len() > 0 ==> !space(trim_of(s)[0]) && !space(trim_of(s).last()),
{
    let i = lemma_trim_start_takes(s);
    let t = s.skip(i);
    let j = lemma_trim_end_takes(t);
    assert(t.take(j) =~= s.subrange(i, i + j));
    assert forall|k: int| i + j <= k < s.len() implies space(s[k]) by {
        assert(s[k] == t[k - i]);
    }
    (i, i + j)
}

/// Trimming a character takes it off the end and nothing else.
pub proof fn law_trimming_a_character_takes_it_off_the_end(s: Seq<char>, c: char) -> (j: int)
    ensures
        0 <= j <= s.len(),
        trim_end_char_of(s, c) == s.take(j),
        forall|k: int| j <= k < s.len() ==> s[k] == c,
        j > 0 ==> s[j - 1] != c,
    decreases s.len(),
{
    if s.len() > 0 && s.last() == c {
        let j = law_trimming_a_character_takes_it_off_the_end(s.drop_last(), c);
        assert(s.drop_last().take(j) =~= s.take(j));
        assert forall|k: int| j <= k < s.len() implies s[k] == c by {
            if k < s.len() - 1 {
                assert(s[k] == s.drop_last()[k]);
            }
        }
        if j > 0 {
            assert(s[j - 1] == s.drop_last()[j - 1]);
        }
        j
    } else {
        assert(s.take(s.len() as int) =~= s);
        s.len() as int
    }
}

/// What was split at a character comes together again with the character between the parts, and
/// no part holds the character.
pub proof fn law_what_was_split_comes_together(s: Seq<char>, c: char)
    ensures
        split_of(s, c).len() > 0,
        join_of(split_of(s, c), seq![c]) == s,
        forall|i: int| 0 <= i < split_of(s, c).len() ==> !(#[trigger] split_of(s, c)[i]).contains(c),
    decreases s.len(),
{
    let parts = split_of(s, c);
    if s.len() > 0 {
        let rest = s.drop_last();
        let x = s.last();
        law_what_was_split_comes_together(rest, c);
        let before = split_of(rest, c);
        assert(s =~= rest.push(x));
        if x == c {
            assert(parts == before.push(Seq::<char>::empty()));
            assert(parts.drop_last() =~= before);
            assert(join_of(parts, seq![c]) =~= rest + seq![c]);
        } else {
            let last = before.last().push(x);
            assert(parts == before.drop_last().push(last));
            assert(parts.drop_last() =~= before.drop_last());
            assert(join_of(parts, seq![c]) =~= rest.push(x));
            assert forall|i: int| 0 <= i < parts.len() implies !(#[trigger] parts[i]).contains(c) by {
                if i == parts.len() - 1 {
                    let old = before.last();
                    assert(before[before.len() - 1] == old);
                    if last.contains(c) {
                        let k = choose|k: int| 0 <= k < last.len() && last[k] == c;
                        assert(k < old.len() && old[k] == c);
                    }
                } else {
                    assert(parts[i] == before[i]);
                }
            }
        }
    }
}

/// A text is parted at the first of a character, or at its last: what stands before, the
/// character, and what stands behind make the text.
pub proof fn law_where_a_text_is_parted(s: Seq<char>, c: char)
    ensures
        split_once_of(s, c) is Some <==> s.contains(c),
        split_once_of(s, c) matches Some(p) ==> s == p.0.push(c) + p.1 && !p.0.contains(c),
        rsplit_once_of(s, c) is Some <==> s.contains(c),
        rsplit_once_of(s, c) matches Some(p) ==> s == p.0.push(c) + p.1 && !p.1.contains(c),
        before_char_of(s, c).is_prefix_of(s),
        !before_char_of(s, c).contains(c),
        !s.contains(c) ==> before_char_of(s, c) == s,
{
    lemma_next(s, c, 0);
    lemma_last(s, c, s.len() as int);
    let i = next_at(s, c, 0);
    let j = last_before(s, c, s.len() as int);
    if i < s.len() {
        assert(s[i] == c);
        assert(s =~= s.take(i).push(c) + s.skip(i + 1));
    } else {
        assert(s.take(i) =~= s);
    }
    if j >= 0 {
        assert(s[j] == c);
        assert(s =~= s.take(j).push(c) + s.skip(j + 1));
        let tail = s.skip(j + 1);
        if tail.contains(c) {
            let k = choose|k: int| 0 <= k < tail.len() && tail[k] == c;
            assert(s[j + 1 + k] == c);
        }
    }
    if s.contains(c) {
        let k = choose|k: int| 0 <= k < s.len() && s[k] == c;
        assert(s[k] == c);
    }
    let head = s.take(i);
    if head.contains(c) {
        let k = choose|k: int| 0 <= k < head.len() && head[k] == c;
        assert(s[k] == c);
    }
}

/// Small letters: each capital ASCII letter becomes its small one, and no other character
/// changes.
pub proof fn law_what_small_letters_change(s: Seq<char>, i: int)
    requires
        0 <= i < s.len(),
    ensures
        lower_of(s).len() == s.len(),
        'A' <= s[i] && s[i] <= 'Z' ==> lower_of(s)[i] as u32 == s[i] as u32 + 32,
        !('A' <= s[i] && s[i] <= 'Z') ==> lower_of(s)[i] == s[i],
        lower_of(lower_of(s)) == lower_of(s),
{
    assert forall|k: int| 0 <= k < s.len() implies lower_char(lower_char(#[trigger] s[k])) == lower_char(
        s[k],
    ) by {}
    assert(lower_of(lower_of(s)) =~= lower_of(s));
}

/// Replacing a character leaves none of it where the replacement has none, works on each part
/// alone, and changes nothing else.
pub proof fn law_what_replacing_a_character_does(s: Seq<char>, c: char, with: Seq<char>)
    ensures
        !with.contains(c) ==> !replace_char_of(s, c, with).contains(c),
        !s.contains(c) ==> replace_char_of(s, c, with) == s,
        replace_char_of(s.push(c), c, with) == replace_char_of(s, c, with) + with,
    decreases s.len(),
{
    assert(s.push(c).drop_last() =~= s);
    if s.len() > 0 {
        let rest = s.drop_last();
        law_what_replacing_a_character_does(rest, c, with);
        let r = replace_char_of(s, c, with);
        let before = replace_char_of(rest, c, with);
        if !with.contains(c) && r.contains(c) {
            let k = choose|k: int| 0 <= k < r.len() && r[k] == c;
            if k < before.len() {
                assert(before[k] == c);
            } else if s.last() == c {
                assert(with[k - before.len()] == c);
            }
        }
        if !s.contains(c) {
            assert forall|k: int| 0 <= k < rest.len() implies rest[k] != c by {
                assert(s[k] == rest[k]);
            }
            assert(s[s.len() - 1] != c);
            assert(r =~= s);
        }
    }
}

/// A padded text is the text with blanks behind it, or before it, up to the width; one that is
/// wide enough stays as it is.
pub proof fn law_how_a_text_is_padded(s: Seq<char>, n: int, k: int)
    ensures
        s.is_prefix_of(pad_end_of(s, n)),
        s.is_suffix_of(pad_start_of(s, n)),
        s.len() <= n ==> pad_end_of(s, n).len() == n && pad_start_of(s, n).len() == n,
        s.len() >= n ==> pad_end_of(s, n) == s && pad_start_of(s, n) == s,
        s.len() <= k < n ==> pad_end_of(s, n)[k] == ' ',
        0 <= k < n - s.len() ==> pad_start_of(s, n)[k] == ' ',
{
    let e = pad_end_of(s, n);
    let b = pad_start_of(s, n);
    assert(e.subrange(0, s.len() as int) =~= s);
    assert(b.subrange(b.len() - s.len(), b.len() as int) =~= s);
    if s.len() >= n {
        assert(e =~= s);
        assert(b =~= s);
    }
}

/// Replacing a text puts the other in the place of its first occurrence and goes on behind it;
/// a text that does not hold it stays as it is.
pub proof fn law_what_replacing_a_text_does(s: Seq<char>, from: Seq<char>, to: Seq<char>)
    requires
        from.len() > 0,
    ensures
        !holds(s, from) ==> replace_of(s, from, to) == s,
        find_from(s, from, 0) matches Some(j) ==> replace_of(s, from, to) == s.take(j) + to
            + replace_from(s, from, to, j + from.len()),
{
    lemma_find(s, from, 0);
    assert(s.skip(0) =~= s);
    if let Some(j) = find_from(s, from, 0) {
        assert(s.subrange(0, j) =~= s.take(j));
    }
}

} // verus!
