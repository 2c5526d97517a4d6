//! HTTP in, mail out: what a request is answered, and the session that hands its message
//! to the mail server.

use vstd::prelude::*;
use vstd::string::*;

use crate::checks::{body_at, find_headers_end, head_bytes, tail_bytes};
use crate::number::{dec, dec_of, dec_wide, digit_at, digit_value, number_of, parse_number};
use crate::text::{after_prefix, chars_of, find_chars, find_from, holds, lemma_assoc, lemma_holds_end, lemma_holds_itself, lemma_holds_longer, lines, lines_of, lossy, lossy_of, lower, lower_of, occurs_at, replace_char, replace_char_of, same, slice_text, space, split, split_of, split_once, split_once_of, starts_with, strip_prefix, strs, trim, trim_end_char, trim_end_char_of, trim_of, trim_start, trim_start_of, words, words_of};

verus! {

// ------------------------------------------------------------------- bodies --

/// What an escaped character stands for.
pub open spec fn unescaped(c: char) -> char {
    if c == 'n' {
        '\n'
    } else if c == 'r' {
        '\r'
    } else if c == 't' {
        '\t'
    } else if c == 'b' {
        '\u{8}'
    } else if c == 'f' {
        '\u{c}'
    } else {
        c
    }
}

/// The number that four hexadecimal digits write at `i`.
pub open spec fn unit_at(s: Seq<char>, i: int) -> Option<int> {
    if 0 <= i && i + 4 <= s.len() && digit_value(s[i]) < 16 && digit_value(s[i + 1]) < 16
        && digit_value(s[i + 2]) < 16 && digit_value(s[i + 3]) < 16 {
        Some(
            digit_value(s[i]) * 4096 + digit_value(s[i + 1]) * 256 + digit_value(s[i + 2]) * 16
                + digit_value(s[i + 3]),
        )
    } else {
        None
    }
}

/// The first half of a character that takes two escapes.
pub open spec fn leads(n: int) -> bool {
    0xd800 <= n < 0xdc00
}

/// The second half of a character that takes two escapes.
pub open spec fn trails(n: int) -> bool {
    0xdc00 <= n < 0xe000
}

/// The half that follows at `i`, where an escape with one stands there.
pub open spec fn trail_at(s: Seq<char>, i: int) -> Option<int> {
    if 0 <= i && i + 1 < s.len() && s[i] == '\\' && s[i + 1] == 'u' {
        match unit_at(s, i + 2) {
            Some(m) => if trails(m) {
                Some(m)
            } else {
                None
            },
            None => None,
        }
    } else {
        None
    }
}

/// What the escape at `i` stands for, and how many characters it takes. A character by its
/// number takes four digits, or two times four in halves. One that is broken (a digit is
/// missing, a half stands alone) stands for its letter, and its digits are plain text.
pub open spec fn escape_at(s: Seq<char>, i: int) -> (char, int) {
    let plain = (unescaped(s[i + 1]), 2);
    if s[i + 1] == 'u' {
        match unit_at(s, i + 2) {
            Some(n) => if !leads(n) && !trails(n) {
                (n as char, 6)
            } else {
                match trail_at(s, i + 6) {
                    Some(m) => if leads(n) {
                        ((0x10000 + (n - 0xd800) * 0x400 + (m - 0xdc00)) as char, 12)
                    } else {
                        plain
                    },
                    None => plain,
                }
            },
            None => plain,
        }
    } else {
        plain
    }
}

/// What is quoted from `i` on, up to the closing quote, where there is one.
pub open spec fn quoted_from(s: Seq<char>, i: int) -> Option<Seq<char>>
    decreases s.len() - i,
{
    if i < 0 || i >= s.len() || s[i] == '\\' && i + 1 >= s.len() {
        None
    } else if s[i] == '"' {
        Some(Seq::empty())
    } else if s[i] == '\\' {
        let (c, n) = escape_at(s, i);
        match quoted_from(s, i + n) {
            Some(t) => Some(seq![c] + t),
            None => None,
        }
    } else {
        match quoted_from(s, i + 1) {
            Some(t) => Some(seq![s[i]] + t),
            None => None,
        }
    }
}

/// What stands behind the first `"key"` and its colon.
pub open spec fn value_at(body: Seq<char>, key: Seq<char>) -> Option<Seq<char>> {
    match find_from(body, "\""@ + key + "\""@, 0) {
        None => None,
        Some(at) => match after_prefix(
            trim_start_of(body.skip(at + key.len() + 2)),
            ":"@,
        ) {
            None => None,
            Some(rest) => Some(trim_start_of(rest)),
        },
    }
}

/// The text under `key`, with its escapes undone.
pub open spec fn text_in(body: Seq<char>, key: Seq<char>) -> Option<Seq<char>> {
    match value_at(body, key) {
        None => None,
        Some(v) => match after_prefix(v, "\""@) {
            None => None,
            Some(rest) => quoted_from(rest, 0),
        },
    }
}

/// The first text of the list under `key`.
pub open spec fn first_in(body: Seq<char>, key: Seq<char>) -> Option<Seq<char>> {
    match value_at(body, key) {
        None => None,
        Some(v) => match after_prefix(v, "["@) {
            None => None,
            Some(inner) => match text_in("\"x\":"@ + trim_start_of(inner), "x"@) {
                Some(t) => Some(t),
                None => text_in("\"x\": "@ + inner, "x"@),
            },
        },
    }
}

/// A text or none, as a plain value.
pub open spec fn opt(r: Option<String>) -> Option<Seq<char>> {
    match r {
        Some(t) => Some(t@),
        None => None,
    }
}

fn value_of(body: &str, key: &str) -> (r: Option<String>)
    ensures
        opt(r) == value_at(body@, key@),
{
    proof {
        reveal_strlit("\"");
    }
    let mark = "\"".to_string().concat(key).concat("\"");
    let h = chars_of(body);
    let n = chars_of(mark.as_str());
    assert(n@ == "\""@ + key@ + "\""@);
    match find_chars(&h, &n, 0) {
        None => None,
        Some(at) => {
            let total = h.len();
            assert(n@.len() == key@.len() + 2);
            let rest = slice_text(&h, at + n.len(), total);
            assert(rest@ =~= body@.skip(at + key@.len() + 2));
            let rest = trim_start(rest.as_str());
            match strip_prefix(rest.as_str(), ":") {
                None => None,
                Some(v) => Some(trim_start(v.as_str())),
            }
        },
    }
}

fn unit(cs: &Vec<char>, i: usize) -> (r: Option<u32>)
    requires
        i <= cs.len(),
    ensures
        (match r {
            Some(n) => Some(n as int),
            None => None,
        }) == unit_at(cs@, i as int),
        r matches Some(n) ==> n <= 0xffff,
{
    if cs.len() - i < 4 {
        return None;
    }
    let a = digit_at(cs[i]) as u32;
    let b = digit_at(cs[i + 1]) as u32;
    let c = digit_at(cs[i + 2]) as u32;
    let d = digit_at(cs[i + 3]) as u32;
    if a < 16 && b < 16 && c < 16 && d < 16 {
        Some(a * 4096 + b * 256 + c * 16 + d)
    } else {
        None
    }
}

fn trail(cs: &Vec<char>, i: usize) -> (r: Option<u32>)
    requires
        i <= cs.len(),
    ensures
        (match r {
            Some(n) => Some(n as int),
            None => None,
        }) == trail_at(cs@, i as int),
        r matches Some(n) ==> trails(n as int),
{
    if cs.len() - i < 2 || cs[i] != '\\' || cs[i + 1] != 'u' {
        return None;
    }
    match unit(cs, i + 2) {
        Some(m) => if 0xdc00 <= m && m < 0xe000 {
            Some(m)
        } else {
            None
        },
        None => None,
    }
}

fn unescape_at(cs: &Vec<char>, i: usize) -> (r: (char, usize))
    requires
        i + 1 < cs.len(),
    ensures
        (r.0, r.1 as int) == escape_at(cs@, i as int),
        2 <= r.1 <= cs.len() - i,
{
    let d = cs[i + 1];
    if d == 'u' {
        if let Some(n) = unit(cs, i + 2) {
            let whole = if n < 0xd800 || n >= 0xe000 {
                Some((n, 6usize))
            } else {
                match trail(cs, i + 6) {
                    Some(m) => if n < 0xdc00 {
                        Some((0x10000 + (n - 0xd800) * 0x400 + (m - 0xdc00), 12usize))
                    } else {
                        None
                    },
                    None => None,
                }
            };
            if let Some((code, took)) = whole {
                if let Some(c) = char::from_u32(code) {
                    return (c, took);
                }
            }
        }
    }
    let e = if d == 'n' {
        '\n'
    } else if d == 'r' {
        '\r'
    } else if d == 't' {
        '\t'
    } else if d == 'b' {
        '\u{8}'
    } else if d == 'f' {
        '\u{c}'
    } else {
        d
    };
    (e, 2)
}

fn unescape(s: &str) -> (r: Option<String>)
    ensures
        opt(r) == quoted_from(s@, 0),
{
    let cs = chars_of(s);
    let n = cs.len();
    let mut out = String::new();
    let mut i: usize = 0;
    assert(out@ =~= Seq::<char>::empty());
    proof {
        if quoted_from(s@, 0) is Some {
            assert(out@ + quoted_from(s@, 0)->0 =~= quoted_from(s@, 0)->0);
        }
    }
    while i < n
        invariant
            i <= n,
            n == cs@.len(),
            cs@ == s@,
            quoted_from(s@, 0) is Some <==> quoted_from(s@, i as int) is Some,
            quoted_from(s@, 0) matches Some(t) ==> t == out@ + quoted_from(s@, i as int)->0,
        decreases n - i,
    {
        let c = cs[i];
        if c == '"' {
            assert(out@ + Seq::<char>::empty() =~= out@);
            return Some(out);
        }
        let (e, took) = if c == '\\' {
            if n - i < 2 {
                return None;
            }
            unescape_at(&cs, i)
        } else {
            (c, 1)
        };
        let ghost o = out@;
        out.push(e);
        proof {
            if quoted_from(s@, i + took) is Some {
                let rest = quoted_from(s@, i + took)->0;
                assert(o + (seq![e] + rest) =~= out@ + rest);
            }
        }
        i = i + took;
    }
    None
}

/// The text under `key`, with its escapes undone.
pub fn json_str(body: &str, key: &str) -> (r: Option<String>)
    ensures
        opt(r) == text_in(body@, key@),
{
    match value_of(body, key) {
        None => None,
        Some(v) => match strip_prefix(v.as_str(), "\"") {
            None => None,
            Some(rest) => unescape(rest.as_str()),
        },
    }
}

/// The first text of the list under `key`.
pub fn json_first_of_array(body: &str, key: &str) -> (r: Option<String>)
    ensures
        opt(r) == first_in(body@, key@),
{
    match value_of(body, key) {
        None => None,
        Some(v) => match strip_prefix(v.as_str(), "[") {
            None => None,
            Some(inner) => {
                let near = "\"x\":".to_string().concat(trim_start(inner.as_str()).as_str());
                match json_str(near.as_str(), "x") {
                    Some(t) => Some(t),
                    None => {
                        let far = "\"x\": ".to_string().concat(inner.as_str());
                        json_str(far.as_str(), "x")
                    },
                }
            },
        },
    }
}

/// A text as it goes between the quotes of an answer: on one line, with its quotes and
/// backslashes escaped.
pub open spec fn esc_of(s: Seq<char>) -> Seq<char> {
    replace_char_of(replace_char_of(replace_char_of(s, '\\', "\\\\"@), '"', "\\\""@), '\n', " "@)
}

/// A text as it goes between the quotes of an answer.
pub fn esc(s: &str) -> (out: String)
    ensures
        out@ == esc_of(s@),
{
    let a = replace_char(s, '\\', "\\\\");
    let b = replace_char(a.as_str(), '"', "\\\"");
    replace_char(b.as_str(), '\n', " ")
}

/// A character as `esc` writes it, but for a line end.
spec fn esc_char(c: char) -> Seq<char> {
    if c == '\\' {
        seq!['\\', '\\']
    } else if c == '"' {
        seq!['\\', '"']
    } else {
        seq![c]
    }
}

proof fn lemma_replace_push(s: Seq<char>, x: char, c: char, with: Seq<char>)
    ensures
        replace_char_of(s.push(x), c, with) == replace_char_of(s, c, with) + (if x == c {
            with
        } else {
            seq![x]
        }),
{
    assert(s.push(x).drop_last() =~= s);
}

/// Two characters behind a text that are not replaced stay as they are.
proof fn lemma_replace_keeps_two(s: Seq<char>, x: char, y: char, c: char, with: Seq<char>)
    requires
        x != c,
        y != c,
    ensures
        replace_char_of(s + seq![x, y], c, with) == replace_char_of(s, c, with) + seq![x, y],
{
    lemma_replace_push(s, x, c, with);
    lemma_replace_push(s.push(x), y, c, with);
    assert(s + seq![x, y] =~= s.push(x).push(y));
    assert(replace_char_of(s, c, with) + seq![x] + seq![y] =~= replace_char_of(s, c, with) + seq![
        x,
        y,
    ]);
}

/// What `esc` makes of the last character of a text.
proof fn lemma_esc_last(s: Seq<char>)
    requires
        s.len() > 0,
        s.last() != '\n',
    ensures
        esc_of(s) == esc_of(s.drop_last()) + esc_char(s.last()),
{
    reveal_strlit("\\\\");
    reveal_strlit("\\\"");
    assert("\\\\"@ =~= seq!['\\', '\\']);
    assert("\\\""@ =~= seq!['\\', '"']);
    let c = s.last();
    let a = replace_char_of(s.drop_last(), '\\', "\\\\"@);
    let b = replace_char_of(a, '"', "\\\""@);
    assert(s.drop_last().push(c) =~= s);
    lemma_replace_push(s.drop_last(), c, '\\', "\\\\"@);
    if c == '\\' {
        lemma_replace_keeps_two(a, '\\', '\\', '"', "\\\""@);
        lemma_replace_keeps_two(b, '\\', '\\', '\n', " "@);
    } else {
        assert(a + seq![c] =~= a.push(c));
        lemma_replace_push(a, c, '"', "\\\""@);
        if c == '"' {
            lemma_replace_keeps_two(b, '\\', '"', '\n', " "@);
        } else {
            assert(b + seq![c] =~= b.push(c));
            lemma_replace_push(b, c, '\n', " "@);
        }
    }
}

/// What `esc` wrote reads back, from any character of the text on.
proof fn lemma_esc_reads_back(s: Seq<char>, tail: Seq<char>, k: int)
    requires
        0 <= k <= s.len(),
        forall|i: int| 0 <= i < s.len() ==> s[i] != '\n',
        tail.len() > 0,
        tail[0] == '"',
    ensures
        esc_of(s.take(k)).is_prefix_of(esc_of(s)),
        quoted_from(esc_of(s) + tail, esc_of(s.take(k)).len() as int) == Some(s.skip(k)),
    decreases s.len() - k,
{
    let w = esc_of(s) + tail;
    let at = esc_of(s.take(k)).len() as int;
    if k == s.len() {
        assert(s.take(k) =~= s);
        assert(s.skip(k) =~= Seq::empty());
        assert(w[at] == tail[0]);
    } else {
        lemma_esc_reads_back(s, tail, k + 1);
        lemma_esc_last(s.take(k + 1));
        assert(s.take(k + 1).drop_last() =~= s.take(k));
        let c = s[k];
        assert(s.take(k + 1).last() == c);
        let e = esc_char(c);
        let p = esc_of(s.take(k + 1));
        assert(p == esc_of(s.take(k)) + e);
        assert(esc_of(s).take(p.len() as int) =~= p);
        assert(esc_of(s.take(k)) =~= esc_of(s).take(at)) by {
            assert(p.take(at) =~= esc_of(s.take(k)));
        }
        assert forall|j: int| 0 <= j < e.len() implies w[at + j] == e[j] by {
            assert(p[at + j] == e[j]);
            assert(esc_of(s)[at + j] == p[at + j]);
        }
        assert(w[at] == e[0]);
        if e.len() == 2 {
            assert(w[at + 1] == e[1]);
        }
        assert(s.skip(k) =~= seq![c] + s.skip(k + 1));
    }
}

/// What `esc` wrote between the quotes under a key reads back: the quotes and the
/// backslashes that it escaped are undone.
pub proof fn law_an_escaped_text_reads_back(key: Seq<char>, s: Seq<char>)
    requires
        forall|i: int| 0 <= i < s.len() ==> s[i] != '\n',
    ensures
        text_in("{\""@ + key + "\": \""@ + esc_of(s) + "\"}"@, key) == Some(s),
{
    reveal_strlit("{\"");
    reveal_strlit("\": \"");
    reveal_strlit("\"}");
    reveal_strlit("\"");
    reveal_strlit(":");
    let body = "{\""@ + key + "\": \""@ + esc_of(s) + "\"}"@;
    let mark = "\""@ + key + "\""@;
    assert(body[0] == '{');
    assert(mark[0] == '"');
    assert(!occurs_at(body, mark, 0)) by {
        if occurs_at(body, mark, 0) {
            assert(body.subrange(0, mark.len() as int)[0] == mark[0]);
        }
    }
    assert(body.subrange(1, 1int + mark.len()) =~= mark);
    assert(occurs_at(body, mark, 1));
    assert(find_from(body, mark, 1) == Some(1int));
    assert(find_from(body, mark, 0) == Some(1int));
    let quoted = "\""@ + esc_of(s) + "\"}"@;
    let behind = body.skip(1int + key.len() + 2);
    assert(behind =~= seq![':', ' '] + quoted);
    assert(!space(':') && space(' ') && !space('"'));
    assert(trim_start_of(behind) == behind);
    let value = behind.skip(1);
    assert(":"@.is_prefix_of(behind)) by {
        assert(behind.take(1) =~= ":"@);
    }
    assert(value[0] == ' ');
    assert(value.skip(1) =~= quoted);
    assert(trim_start_of(quoted) == quoted);
    assert(trim_start_of(value) == quoted);
    assert("\""@.is_prefix_of(quoted)) by {
        assert(quoted.take(1) =~= "\""@);
    }
    assert(quoted.skip(1) =~= esc_of(s) + "\"}"@);
    lemma_esc_reads_back(s, "\"}"@, 0);
    assert(s.take(0) =~= Seq::empty());
    assert(esc_of(s.take(0)).len() == 0);
    assert(s.skip(0) =~= s);
}

// ----------------------------------------------------------------- requests --

/// A message.
#[derive(Debug, PartialEq, Eq)]
pub struct Mail {
    pub from: String,
    pub to: String,
    pub subject: String,
    pub text: String,
}

/// A message as plain values.
pub struct MailView {
    pub from: Seq<char>,
    pub to: Seq<char>,
    pub subject: Seq<char>,
    pub text: Seq<char>,
}

impl View for Mail {
    type V = MailView;

    open spec fn view(&self) -> MailView {
        MailView {
            from: self.from@,
            to: self.to@,
            subject: self.subject@,
            text: self.text@,
        }
    }
}

/// A text, or the next one, or an empty one.
pub open spec fn first_of(a: Option<Seq<char>>, b: Option<Seq<char>>) -> Seq<char> {
    match a {
        Some(t) => t,
        None => match b {
            Some(t) => t,
            None => Seq::empty(),
        },
    }
}

/// The message that a body asks for, where it names both ends. One recipient may be a
/// list of one.
pub open spec fn mail_in(body: Seq<char>) -> Option<MailView> {
    let from = first_of(text_in(body, "from"@), None);
    let to = first_of(first_in(body, "to"@), text_in(body, "to"@));
    if from.len() == 0 || to.len() == 0 {
        None
    } else {
        Some(
            MailView {
                from,
                to,
                subject: first_of(text_in(body, "subject"@), None),
                text: first_of(text_in(body, "text"@), text_in(body, "body"@)),
            },
        )
    }
}

fn pick(a: Option<String>, b: Option<String>) -> (out: String)
    ensures
        out@ == first_of(opt(a), opt(b)),
{
    match a {
        Some(t) => t,
        None => match b {
            Some(t) => t,
            None => {
                let e = String::new();
                assert(e@ =~= Seq::<char>::empty());
                e
            },
        },
    }
}

/// The message that a body asks for.
pub fn read_mail(body: &str) -> (r: Option<Mail>)
    ensures
        (match r {
            Some(m) => Some(m@),
            None => None,
        }) == mail_in(body@),
{
    let from = pick(json_str(body, "from"), None);
    let to = pick(json_first_of_array(body, "to"), json_str(body, "to"));
    if from.as_str().is_empty() || to.as_str().is_empty() {
        return None;
    }
    Some(
        Mail {
            from,
            to,
            subject: pick(json_str(body, "subject"), None),
            text: pick(json_str(body, "text"), json_str(body, "body")),
        },
    )
}

/// The length that a header line gives.
pub open spec fn length_line(line: Seq<char>) -> Option<int> {
    match split_once_of(line, ':') {
        None => None,
        Some((k, v)) => if lower_of(trim_of(k)) == "content-length"@ {
            match number_of(trim_of(v), 10) {
                Some(n) => if n <= usize::MAX {
                    Some(n)
                } else {
                    None
                },
                None => None,
            }
        } else {
            None
        },
    }
}

/// The first length that the lines from `i` on give, or nothing to wait for.
pub open spec fn length_from(ls: Seq<Seq<char>>, i: int) -> int
    decreases ls.len() - i,
{
    if i < 0 || i >= ls.len() {
        0
    } else {
        match length_line(ls[i]) {
            Some(n) => n,
            None => length_from(ls, i + 1),
        }
    }
}

/// The length of the body that a head announces.
pub fn announced(head: &str) -> (n: usize)
    ensures
        n == length_from(lines_of(head@), 0),
{
    let ls = lines(head);
    let ghost all = lines_of(head@);
    let mut i: usize = 0;
    while i < ls.len()
        invariant
            i <= ls.len(),
            strs(ls@) == all,
            all == lines_of(head@),
            length_from(all, i as int) == length_from(all, 0),
        decreases ls.len() - i,
    {
        assert(all[i as int] == ls@[i as int]@);
        match split_once(ls[i].as_str(), ':') {
            Some((k, v)) => {
                let key = lower(trim(k.as_str()).as_str());
                if same(key.as_str(), "content-length") {
                    match parse_number(trim(v.as_str()).as_str(), 10, usize::MAX as u64) {
                        Some(n) => {
                            return n as usize;
                        },
                        None => {},
                    }
                }
            },
            None => {},
        }
        i = i + 1;
    }
    0
}

/// The method of a request.
pub open spec fn method_of(head: Seq<char>) -> Seq<char> {
    if words_of(head).len() > 0 {
        words_of(head)[0]
    } else {
        Seq::empty()
    }
}

fn method(head: &str) -> (out: String)
    ensures
        out@ == method_of(head@),
{
    let ws = words(head);
    assert(strs(ws@).len() == ws@.len());
    if ws.len() > 0 {
        assert(strs(ws@)[0] == ws@[0]@);
        ws[0].clone()
    } else {
        let e = String::new();
        assert(e@ =~= Seq::<char>::empty());
        e
    }
}

/// What to do with what was received.
#[derive(Debug, PartialEq, Eq)]
pub enum Received {
    /// Read on.
    More,
    /// Close without an answer.
    Close,
    /// Answer with a status and a body.
    Answer(u16, String),
    /// Hand a message to the mail server.
    Send(Mail),
}

/// What to do, as plain values.
pub enum ReceivedView {
    More,
    Close,
    Answer(u16, Seq<char>),
    Send(MailView),
}

impl View for Received {
    type V = ReceivedView;

    open spec fn view(&self) -> ReceivedView {
        match *self {
            Received::More => ReceivedView::More,
            Received::Close => ReceivedView::Close,
            Received::Answer(code, body) => ReceivedView::Answer(code, body@),
            Received::Send(m) => ReceivedView::Send(m@),
        }
    }
}

/// What to do once all of a body came.
pub open spec fn taken(body: Seq<u8>) -> ReceivedView {
    match mail_in(lossy_of(body)) {
        Some(m) => ReceivedView::Send(m),
        None => ReceivedView::Answer(422, "{\"error\":\"from and to are required\"}"@),
    }
}

/// What to do with what was received so far, and with a peer that may have stopped
/// sending. A head that does not end is refused past a size; a peer that stops inside one
/// is not answered; one that stops inside a body has said what it had to say.
pub open spec fn received(buf: Seq<u8>, ended: bool, smtp: Seq<char>) -> ReceivedView {
    match body_at(buf) {
        None => if ended {
            ReceivedView::Close
        } else if buf.len() > 0x10_0000 {
            ReceivedView::Answer(431, "{\"error\":\"header too large\"}"@)
        } else {
            ReceivedView::More
        },
        Some(at) => {
            let head = lossy_of(buf.take(at));
            if method_of(head) == "GET"@ {
                ReceivedView::Answer(200, "{\"relay\":\"mail\",\"smtp\":\""@ + smtp + "\"}"@)
            } else if !ended && buf.len() - at < length_from(lines_of(head), 0) {
                ReceivedView::More
            } else {
                taken(buf.skip(at))
            }
        },
    }
}

/// What to do with what was received so far.
pub fn receive(buf: &Vec<u8>, ended: bool, smtp: &str) -> (r: Received)
    ensures
        r@ == received(buf@, ended, smtp@),
{
    match find_headers_end(buf.as_slice()) {
        None => if ended {
            Received::Close
        } else if buf.len() > 0x10_0000 {
            Received::Answer(431, "{\"error\":\"header too large\"}".to_string())
        } else {
            Received::More
        },
        Some(at) => {
            let top = head_bytes(buf, at);
            let head = lossy(top.as_slice());
            if same(method(head.as_str()).as_str(), "GET") {
                let body = "{\"relay\":\"mail\",\"smtp\":\"".to_string().concat(smtp).concat("\"}");
                return Received::Answer(200, body);
            }
            if !ended && buf.len() - at < announced(head.as_str()) {
                return Received::More;
            }
            let rest = tail_bytes(buf, at);
            match read_mail(lossy(rest.as_slice()).as_str()) {
                Some(m) => Received::Send(m),
                None => Received::Answer(
                    422,
                    "{\"error\":\"from and to are required\"}".to_string(),
                ),
            }
        },
    }
}

/// A request is taken only with a sender and a recipient.
pub proof fn law_a_message_has_both_ends(buf: Seq<u8>, ended: bool, smtp: Seq<char>)
    ensures
        received(buf, ended, smtp) matches ReceivedView::Send(m) ==> m.from.len() > 0
            && m.to.len() > 0,
{
}

/// An answer as it is sent.
pub open spec fn reply_of(code: u16, body: Seq<char>) -> Seq<char> {
    "HTTP/1.1 "@ + dec_of(code as nat) + " "@ + (if code < 300 {
        "OK"@
    } else {
        "Error"@
    }) + "\r\ncontent-type: application/json\r\ncontent-length: "@ + dec_of(
        vstd::utf8::encode_utf8(body).len(),
    ) + "\r\nconnection: close\r\n\r\n"@ + body
}

/// An answer as it is sent. The length counts bytes.
pub fn reply(code: u16, body: &str) -> (out: String)
    ensures
        out@ == reply_of(code, body@),
{
    let n = body.as_bytes().len();
    let word = if code < 300 {
        "OK"
    } else {
        "Error"
    };
    "HTTP/1.1 ".to_string().concat(dec(code as u64).as_str()).concat(" ").concat(word).concat(
        "\r\ncontent-type: application/json\r\ncontent-length: ",
    ).concat(dec(n as u64).as_str()).concat("\r\nconnection: close\r\n\r\n").concat(body)
}

/// The id that a message carries and its sender is told: the process and the moment.
pub fn message_id(pid: u32, nanos: u128) -> (out: String)
    ensures
        out@ == dec_of(pid as nat) + "."@ + dec_of(nanos as nat) + "@relay.local"@,
{
    dec(pid as u64).concat(".").concat(dec_wide(nanos).as_str()).concat("@relay.local")
}

/// What is answered once the mail server was spoken to. A failure is the server's, so a
/// retry may help.
pub open spec fn outcome_of(failed: Option<Seq<char>>, id: Seq<char>) -> (u16, Seq<char>) {
    match failed {
        Some(e) => (502, "{\"error\":\"smtp: "@ + esc_of(e) + "\"}"@),
        None => (201, "{\"id\":\""@ + id + "\"}"@),
    }
}

/// What is answered once the mail server was spoken to.
pub fn outcome(failed: Option<&String>, id: &str) -> (r: (u16, String))
    ensures
        (r.0, r.1@) == outcome_of(
            match failed {
                Some(e) => Some(e@),
                None => None,
            },
            id@,
        ),
{
    match failed {
        Some(e) => (
            502,
            "{\"error\":\"smtp: ".to_string().concat(esc(e.as_str()).as_str()).concat("\"}"),
        ),
        None => (201, "{\"id\":\"".to_string().concat(id).concat("\"}")),
    }
}

// ------------------------------------------------------------------ session --

/// A line of a message as it is sent: a leading dot is doubled, for a lone dot ends the
/// message.
pub open spec fn stuffed(line: Seq<char>) -> Seq<char> {
    let l = trim_end_char_of(line, '\r');
    if "."@.is_prefix_of(l) {
        "."@ + l
    } else {
        l
    }
}

/// The lines of a message as they are sent.
pub open spec fn stuffed_lines(ls: Seq<Seq<char>>) -> Seq<char>
    decreases ls.len(),
{
    if ls.len() == 0 {
        Seq::empty()
    } else {
        stuffed_lines(ls.drop_last()) + stuffed(ls.last()) + "\r\n"@
    }
}

/// A message as it is sent: its headers, its text, and the dot that ends it.
pub open spec fn data_of(m: MailView, id: Seq<char>) -> Seq<char> {
    "From: "@ + m.from + "\r\nTo: "@ + m.to + "\r\nSubject: "@ + m.subject + "\r\nMessage-ID: <"@
        + id + ">\r\nContent-Type: text/plain; charset=utf-8\r\n\r\n"@ + stuffed_lines(
        split_of(m.text, '\n'),
    ) + ".\r\n"@
}

/// A message as it is sent.
pub fn data(m: &Mail, id: &str) -> (out: String)
    ensures
        out@ == data_of(m@, id@),
{
    let ls = split(m.text.as_str(), '\n');
    let ghost all = split_of(m.text@, '\n');
    let mut body = String::new();
    let mut i: usize = 0;
    assert(all.take(0) =~= Seq::empty());
    assert(body@ =~= stuffed_lines(all.take(0)));
    while i < ls.len()
        invariant
            i <= ls.len(),
            strs(ls@) == all,
            body@ == stuffed_lines(all.take(i as int)),
        decreases ls.len() - i,
    {
        assert(all.take(i + 1).drop_last() =~= all.take(i as int));
        assert(all.take(i + 1).last() == ls@[i as int]@);
        let line = trim_end_char(ls[i].as_str(), '\r');
        if starts_with(line.as_str(), ".") {
            body = body.concat(".").concat(line.as_str()).concat("\r\n");
        } else {
            body = body.concat(line.as_str()).concat("\r\n");
        }
        assert(body@ =~= stuffed_lines(all.take(i + 1)));
        i = i + 1;
    }
    assert(all.take(i as int) =~= all);
    "From: ".to_string().concat(m.from.as_str()).concat("\r\nTo: ").concat(m.to.as_str()).concat(
        "\r\nSubject: ",
    ).concat(m.subject.as_str()).concat("\r\nMessage-ID: <").concat(id).concat(
        ">\r\nContent-Type: text/plain; charset=utf-8\r\n\r\n",
    ).concat(body.as_str()).concat(".\r\n")
}

/// What a line of a message was before its dot was doubled.
pub open spec fn unstuffed(line: Seq<char>) -> Seq<char> {
    if "."@.is_prefix_of(line) {
        line.skip(1)
    } else {
        line
    }
}

/// No line of a message ends it, and the server reads every line back as it was, but for
/// the carriage returns behind it.
pub proof fn law_no_line_ends_the_message(line: Seq<char>)
    ensures
        stuffed(line) != "."@,
        unstuffed(stuffed(line)) == trim_end_char_of(line, '\r'),
{
    reveal_strlit(".");
    let l = trim_end_char_of(line, '\r');
    if "."@.is_prefix_of(l) {
        assert(("."@ + l).subrange(0, 1) =~= "."@);
        assert("."@.is_prefix_of(stuffed(line)));
        assert(stuffed(line).skip(1) =~= l);
        assert(stuffed(line).len() >= 2);
    } else {
        if l == "."@ {
            assert(l.subrange(0, 1) =~= "."@);
        }
    }
}

/// How far a session came.
#[derive(Debug, PartialEq, Eq)]
pub enum Talk {
    /// The answer to this step is awaited.
    Waiting(u8),
    /// The server took the message.
    Delivered,
    /// It did not, and this is why.
    Refused(String),
}

/// How far a session came, as plain values.
pub enum TalkView {
    Waiting(u8),
    Delivered,
    Refused(Seq<char>),
}

impl View for Talk {
    type V = TalkView;

    open spec fn view(&self) -> TalkView {
        match *self {
            Talk::Waiting(step) => TalkView::Waiting(step),
            Talk::Delivered => TalkView::Delivered,
            Talk::Refused(why) => TalkView::Refused(why@),
        }
    }
}

/// The name of a step.
pub open spec fn step_name(step: u8) -> Seq<char> {
    if step == 0 {
        "greeting"@
    } else if step == 1 {
        "EHLO"@
    } else if step == 2 {
        "MAIL FROM"@
    } else if step == 3 {
        "RCPT TO"@
    } else if step == 4 {
        "DATA"@
    } else {
        "end of DATA"@
    }
}

/// The name of a step.
pub fn name_of_step(step: u8) -> (out: &'static str)
    ensures
        out@ == step_name(step),
{
    if step == 0 {
        "greeting"
    } else if step == 1 {
        "EHLO"
    } else if step == 2 {
        "MAIL FROM"
    } else if step == 3 {
        "RCPT TO"
    } else if step == 4 {
        "DATA"
    } else {
        "end of DATA"
    }
}

/// What is sent before the answer to a step is awaited.
pub open spec fn said_of(m: MailView, id: Seq<char>, step: u8) -> Seq<char> {
    if step == 0 {
        ""@
    } else if step == 1 {
        "EHLO holon\r\n"@
    } else if step == 2 {
        "MAIL FROM:<"@ + m.from + ">\r\n"@
    } else if step == 3 {
        "RCPT TO:<"@ + m.to + ">\r\n"@
    } else if step == 4 {
        "DATA\r\n"@
    } else {
        data_of(m, id)
    }
}

/// What is sent before the answer to a step is awaited.
pub fn say(m: &Mail, id: &str, step: u8) -> (out: String)
    ensures
        out@ == said_of(m@, id@, step),
{
    if step == 0 {
        "".to_string()
    } else if step == 1 {
        "EHLO holon\r\n".to_string()
    } else if step == 2 {
        "MAIL FROM:<".to_string().concat(m.from.as_str()).concat(">\r\n")
    } else if step == 3 {
        "RCPT TO:<".to_string().concat(m.to.as_str()).concat(">\r\n")
    } else if step == 4 {
        "DATA\r\n".to_string()
    } else {
        data(m, id)
    }
}

/// More lines of the same answer follow.
pub open spec fn continued(line: Seq<char>) -> bool {
    let b = vstd::utf8::encode_utf8(line);
    b.len() > 3 && b[3] == 45
}

/// An answer that goes on: it begins with a two or a three.
pub open spec fn accepted(line: Seq<char>) -> bool {
    let b = vstd::utf8::encode_utf8(line);
    b.len() > 0 && (b[0] == 50 || b[0] == 51)
}

/// The session after one more line, which is empty where the server closed.
pub open spec fn heard(t: TalkView, line: Seq<char>) -> TalkView {
    match t {
        TalkView::Waiting(step) => if line.len() == 0 {
            TalkView::Refused(step_name(step) + ": connection closed"@)
        } else if continued(line) {
            t
        } else if !accepted(line) {
            TalkView::Refused(step_name(step) + ": "@ + trim_of(line))
        } else if step >= 5 {
            TalkView::Delivered
        } else {
            TalkView::Waiting((step + 1) as u8)
        },
        _ => t,
    }
}

/// The session after one more line.
pub fn hear(t: Talk, line: &str) -> (r: Talk)
    ensures
        r@ == heard(t@, line@),
{
    match t {
        Talk::Waiting(step) => {
            let name = name_of_step(step);
            if line.is_empty() {
                return Talk::Refused(name.to_string().concat(": connection closed"));
            }
            let b = line.as_bytes();
            if b.len() > 3 && b[3] == 45 {
                return Talk::Waiting(step);
            }
            if !(b.len() > 0 && (b[0] == 50 || b[0] == 51)) {
                return Talk::Refused(name.to_string().concat(": ").concat(trim(line).as_str()));
            }
            if step >= 5 {
                Talk::Delivered
            } else {
                Talk::Waiting(step + 1)
            }
        },
        Talk::Delivered => Talk::Delivered,
        Talk::Refused(why) => Talk::Refused(why),
    }
}

/// The session after some lines.
pub open spec fn talk_of(ls: Seq<Seq<char>>) -> TalkView
    decreases ls.len(),
{
    if ls.len() == 0 {
        TalkView::Waiting(0)
    } else {
        heard(talk_of(ls.drop_last()), ls.last())
    }
}

/// The lines that end an answer.
pub open spec fn answers(ls: Seq<Seq<char>>) -> Seq<Seq<char>> {
    ls.filter(|l: Seq<char>| !continued(l))
}

/// A message counts as delivered only where the server accepted every step of the
/// session, from its greeting to the end of the message.
pub proof fn law_delivered_is_accepted_throughout(ls: Seq<Seq<char>>)
    ensures
        talk_of(ls) is Delivered ==> answers(ls).len() >= 6 && forall|i: int|
            0 <= i < 6 ==> accepted(#[trigger] answers(ls)[i]),
        talk_of(ls) matches TalkView::Waiting(step) ==> step <= 5 && answers(ls).len() == step
            && forall|i: int| 0 <= i < step ==> accepted(#[trigger] answers(ls)[i]),
    decreases ls.len(),
{
    reveal(Seq::filter);
    if ls.len() > 0 {
        let shorter = ls.drop_last();
        law_delivered_is_accepted_throughout(shorter);
        let more = answers(ls);
        assert(more == if continued(ls.last()) {
            answers(shorter)
        } else {
            answers(shorter).push(ls.last())
        });
    }
}

// --------------------------------------------------------------------- laws --

/// A message is read exactly where it names a sender and a receiver: the sender under `from`,
/// the receiver the first under `to` or the text there, the subject under `subject`, and the
/// words under `text`, or under `body` where there are none.
pub proof fn law_where_a_message_stands(body: Seq<char>)
    ensures
        mail_in(body) is Some ==> text_in(body, "from"@) == Some(mail_in(body)->0.from),
        mail_in(body) is Some && first_in(body, "to"@) is Some ==> mail_in(body)->0.to == first_in(
            body,
            "to"@,
        )->0,
        mail_in(body) is Some && first_in(body, "to"@) is None ==> text_in(body, "to"@) == Some(
            mail_in(body)->0.to,
        ),
        mail_in(body) is Some && text_in(body, "subject"@) is Some ==> mail_in(body)->0.subject
            == text_in(body, "subject"@)->0,
        mail_in(body) is Some && text_in(body, "subject"@) is None ==> mail_in(body)->0.subject.len()
            == 0,
        mail_in(body) is Some && text_in(body, "text"@) is Some ==> mail_in(body)->0.text == text_in(
            body,
            "text"@,
        )->0,
        mail_in(body) is Some && text_in(body, "text"@) is None && text_in(body, "body"@) is Some
            ==> mail_in(body)->0.text == text_in(body, "body"@)->0,
        mail_in(body) is None <==> (text_in(body, "from"@) is None || text_in(body, "from"@)->0.len()
            == 0) || (first_in(body, "to"@) is Some && first_in(body, "to"@)->0.len() == 0) || (
        first_in(body, "to"@) is None && (text_in(body, "to"@) is None || text_in(
            body,
            "to"@,
        )->0.len() == 0)),
{
}

/// Each side of a message is announced to the server in its own step: the sender as the
/// sender, the receiver as the receiver.
pub proof fn law_each_side_is_announced_as_itself(m: MailView, id: Seq<char>)
    ensures
        said_of(m, id, 2) == "MAIL FROM:<"@ + m.from + ">\r\n"@,
        said_of(m, id, 3) == "RCPT TO:<"@ + m.to + ">\r\n"@,
        said_of(m, id, 5) == data_of(m, id),
{
}

/// How a talk with a server goes on: a closed connection and a refusal end it, a line that is
/// continued changes nothing, and every other answer takes it one step on, until it is
/// delivered.
pub proof fn law_how_a_talk_goes_on(step: u8, line: Seq<char>)
    requires
        step <= 5,
    ensures
        ({
            let t = heard(TalkView::Waiting(step), line);
            let goes_on = line.len() > 0 && !continued(line) && accepted(line);
            &&& t is Delivered <==> goes_on && step == 5
            &&& goes_on && step < 5 ==> t == TalkView::Waiting((step + 1) as u8)
            &&& line.len() > 0 && continued(line) ==> t == TalkView::Waiting(step)
            &&& t is Refused <==> line.len() == 0 || (!continued(line) && !accepted(line))
        }),
        heard(TalkView::Delivered, line) is Delivered,
{
}

/// What is answered to a caller: a message that was handed on is answered by its identity,
/// one that was not by what the server said.
pub proof fn law_what_a_caller_is_answered(failed: Option<Seq<char>>, id: Seq<char>)
    ensures
        failed is None ==> outcome_of(failed, id) == (201u16, "{\"id\":\""@ + id + "\"}"@),
        failed is Some ==> outcome_of(failed, id).0 == 502 && outcome_of(failed, id).1
            == "{\"error\":\"smtp: "@ + esc_of(failed->0) + "\"}"@,
{
}

/// A request is taken once all of it came: a look gets what the relay is, a header that never
/// ends is refused, and a message is handed on only from what stands behind the header.
pub proof fn law_when_a_request_is_taken(buf: Seq<u8>, ended: bool, smtp: Seq<char>)
    ensures
        body_at(buf) is None && ended ==> received(buf, ended, smtp) is Close,
        body_at(buf) is None && !ended ==> (received(buf, ended, smtp) is More <==> buf.len()
            <= 0x10_0000),
        body_at(buf) is Some && method_of(lossy_of(buf.take(body_at(buf)->0))) != "GET"@ ==> (
        received(buf, ended, smtp) is More <==> !ended && buf.len() - body_at(buf)->0 < length_from(
            lines_of(lossy_of(buf.take(body_at(buf)->0))),
            0,
        )),
        received(buf, ended, smtp) is Send ==> mail_in(lossy_of(buf.skip(body_at(buf)->0))) == Some(
            received(buf, ended, smtp)->Send_0,
        ),
{
}

/// What is sent of a message names the sender, the receiver, the subject and the identity, each
/// in its own header.
pub proof fn law_a_message_is_sent_as_it_was_read(m: MailView, id: Seq<char>)
    ensures
        holds(data_of(m, id), "From: "@ + m.from + "\r\nTo: "@),
        holds(data_of(m, id), "\r\nTo: "@ + m.to + "\r\nSubject: "@),
        holds(data_of(m, id), "\r\nSubject: "@ + m.subject + "\r\nMessage-ID: <"@),
        holds(data_of(m, id), "\r\nMessage-ID: <"@ + id + ">\r\nContent-Type: text/plain; charset=utf-8\r\n\r\n"@),
        holds(data_of(m, id), ">\r\nContent-Type: text/plain; charset=utf-8\r\n\r\n"@ + stuffed_lines(split_of(m.text, '\n')) + ".\r\n"@),
{
    let c0 = "From: "@;
    let c1 = m.from;
    let c2 = "\r\nTo: "@;
    let c3 = m.to;
    let c4 = "\r\nSubject: "@;
    let c5 = m.subject;
    let c6 = "\r\nMessage-ID: <"@;
    let c7 = id;
    let c8 = ">\r\nContent-Type: text/plain; charset=utf-8\r\n\r\n"@;
    let c9 = stuffed_lines(split_of(m.text, '\n'));
    let c10 = ".\r\n"@;
    let s0 = c0;
    let s1 = s0 + c1;
    let s2 = s1 + c2;
    let s3 = s2 + c3;
    let s4 = s3 + c4;
    let s5 = s4 + c5;
    let s6 = s5 + c6;
    let s7 = s6 + c7;
    let s8 = s7 + c8;
    let s9 = s8 + c9;
    let s10 = s9 + c10;
    lemma_holds_itself(s2);
    lemma_holds_longer(s2, s2, c3);
    lemma_holds_longer(s3, s2, c4);
    lemma_holds_longer(s4, s2, c5);
    lemma_holds_longer(s5, s2, c6);
    lemma_holds_longer(s6, s2, c7);
    lemma_holds_longer(s7, s2, c8);
    lemma_holds_longer(s8, s2, c9);
    lemma_holds_longer(s9, s2, c10);
    lemma_assoc(s1, c2, c3);
    lemma_assoc(s1, c2 + c3, c4);
    lemma_holds_end(s1, c2 + c3 + c4);
    lemma_holds_longer(s4, c2 + c3 + c4, c5);
    lemma_holds_longer(s5, c2 + c3 + c4, c6);
    lemma_holds_longer(s6, c2 + c3 + c4, c7);
    lemma_holds_longer(s7, c2 + c3 + c4, c8);
    lemma_holds_longer(s8, c2 + c3 + c4, c9);
    lemma_holds_longer(s9, c2 + c3 + c4, c10);
    lemma_assoc(s3, c4, c5);
    lemma_assoc(s3, c4 + c5, c6);
    lemma_holds_end(s3, c4 + c5 + c6);
    lemma_holds_longer(s6, c4 + c5 + c6, c7);
    lemma_holds_longer(s7, c4 + c5 + c6, c8);
    lemma_holds_longer(s8, c4 + c5 + c6, c9);
    lemma_holds_longer(s9, c4 + c5 + c6, c10);
    lemma_assoc(s5, c6, c7);
    lemma_assoc(s5, c6 + c7, c8);
    lemma_holds_end(s5, c6 + c7 + c8);
    lemma_holds_longer(s8, c6 + c7 + c8, c9);
    lemma_holds_longer(s9, c6 + c7 + c8, c10);
    lemma_assoc(s7, c8, c9);
    lemma_assoc(s7, c8 + c9, c10);
    lemma_holds_end(s7, c8 + c9 + c10);
}

/// A reply tells its status and as many bytes as its body has, and then the body.
pub proof fn law_a_reply_announces_its_length(code: u16, body: Seq<char>)
    ensures
        holds(reply_of(code, body), "HTTP/1.1 "@ + dec_of(code as nat) + " "@),
        holds(reply_of(code, body), "\r\ncontent-type: application/json\r\ncontent-length: "@ + dec_of(vstd::utf8::encode_utf8(body).len()) + "\r\nconnection: close\r\n\r\n"@ + body),
{
    let c0 = "HTTP/1.1 "@;
    let c1 = dec_of(code as nat);
    let c2 = " "@;
    let c3 = (if code < 300 {
        "OK"@
    } else {
        "Error"@
    });
    let c4 = "\r\ncontent-type: application/json\r\ncontent-length: "@;
    let c5 = dec_of(vstd::utf8::encode_utf8(body).len());
    let c6 = "\r\nconnection: close\r\n\r\n"@;
    let c7 = body;
    let s0 = c0;
    let s1 = s0 + c1;
    let s2 = s1 + c2;
    let s3 = s2 + c3;
    let s4 = s3 + c4;
    let s5 = s4 + c5;
    let s6 = s5 + c6;
    let s7 = s6 + c7;
    lemma_holds_itself(s2);
    lemma_holds_longer(s2, s2, c3);
    lemma_holds_longer(s3, s2, c4);
    lemma_holds_longer(s4, s2, c5);
    lemma_holds_longer(s5, s2, c6);
    lemma_holds_longer(s6, s2, c7);
    lemma_assoc(s3, c4, c5);
    lemma_assoc(s3, c4 + c5, c6);
    lemma_assoc(s3, c4 + c5 + c6, c7);
    lemma_holds_end(s3, c4 + c5 + c6 + c7);
}

/// The length that a header announces is the first that can be read, and none is nothing.
pub proof fn law_the_first_length_counts(ls: Seq<Seq<char>>, i: int)
    requires
        0 <= i <= ls.len(),
    ensures
        i == ls.len() ==> length_from(ls, i) == 0,
        i < ls.len() && length_line(ls[i]) is Some ==> length_from(ls, i) == length_line(ls[i])->0,
        i < ls.len() && length_line(ls[i]) is None ==> length_from(ls, i) == length_from(ls, i + 1),
        forall|l: Seq<char>|
            (#[trigger] length_line(l)) matches Some(n) ==> split_once_of(l, ':') is Some && lower_of(
                trim_of(split_once_of(l, ':')->Some_0.0),
            ) == "content-length"@ && number_of(trim_of(split_once_of(l, ':')->Some_0.1), 10) == Some(
                n,
            ),
{
}

/// Each step of a talk has a name of its own, which a refusal tells.
pub proof fn law_a_refusal_names_its_step(step: u8, line: Seq<char>)
    requires
        step <= 5,
    ensures
        line.len() == 0 ==> heard(TalkView::Waiting(step), line) == TalkView::Refused(
            step_name(step) + ": connection closed"@,
        ),
        line.len() > 0 && !continued(line) && !accepted(line) ==> heard(TalkView::Waiting(step), line)
            == TalkView::Refused(step_name(step) + ": "@ + trim_of(line)),
        step_name(0) == "greeting"@,
        step_name(1) == "EHLO"@,
        step_name(2) == "MAIL FROM"@,
        step_name(3) == "RCPT TO"@,
        step_name(4) == "DATA"@,
        step_name(5) == "end of DATA"@,
{
}

/// What an escape stands for: a line's end, a return and a tab for their letters, any other
/// character for itself; and a code for its character.
pub proof fn law_what_an_escape_stands_for(s: Seq<char>, i: int)
    requires
        0 <= i,
        i + 1 < s.len(),
        s[i] == '\\',
    ensures
        s[i + 1] == 'n' ==> escape_at(s, i) == ('\n', 2int),
        s[i + 1] == 'r' ==> escape_at(s, i) == ('\r', 2int),
        s[i + 1] == 't' ==> escape_at(s, i) == ('\t', 2int),
        s[i + 1] == '"' || s[i + 1] == '\\' || s[i + 1] == '/' ==> escape_at(s, i) == (s[i + 1], 2int),
        s[i + 1] == 'u' && unit_at(s, i + 2) is Some && !(0xd800 <= unit_at(s, i + 2)->0 < 0xe000)
            ==> escape_at(s, i) == (unit_at(s, i + 2)->0 as char, 6int),
{
}

/// A mail is seen by who sends it, who gets it, its subject and its text; what was received and
/// how a talk stands with all that they hold.
pub proof fn law_a_mail_is_seen_whole(m: Mail, r: Received, t: Talk)
    ensures
        m@.from == m.from@,
        m@.to == m.to@,
        m@.subject == m.subject@,
        m@.text == m.text@,
        r is More <==> r@ is More,
        r is Close <==> r@ is Close,
        r matches Received::Answer(code, body) ==> r@ == ReceivedView::Answer(code, body@),
        r matches Received::Send(x) ==> r@ == ReceivedView::Send(x@),
        t matches Talk::Waiting(step) ==> t@ == TalkView::Waiting(step),
        t is Delivered <==> t@ is Delivered,
        t matches Talk::Refused(why) ==> t@ == TalkView::Refused(why@),
{
}

/// A character beyond the first plane is read from its two halves, the first of which leads; a
/// half that stands alone stands for its letter.
pub proof fn law_a_character_in_two_halves(s: Seq<char>, i: int)
    requires
        0 <= i,
        i + 1 < s.len(),
        s[i + 1] == 'u',
        unit_at(s, i + 2) is Some,
    ensures
        ({
            let n = unit_at(s, i + 2)->Some_0;
            let m = trail_at(s, i + 6);
            &&& 0xdc00 <= n < 0xe000 ==> escape_at(s, i) == ('u', 2int)
            &&& 0xd800 <= n < 0xdc00 && m is None ==> escape_at(s, i) == ('u', 2int)
            &&& 0xd800 <= n < 0xdc00 && m is Some ==> escape_at(s, i) == (
                (0x10000 + (n - 0xd800) * 0x400 + (m->Some_0 - 0xdc00)) as char,
                12int,
            )
            &&& m is Some ==> 0xdc00 <= m->Some_0 < 0xe000
        }),
{
}

} // verus!
