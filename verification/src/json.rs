//! JSON documents: the tree, what stands where in it, and the text of a string.

use vstd::prelude::*;

use crate::number::{dec_of, digit_char};
use crate::text::{same, strs};

verus! {

/// A JSON document. A number that is no integer of 64 bits is held as its text.
#[derive(Debug, PartialEq, Eq)]
pub enum Json {
    Null,
    Bool(bool),
    Unsigned(u64),
    Negative(i64),
    Float(String),
    Text(String),
    List(Vec<Json>),
    Object(Vec<(String, Json)>),
}

/// What a JSON document says.
pub enum Tree {
    Null,
    Bool(bool),
    Unsigned(u64),
    Negative(i64),
    Float(Seq<char>),
    Text(Seq<char>),
    List(Seq<Tree>),
    Object(Seq<(Seq<char>, Tree)>),
}

/// What `j` says.
pub open spec fn tree_of(j: Json) -> Tree
    decreases j,
{
    match j {
        Json::Null => Tree::Null,
        Json::Bool(b) => Tree::Bool(b),
        Json::Unsigned(n) => Tree::Unsigned(n),
        Json::Negative(n) => Tree::Negative(n),
        Json::Float(s) => Tree::Float(s@),
        Json::Text(s) => Tree::Text(s@),
        Json::List(v) => Tree::List(
            Seq::new(
                v@.len(),
                |i: int|
                    if 0 <= i < v@.len() {
                        tree_of(v@[i])
                    } else {
                        Tree::Null
                    },
            ),
        ),
        Json::Object(v) => Tree::Object(
            Seq::new(
                v@.len(),
                |i: int|
                    if 0 <= i < v@.len() {
                        (v@[i].0@, tree_of(v@[i].1))
                    } else {
                        (Seq::empty(), Tree::Null)
                    },
            ),
        ),
    }
}

impl View for Json {
    type V = Tree;

    open spec fn view(&self) -> Tree {
        tree_of(*self)
    }
}

/// The first entry of `es` under `key`, looked for from `i` on.
pub open spec fn entry_from(es: Seq<(Seq<char>, Tree)>, key: Seq<char>, i: int) -> Option<Tree>
    decreases es.len() - i,
{
    if i < 0 || i >= es.len() {
        None
    } else if es[i].0 == key {
        Some(es[i].1)
    } else {
        entry_from(es, key, i + 1)
    }
}

/// The first entry under a key is the one that is found.
pub proof fn lemma_entry_at(es: Seq<(Seq<char>, Tree)>, from: int, i: int)
    requires
        0 <= from <= i < es.len(),
        forall|j: int| from <= j < i ==> (#[trigger] es[j]).0 != es[i].0,
    ensures
        entry_from(es, es[i].0, from) == Some(es[i].1),
    decreases i - from,
{
    if from < i {
        assert(es[from].0 != es[i].0);
        lemma_entry_at(es, from + 1, i);
    }
}

impl Tree {
    /// What stands under `key`.
    pub open spec fn field(self, key: Seq<char>) -> Option<Tree> {
        match self {
            Tree::Object(es) => entry_from(es, key, 0),
            _ => None,
        }
    }

    /// The text, where this is one.
    pub open spec fn text(self) -> Option<Seq<char>> {
        match self {
            Tree::Text(s) => Some(s),
            _ => None,
        }
    }

    /// The text under `key`.
    pub open spec fn text_field(self, key: Seq<char>) -> Option<Seq<char>> {
        match self.field(key) {
            Some(t) => t.text(),
            None => None,
        }
    }

    /// The list, where this is one.
    pub open spec fn list(self) -> Option<Seq<Tree>> {
        match self {
            Tree::List(v) => Some(v),
            _ => None,
        }
    }

    /// The items, where this is a list; none where it is not.
    pub open spec fn items(self) -> Seq<Tree> {
        match self {
            Tree::List(v) => v,
            _ => Seq::empty(),
        }
    }

    /// The unsigned number, where this is one.
    pub open spec fn number(self) -> Option<u64> {
        match self {
            Tree::Unsigned(n) => Some(n),
            _ => None,
        }
    }

    /// The truth value, where this is one.
    pub open spec fn truth(self) -> Option<bool> {
        match self {
            Tree::Bool(b) => Some(b),
            _ => None,
        }
    }
}

impl Json {
    /// What stands under `key`.
    pub fn field(&self, key: &str) -> (r: Option<&Json>)
        ensures
            r is Some <==> self@.field(key@) is Some,
            r matches Some(j) ==> self@.field(key@) == Some(j@),
    {
        match self {
            Json::Object(es) => {
                let mut i: usize = 0;
                let ghost ts = self@->Object_0;
                while i < es.len()
                    invariant
                        i <= es.len(),
                        self@ == Tree::Object(ts),
                        ts.len() == es.len(),
                        forall|k: int| 0 <= k < es.len() ==> ts[k] == (es[k].0@, es[k].1@),
                        entry_from(ts, key@, 0) == entry_from(ts, key@, i as int),
                    decreases es.len() - i,
                {
                    if same(es[i].0.as_str(), key) {
                        return Some(&es[i].1);
                    }
                    i = i + 1;
                }
                None
            },
            _ => None,
        }
    }

    /// The text, where this is one.
    pub fn text(&self) -> (r: Option<&String>)
        ensures
            r is Some <==> self@.text() is Some,
            r matches Some(s) ==> self@.text() == Some(s@),
    {
        match self {
            Json::Text(s) => Some(s),
            _ => None,
        }
    }

    /// The text under `key`.
    pub fn text_field(&self, key: &str) -> (r: Option<&String>)
        ensures
            r is Some <==> self@.text_field(key@) is Some,
            r matches Some(s) ==> self@.text_field(key@) == Some(s@),
    {
        match self.field(key) {
            Some(j) => j.text(),
            None => None,
        }
    }

    /// The list, where this is one.
    pub fn list(&self) -> (r: Option<&Vec<Json>>)
        ensures
            r is Some <==> self@.list() is Some,
            r matches Some(v) ==> self@.list()->0.len() == v.len() && forall|i: int|
                0 <= i < v.len() ==> self@.list()->0[i] == (#[trigger] v[i])@,
            r matches Some(v) ==> self@.list() == Some(trees(v@)),
    {
        match self {
            Json::List(v) => {
                assert(self@->List_0 =~= trees(v@));
                Some(v)
            },
            _ => None,
        }
    }

    /// What stands under `key`, without the rest.
    pub fn into_field(self, key: &str) -> (r: Option<Json>)
        ensures
            r is Some <==> self@.field(key@) is Some,
            r matches Some(j) ==> self@.field(key@) == Some(j@),
    {
        let ghost whole = self@;
        match self {
            Json::Object(entries) => {
                let mut es = entries;
                let ghost ts = whole->Object_0;
                let mut i: usize = 0;
                while i < es.len()
                    invariant
                        i <= es.len(),
                        whole == self@,
                        whole == Tree::Object(ts),
                        ts.len() == es.len(),
                        forall|k: int| 0 <= k < es.len() ==> ts[k] == (es[k].0@, es[k].1@),
                        entry_from(ts, key@, 0) == entry_from(ts, key@, i as int),
                    decreases es.len() - i,
                {
                    if same(es[i].0.as_str(), key) {
                        let e = es.remove(i);
                        return Some(e.1);
                    }
                    i = i + 1;
                }
                None
            },
            _ => None,
        }
    }

    /// The items, where this is a list; none where it is not.
    pub fn into_items(self) -> (out: Vec<Json>)
        ensures
            trees(out@) == self@.items(),
    {
        let ghost whole = self@;
        match self {
            Json::List(v) => {
                assert(whole->List_0 =~= trees(v@));
                v
            },
            _ => {
                let v: Vec<Json> = Vec::new();
                assert(trees(v@) =~= Seq::<Tree>::empty());
                v
            },
        }
    }

    /// The unsigned number, where this is one.
    pub fn number(&self) -> (r: Option<u64>)
        ensures
            r == self@.number(),
    {
        match self {
            Json::Unsigned(n) => Some(*n),
            _ => None,
        }
    }

    /// The truth value, where this is one.
    pub fn truth(&self) -> (r: Option<bool>)
        ensures
            r == self@.truth(),
    {
        match self {
            Json::Bool(b) => Some(*b),
            _ => None,
        }
    }
}

// ---------------------------------------------------------------- building --

/// The entries of an object.
pub open spec fn entry_trees(v: Seq<(String, Json)>) -> Seq<(Seq<char>, Tree)> {
    v.map_values(|e: (String, Json)| (e.0@, e.1@))
}

/// The items of a list.
pub open spec fn trees(v: Seq<Json>) -> Seq<Tree> {
    v.map_values(|j: Json| j@)
}

/// The texts as items of a list.
pub open spec fn text_trees(v: Seq<Seq<char>>) -> Seq<Tree> {
    v.map_values(|s: Seq<char>| Tree::Text(s))
}

/// Put `j` under `key`, behind the entries that are there.
pub fn put(entries: &mut Vec<(String, Json)>, key: &str, j: Json)
    ensures
        entry_trees(final(entries)@) == entry_trees(old(entries)@).push((key@, j@)),
{
    let ghost o = entries@;
    entries.push((key.to_string(), j));
    assert(entry_trees(entries@) =~= entry_trees(o).push((key@, j@)));
}

/// No entries yet.
pub fn no_entries() -> (v: Vec<(String, Json)>)
    ensures
        entry_trees(v@) == Seq::<(Seq<char>, Tree)>::empty(),
{
    let v: Vec<(String, Json)> = Vec::new();
    assert(entry_trees(v@) =~= Seq::<(Seq<char>, Tree)>::empty());
    v
}

/// An object with these entries.
pub fn object(v: Vec<(String, Json)>) -> (j: Json)
    ensures
        j@ == Tree::Object(entry_trees(v@)),
{
    let j = Json::Object(v);
    assert(j@->Object_0 =~= entry_trees(v@));
    j
}

/// A list of these items.
pub fn list(v: Vec<Json>) -> (j: Json)
    ensures
        j@ == Tree::List(trees(v@)),
{
    let j = Json::List(v);
    assert(j@->List_0 =~= trees(v@));
    j
}

/// A text.
pub fn text(s: &str) -> (j: Json)
    ensures
        j@ == Tree::Text(s@),
{
    Json::Text(s.to_string())
}

/// A list of texts.
pub fn texts(v: &Vec<String>) -> (j: Json)
    ensures
        j@ == Tree::List(text_trees(strs(v@))),
{
    let mut items: Vec<Json> = Vec::new();
    let mut i: usize = 0;
    while i < v.len()
        invariant
            i <= v.len(),
            trees(items@) == text_trees(strs(v@)).take(i as int),
        decreases v.len() - i,
    {
        let item = text(v[i].as_str());
        let ghost o = items@;
        items.push(item);
        proof {
            assert(trees(items@) =~= trees(o).push(item@));
            assert(text_trees(strs(v@)).take(i + 1) =~= text_trees(strs(v@)).take(i as int).push(
                item@,
            ));
        }
        i = i + 1;
    }
    assert(text_trees(strs(v@)).take(i as int) =~= text_trees(strs(v@)));
    list(items)
}

/// How a daemon says that it will not or cannot answer.
pub open spec fn refusal_tree(kind: Seq<char>, detail: Seq<char>) -> Tree {
    Tree::Object(seq![("error"@, Tree::Text(kind)), ("detail"@, Tree::Text(detail))])
}

/// A refusal is looked up by its two fields: which kind of refusal, and what is said of it.
pub proof fn law_a_refusal_says_why(kind: Seq<char>, detail: Seq<char>)
    ensures
        refusal_tree(kind, detail).field("error"@) == Some(Tree::Text(kind)),
        refusal_tree(kind, detail).field("detail"@) == Some(Tree::Text(detail)),
{
    reveal_with_fuel(entry_from, 3);
    reveal_strlit("error");
    reveal_strlit("detail");
    assert("error"@.len() == 5);
    assert("detail"@.len() == 6);
}

/// How a daemon says that it will not or cannot answer.
pub fn refusal(kind: &str, detail: &str) -> (j: Json)
    ensures
        j@ == refusal_tree(kind@, detail@),
        j@.field("error"@) == Some(Tree::Text(kind@)),
        j@.field("detail"@) == Some(Tree::Text(detail@)),
{
    proof {
        law_a_refusal_says_why(kind@, detail@);
    }
    let mut es = no_entries();
    put(&mut es, "error", text(kind));
    put(&mut es, "detail", text(detail));
    assert(entry_trees(es@) =~= refusal_tree(kind@, detail@)->Object_0);
    object(es)
}

/// An object with one entry.
pub fn single(key: &str, j: Json) -> (r: Json)
    ensures
        r@ == Tree::Object(seq![(key@, j@)]),
        r@.field(key@) == Some(j@),
{
    let mut es = no_entries();
    put(&mut es, key, j);
    object(es)
}

// ---------------------------------------------------------- outside calls --

/// A document as `serde_json` holds it.
#[verifier::external_type_specification]
#[verifier::external_body]
pub struct ExValue(serde_json::Value);

/// Why `serde_json` could not read a document.
#[verifier::external_type_specification]
#[verifier::external_body]
pub struct ExError(serde_json::Error);

/// What `serde_json::from_str` reads out of a text; `None` where it reports an
/// error.
pub uninterp spec fn value_in(text: Seq<char>) -> Option<serde_json::Value>;

/// What a document of `serde_json` says.
pub uninterp spec fn tree_in(v: serde_json::Value) -> Tree;

/// What the JSON text `text` says; `None` where it is no JSON.
pub open spec fn json_in(text: Seq<char>) -> Option<Tree> {
    match value_in(text) {
        Some(v) => Some(tree_in(v)),
        None => None,
    }
}

/// `serde_json::from_str` into a `serde_json::Value`: what it reads is a function
/// of the text.
#[verifier::external_body]
pub(crate) fn read_value(text: &str) -> (r: Result<serde_json::Value, serde_json::Error>)
    ensures
        r is Ok <==> value_in(text@) is Some,
        r matches Ok(v) ==> value_in(text@) == Some(v),
{
    serde_json::from_str(text)
}

/// A `serde_json::Value` as a [`Json`], variant by variant: an integer that fits
/// 64 bits stays a number, any other number becomes its own text, and an
/// object's entries keep the order that the value walks them in.
#[verifier::external_body]
pub(crate) fn from_value(v: serde_json::Value) -> (j: Json)
    ensures
        j@ == tree_in(v),
{
    match v {
        serde_json::Value::Null => Json::Null,
        serde_json::Value::Bool(b) => Json::Bool(b),
        serde_json::Value::Number(n) => match (n.as_u64(), n.as_i64()) {
            (Some(u), _) => Json::Unsigned(u),
            (None, Some(i)) => Json::Negative(i),
            (None, None) => Json::Float(n.to_string()),
        },
        serde_json::Value::String(s) => Json::Text(s),
        serde_json::Value::Array(v) => Json::List(v.into_iter().map(from_value).collect()),
        serde_json::Value::Object(m) => Json::Object(m.into_iter().map(|(k, v)| (k, from_value(v))).collect()),
    }
}

/// What the JSON text `text` says.
pub fn parse(text: &str) -> (r: Option<Json>)
    ensures
        r is Some <==> json_in(text@) is Some,
        r matches Some(j) ==> json_in(text@) == Some(j@),
{
    match read_value(text) {
        Ok(v) => Some(from_value(v)),
        Err(_) => None,
    }
}

/// What `serde_json::from_slice` reads out of some bytes, or the error that it reports.
pub uninterp spec fn value_in_bytes(raw: Seq<u8>) -> Result<serde_json::Value, Seq<char>>;

/// What the bytes of a JSON text say, or why they are no JSON.
pub open spec fn json_read(raw: Seq<u8>) -> Result<Tree, Seq<char>> {
    match value_in_bytes(raw) {
        Ok(v) => Ok(tree_in(v)),
        Err(e) => Err(e),
    }
}

/// What the bytes of a JSON text say; `None` where they are no JSON.
pub open spec fn json_in_bytes(raw: Seq<u8>) -> Option<Tree> {
    match json_read(raw) {
        Ok(t) => Some(t),
        Err(_) => None,
    }
}

/// `serde_json::from_slice` into a `serde_json::Value`: what it reads is a function of the
/// bytes, and so is the text of its error.
#[verifier::external_body]
pub(crate) fn read_bytes(raw: &[u8]) -> (r: Result<serde_json::Value, String>)
    ensures
        (match r {
            Ok(v) => Ok(v),
            Err(e) => Err(e@),
        }) == value_in_bytes(raw@),
{
    serde_json::from_slice(raw).map_err(|e| e.to_string())
}

/// What the bytes of a JSON text say, or why they are no JSON.
pub fn read_json(raw: &[u8]) -> (r: Result<Json, String>)
    ensures
        (match r {
            Ok(j) => Ok(j@),
            Err(e) => Err(e@),
        }) == json_read(raw@),
{
    match read_bytes(raw) {
        Ok(v) => Ok(from_value(v)),
        Err(e) => Err(e),
    }
}

/// What the bytes of a JSON text say.
pub fn parse_bytes(raw: &[u8]) -> (r: Option<Json>)
    ensures
        r is Some <==> json_in_bytes(raw@) is Some,
        r matches Some(j) ==> json_in_bytes(raw@) == Some(j@),
{
    match read_json(raw) {
        Ok(j) => Some(j),
        Err(_) => None,
    }
}

/// What a reply says: nothing where it is no JSON.
pub open spec fn said_in(text: Seq<char>) -> Tree {
    match json_in(text) {
        Some(t) => t,
        None => Tree::Null,
    }
}

/// What a reply says: nothing where it is no JSON.
pub fn reply_of(text: &str) -> (j: Json)
    ensures
        j@ == said_in(text@),
{
    match parse(text) {
        Some(j) => j,
        None => Json::Null,
    }
}

/// A character inside a JSON string.
pub open spec fn json_char(c: char) -> Seq<char> {
    if c == '"' {
        seq!['\\', '"']
    } else if c == '\\' {
        seq!['\\', '\\']
    } else if c == '\n' {
        seq!['\\', 'n']
    } else if c == '\r' {
        seq!['\\', 'r']
    } else if c == '\t' {
        seq!['\\', 't']
    } else if c as int == 8 {
        seq!['\\', 'b']
    } else if c as int == 12 {
        seq!['\\', 'f']
    } else if (c as int) < 32 {
        seq!['\\', 'u', '0', '0', digit_char(c as int / 16), digit_char(c as int % 16)]
    } else {
        seq![c]
    }
}

/// The inside of the JSON string that says `s`.
pub open spec fn json_chars(s: Seq<char>) -> Seq<char>
    decreases s.len(),
{
    if s.len() == 0 {
        Seq::empty()
    } else {
        json_chars(s.drop_last()) + json_char(s.last())
    }
}

/// The JSON string that says `s`.
pub open spec fn json_string(s: Seq<char>) -> Seq<char> {
    seq!['"'] + json_chars(s) + seq!['"']
}

/// The `Display` of `serde_json::Value::String`: the text between quotes, with
/// the quote, the backslash and the control characters escaped.
#[verifier::external_body]
pub(crate) fn quote(s: &str) -> (out: String)
    ensures
        out@ == json_string(s@),
{
    serde_json::Value::String(s.to_string()).to_string()
}

/// The quote at `i` is escaped: an odd run of backslashes stands right before it.
pub open spec fn escaped_at(s: Seq<char>, i: int) -> bool
    decreases i,
{
    i > 0 && i <= s.len() && s[i - 1] == '\\' && !escaped_at(s, i - 1)
}

proof fn lemma_escape_tail(s: Seq<char>, t: Seq<char>, i: int)
    requires
        0 <= i <= s.len(),
        i <= t.len(),
        forall|k: int| 0 <= k < i ==> s[k] == t[k],
    ensures
        escaped_at(s, i) == escaped_at(t, i),
    decreases i,
{
    if i > 0 {
        lemma_escape_tail(s, t, i - 1);
    }
}

/// A character inside a JSON string is itself, or a backslash and one more
/// character, or a backslash and five characters of which none is special.
proof fn lemma_json_char(c: char)
    ensures
        json_char(c).len() == 1 || json_char(c).len() == 2 || json_char(c).len() == 6,
        json_char(c).len() == 1 ==> json_char(c)[0] != '"' && json_char(c)[0] != '\\',
        json_char(c).len() > 1 ==> json_char(c)[0] == '\\',
        json_char(c).len() == 6 ==> forall|k: int|
            1 <= k < 6 ==> #[trigger] json_char(c)[k] != '"' && json_char(c)[k] != '\\',
{
    let n = c as int;
    if n < 32 {
        assert(0 <= n);
        assert(n / 16 < 2 && n % 16 < 16);
        let a = digit_char(n / 16);
        let b = digit_char(n % 16);
        assert(a as int == 48 + n / 16);
        assert(b as int == if n % 16 < 10 { 48 + n % 16 } else { 87 + n % 16 });
        assert('"' as int == 34);
        assert('\\' as int == 92);
    }
}

/// Inside a JSON string every quote is escaped and no escape is left open at the
/// end.
proof fn lemma_json_chars(s: Seq<char>)
    ensures
        forall|i: int|
            0 <= i < json_chars(s).len() && json_chars(s)[i] == '"' ==> escaped_at(
                json_chars(s),
                i,
            ),
        !escaped_at(json_chars(s), json_chars(s).len() as int),
    decreases s.len(),
{
    if s.len() > 0 {
        lemma_json_chars(s.drop_last());
        let p = json_chars(s.drop_last());
        let e = json_char(s.last());
        let q = p + e;
        lemma_json_char(s.last());
        lemma_escape_tail(p, q, p.len() as int);
        assert forall|i: int| 0 <= i < q.len() && q[i] == '"' implies escaped_at(q, i) by {
            if i < p.len() {
                lemma_escape_tail(p, q, i);
            } else {
                assert(q[p.len() as int] == e[0]);
                assert(q[i] == e[i - p.len()]);
            }
        }
        let n = q.len() as int;
        assert(q[n - 1] == e[e.len() - 1]);
        if e.len() == 2 {
            assert(q[n - 2] == '\\');
            assert(escaped_at(q, n - 1));
        }
    }
}

/// No text can leave the JSON string that says it: the only quotes that no escape
/// covers are the first character and the last.
pub proof fn law_quoted_text_stays_inside(s: Seq<char>, i: int)
    requires
        0 <= i < json_string(s).len(),
        json_string(s)[i] == '"',
    ensures
        i == 0 || i == json_string(s).len() - 1 || escaped_at(json_string(s), i),
        !escaped_at(json_string(s), json_string(s).len() - 1),
{
    let p = json_chars(s);
    let q = json_string(s);
    lemma_json_chars(s);
    assert forall|k: int| 0 <= k <= p.len() implies escaped_at(q, k + 1) == escaped_at(p, k) by {
        lemma_shifted(p, q, k);
    }
    if 0 < i < q.len() - 1 {
        assert(q[i] == p[i - 1]);
        assert(escaped_at(p, i - 1));
        assert(escaped_at(q, (i - 1) + 1));
    }
    assert(escaped_at(q, p.len() as int + 1) == escaped_at(p, p.len() as int));
}

proof fn lemma_shifted(p: Seq<char>, q: Seq<char>, k: int)
    requires
        0 <= k <= p.len(),
        q == seq!['"'] + p + seq!['"'],
    ensures
        escaped_at(q, k + 1) == escaped_at(p, k),
    decreases k,
{
    if k > 0 {
        lemma_shifted(p, q, k - 1);
        assert(q[k] == p[k - 1]);
    } else {
        assert(q[0] == '"');
    }
}


// ----------------------------------------------------------------- writing --

/// The text of a document, without blanks.
pub open spec fn written(t: Tree) -> Seq<char>
    decreases t, 0nat,
{
    match t {
        Tree::Null => "null"@,
        Tree::Bool(b) => if b {
            "true"@
        } else {
            "false"@
        },
        Tree::Unsigned(n) => dec_of(n as nat),
        Tree::Negative(n) => if n < 0 {
            "-"@ + dec_of((-n) as nat)
        } else {
            dec_of(n as nat)
        },
        Tree::Float(s) => s,
        Tree::Text(s) => json_string(s),
        Tree::List(v) => "["@ + written_items(v, v.len()) + "]"@,
        Tree::Object(v) => "{"@ + written_entries(v, v.len()) + "}"@,
    }
}

/// The text of the first `n` items of a list.
pub open spec fn written_items(v: Seq<Tree>, n: nat) -> Seq<char>
    decreases v, n,
{
    if n == 0 || n > v.len() {
        Seq::empty()
    } else if n == 1 {
        written(v[0])
    } else {
        written_items(v, (n - 1) as nat) + ","@ + written(v[n - 1])
    }
}

/// The text of the first `n` entries of an object.
pub open spec fn written_entries(v: Seq<(Seq<char>, Tree)>, n: nat) -> Seq<char>
    decreases v, n,
{
    if n == 0 || n > v.len() {
        Seq::empty()
    } else if n == 1 {
        json_string(v[0].0) + ":"@ + written(v[0].1)
    } else {
        written_entries(v, (n - 1) as nat) + ","@ + json_string(v[n - 1].0) + ":"@ + written(
            v[n - 1].1,
        )
    }
}

/// The documents that a list of values holds.
pub open spec fn trees_in(v: Seq<serde_json::Value>) -> Seq<Tree> {
    v.map_values(|x: serde_json::Value| tree_in(x))
}

/// The `Display` of `serde_json::Value`: the text of the document, without blanks.
#[verifier::external_body]
pub(crate) fn show(v: &serde_json::Value) -> (out: String)
    ensures
        out@ == written(tree_in(*v)),
{
    v.to_string()
}

/// `serde_json::Value::get` with a key: what stands under it, where the value is an
/// object that has it.
#[verifier::external_body]
pub(crate) fn child(v: &serde_json::Value, key: &str) -> (r: Option<serde_json::Value>)
    ensures
        (match r {
            Some(c) => Some(tree_in(c)),
            None => None,
        }) == tree_in(*v).field(key@),
{
    v.get(key).cloned()
}

/// `serde_json::Value::as_array`: the items of a value that is a list.
#[verifier::external_body]
pub(crate) fn items(v: &serde_json::Value) -> (r: Option<Vec<serde_json::Value>>)
    ensures
        (match r {
            Some(c) => Some(trees_in(c@)),
            None => None,
        }) == tree_in(*v).list(),
{
    v.as_array().cloned()
}

/// A value is seen for what it is: its kind, its text or number, each item in its place, and
/// each entry under its name.
pub proof fn law_a_value_is_seen_whole(j: Json, i: int)
    ensures
        j is Null <==> j@ is Null,
        j matches Json::Bool(b) ==> j@ == Tree::Bool(b),
        j matches Json::Unsigned(n) ==> j@ == Tree::Unsigned(n),
        j matches Json::Negative(n) ==> j@ == Tree::Negative(n),
        j matches Json::Float(s) ==> j@ == Tree::Float(s@),
        j matches Json::Text(s) ==> j@ == Tree::Text(s@),
        j matches Json::List(v) ==> j@ is List && j@->List_0.len() == v@.len() && (0 <= i < v@.len()
            ==> j@->List_0[i] == v@[i]@),
        j matches Json::Object(v) ==> j@ is Object && j@->Object_0.len() == v@.len() && (0 <= i
            < v@.len() ==> j@->Object_0[i].0 == v@[i].0@ && j@->Object_0[i].1 == v@[i].1@),
{
}

/// Only a truth value has a truth; what cannot be read is nothing.
pub proof fn law_what_is_read_of_a_value(t: Tree, raw: Seq<u8>, text: Seq<char>)
    ensures
        t.truth() is Some <==> t is Bool,
        t matches Tree::Bool(b) ==> t.truth() == Some(b),
        json_in_bytes(raw) is Some <==> json_read(raw) is Ok,
        json_read(raw) matches Ok(x) ==> json_in_bytes(raw) == Some(x),
        json_in(text) is None ==> said_in(text) == Tree::Null,
        json_in(text) matches Some(x) ==> said_in(text) == x,
{
}

} // verus!
