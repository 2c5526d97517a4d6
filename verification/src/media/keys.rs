//! Keys and ids: a photo's or a job's character class, an upload's extension, which
//! bucket and which object inside it a key names, and the parts of an upload.

use vstd::prelude::*;
use vstd::string::*;

use crate::path::{extension, extension_of};
use crate::text::{after_prefix, alphanumeric, chars_of, lemma_last, lemma_next, lower, lower_of, rsplit_once, rsplit_once_of, same, split_once, split_once_of, strip_prefix};

verus! {

/// S3's minimum part is 5 MiB; 16 MiB keeps a large raw file at few parts, so that a
/// browser's retry of one is cheap.
pub const PART_SIZE: u64 = 16777216;

/// May this character stand in an id?
pub open spec fn id_char(c: char) -> bool {
    alphanumeric(c) || c == '_' || c == '-'
}

/// `[A-Za-z0-9_-]{1,64}`.
pub open spec fn id_ok(id: Seq<char>) -> bool {
    1 <= id.len() <= 64 && forall|i: int| 0 <= i < id.len() ==> id_char(#[trigger] id[i])
}

/// Is this an id? A photo's becomes part of an object key and a job's a directory
/// name, so neither may carry a slash or a step up.
pub fn valid_id(id: &str) -> (r: bool)
    ensures
        r == id_ok(id@),
{
    let cs = chars_of(id);
    if cs.len() == 0 || cs.len() > 64 {
        return false;
    }
    let mut i: usize = 0;
    while i < cs.len()
        invariant
            i <= cs.len(),
            cs@ == id@,
            forall|k: int| 0 <= k < i ==> id_char(#[trigger] cs@[k]),
        decreases cs.len() - i,
    {
        let c = cs[i];
        let plain = ('0' <= c && c <= '9') || ('a' <= c && c <= 'z') || ('A' <= c && c <= 'Z');
        if !plain && c != '_' && c != '-' {
            assert(!id_char(id@[i as int]));
            return false;
        }
        i = i + 1;
    }
    true
}

/// Is this an extension that is accepted?
pub open spec fn ext_ok(ext: Seq<char>) -> bool {
    ext == "arw"@ || ext == "jpg"@ || ext == "jpeg"@
}

fn accepted_ext(ext: &str) -> (r: bool)
    ensures
        r == ext_ok(ext@),
{
    same(ext, "arw") || same(ext, "jpg") || same(ext, "jpeg")
}

/// The lower-cased extension of a file name, where it is accepted.
pub open spec fn allowed_ext_of(filename: Seq<char>) -> Option<Seq<char>> {
    match extension_of(filename) {
        Some(e) => if ext_ok(lower_of(e)) {
            Some(lower_of(e))
        } else {
            None
        },
        None => None,
    }
}

/// The lower-cased extension of a file name, where it is accepted.
pub fn allowed_ext(filename: &str) -> (r: Option<String>)
    ensures
        (match r {
            Some(e) => Some(e@),
            None => None,
        }) == allowed_ext_of(filename@),
{
    match extension(filename) {
        None => None,
        Some(e) => {
            let low = lower(e.as_str());
            if accepted_ext(low.as_str()) {
                Some(low)
            } else {
                None
            }
        },
    }
}

/// Which of the two buckets.
#[derive(Debug, Clone, Copy, PartialEq, Eq, Structural)]
pub enum Which {
    Originals,
    Renditions,
}

/// The name of an original inside its bucket: an id and an accepted extension.
pub open spec fn original_name(obj: Seq<char>) -> bool {
    match rsplit_once_of(obj, '.') {
        Some((id, ext)) => id_ok(id) && ext_ok(ext),
        None => false,
    }
}

/// The name of a rendition inside its bucket: an id and one of three files.
pub open spec fn rendition_name(obj: Seq<char>) -> bool {
    match split_once_of(obj, '/') {
        Some((id, file)) => id_ok(id) && (file == "thumb.jpg"@ || file == "share.jpg"@ || file
            == "ai.jpg"@),
        None => false,
    }
}

/// The bucket that a key names and the object inside it, where it is a key that could
/// have been made here: `originals/<id>.<ext>` or `renditions/<id>/<file>`.
pub open spec fn key_in(key: Seq<char>) -> Option<(Which, Seq<char>)> {
    match after_prefix(key, "originals/"@) {
        Some(obj) => if original_name(obj) {
            Some((Which::Originals, obj))
        } else {
            None
        },
        None => match after_prefix(key, "renditions/"@) {
            Some(obj) => if rendition_name(obj) {
                Some((Which::Renditions, obj))
            } else {
                None
            },
            None => None,
        },
    }
}

/// The bucket that a key names and the object inside it.
pub fn parse_key(key: &str) -> (r: Option<(Which, String)>)
    ensures
        (match r {
            Some((w, obj)) => Some((w, obj@)),
            None => None,
        }) == key_in(key@),
{
    match strip_prefix(key, "originals/") {
        Some(obj) => match rsplit_once(obj.as_str(), '.') {
            Some((id, ext)) => if valid_id(id.as_str()) && accepted_ext(ext.as_str()) {
                Some((Which::Originals, obj))
            } else {
                None
            },
            None => None,
        },
        None => match strip_prefix(key, "renditions/") {
            Some(obj) => match split_once(obj.as_str(), '/') {
                Some((id, file)) => if valid_id(id.as_str()) && (same(file.as_str(), "thumb.jpg")
                    || same(file.as_str(), "share.jpg") || same(file.as_str(), "ai.jpg")) {
                    Some((Which::Renditions, obj))
                } else {
                    None
                },
                None => None,
            },
            None => None,
        },
    }
}

// ------------------------------------------------------------------- parts --

/// How many parts `size` bytes take.
pub open spec fn part_count(size: int, part: int) -> int {
    (size + part - 1) / part
}

/// The parts of an upload: 1-based, each `part` bytes except a shorter last one.
pub open spec fn parts_planned(size: int, part: int) -> Seq<(int, int)> {
    let n = part_count(size, part);
    Seq::new(
        n as nat,
        |i: int|
            (
                i + 1,
                if i + 1 == n {
                    size - i * part
                } else {
                    part
                },
            ),
    )
}

/// The parts as numbers of any size.
pub open spec fn as_ints(v: Seq<(u16, u64)>) -> Seq<(int, int)> {
    v.map_values(|p: (u16, u64)| (p.0 as int, p.1 as int))
}

proof fn lemma_part_count(size: int, part: int)
    requires
        part > 0,
        size >= 0,
    ensures
        part_count(size, part) >= 0,
        size > 0 ==> part_count(size, part) > 0 && (part_count(size, part) - 1) * part < size
            && size <= part_count(size, part) * part,
        size == 0 ==> part_count(size, part) == 0,
{
    let n = part_count(size, part);
    vstd::arithmetic::div_mod::lemma_fundamental_div_mod(size + part - 1, part);
    let r = (size + part - 1) % part;
    assert(part * n == n * part) by (nonlinear_arith);
    assert((n - 1) * part == n * part - part) by (nonlinear_arith);
    assert(0 <= r < part);
    assert(n >= 0) by (nonlinear_arith)
        requires
            n * part + r == size + part - 1,
            0 <= r < part,
            size >= 0,
            part > 0,
    ;
    if size > 0 {
        assert(n > 0) by (nonlinear_arith)
            requires
                n * part + r == size + part - 1,
                r < part,
                size > 0,
                part > 0,
        ;
    } else {
        assert(n == 0) by (nonlinear_arith)
            requires
                n * part + r == part - 1,
                0 <= r,
                n >= 0,
                part > 0,
        ;
    }
}

/// How many parts `size` bytes take.
pub fn count_parts(size: u64, part_size: u64) -> (n: u64)
    requires
        part_size > 0,
    ensures
        n == part_count(size as int, part_size as int),
{
    proof {
        lemma_part_count(size as int, part_size as int);
    }
    if size == 0 {
        return 0;
    }
    let n: u64 = (size - 1) / part_size + 1;
    proof {
        vstd::arithmetic::div_mod::lemma_div_plus_one(size as int - 1, part_size as int);
    }
    n
}

/// The parts of a `size`-byte upload.
pub fn plan_parts(size: u64, part_size: u64) -> (out: Vec<(u16, u64)>)
    requires
        part_size > 0,
        part_count(size as int, part_size as int) <= u16::MAX,
    ensures
        as_ints(out@) == parts_planned(size as int, part_size as int),
{
    let n = count_parts(size, part_size);
    let ghost want = parts_planned(size as int, part_size as int);
    let mut out: Vec<(u16, u64)> = Vec::new();
    let mut i: u16 = 0;
    let mut start: u64 = 0;
    assert(as_ints(out@) =~= want.take(0));
    proof {
        lemma_part_count(size as int, part_size as int);
    }
    while (i as u64) < n
        invariant
            part_size > 0,
            i <= n <= u16::MAX,
            n == part_count(size as int, part_size as int),
            n > 0 ==> (n - 1) * part_size < size <= n * part_size,
            want == parts_planned(size as int, part_size as int),
            i < n ==> start == i * part_size,
            as_ints(out@) == want.take(i as int),
        decreases n - i,
    {
        assert(i * part_size <= (n - 1) * part_size) by (nonlinear_arith)
            requires
                i <= n - 1,
                part_size > 0,
        ;
        let left: u64 = size - start;
        let len: u64 = if (i as u64) + 1 == n {
            left
        } else {
            part_size
        };
        let ghost o = out@;
        out.push((i + 1, len));
        assert(as_ints(out@) =~= as_ints(o).push(((i + 1) as int, len as int)));
        assert(want.take(i + 1) =~= want.take(i as int).push(want[i as int]));
        i = i + 1;
        if (i as u64) < n {
            assert((i - 1) * part_size + part_size == i * part_size) by (nonlinear_arith);
            assert(i * part_size <= (n - 1) * part_size) by (nonlinear_arith)
                requires
                    i <= n - 1,
                    part_size > 0,
            ;
            start = start + part_size;
        }
    }
    assert(want.take(i as int) =~= want);
    out
}

/// The lengths of some parts, added up.
pub open spec fn total(parts: Seq<(int, int)>) -> int
    decreases parts.len(),
{
    if parts.len() == 0 {
        0
    } else {
        total(parts.drop_last()) + parts.last().1
    }
}

proof fn lemma_total_full(size: int, part: int, k: int)
    requires
        part > 0,
        0 <= k < part_count(size, part),
    ensures
        total(parts_planned(size, part).take(k)) == k * part,
    decreases k,
{
    let ps = parts_planned(size, part);
    if k > 0 {
        lemma_total_full(size, part, k - 1);
        assert(ps.take(k).drop_last() =~= ps.take(k - 1));
        assert(ps.take(k).last() == ps[k - 1]);
        assert((k - 1) * part + part == k * part) by (nonlinear_arith);
    } else {
        assert(ps.take(0).len() == 0);
        assert(0 * part == 0) by (nonlinear_arith);
    }
}

/// The parts of an upload add back up to its size, none is longer than a part or
/// empty, and they are numbered from one with none missing.
pub proof fn law_parts_add_up(size: int, part: int)
    requires
        part > 0,
        size >= 0,
    ensures
        total(parts_planned(size, part)) == size,
        forall|i: int|
            0 <= i < parts_planned(size, part).len() ==> {
                let p = #[trigger] parts_planned(size, part)[i];
                p.0 == i + 1 && 0 < p.1 <= part
            },
{
    let ps = parts_planned(size, part);
    let n = part_count(size, part);
    lemma_part_count(size, part);
    if size > 0 {
        lemma_total_full(size, part, n - 1);
        assert(ps.drop_last() =~= ps.take(n - 1));
        assert(n * part == (n - 1) * part + part) by (nonlinear_arith);
    }
}

/// A key names one bucket and one object, and the object holds no step up: an id holds
/// no dot and no slash.
pub proof fn law_a_key_stays_in_its_bucket(key: Seq<char>)
    requires
        key_in(key) is Some,
    ensures
        key == match key_in(key)->Some_0.0 {
            Which::Originals => "originals/"@ + key_in(key)->Some_0.1,
            Which::Renditions => "renditions/"@ + key_in(key)->Some_0.1,
        },
        key_in(key)->Some_0.1.len() > 0,
        key_in(key)->Some_0.1[0] != '.',
        key_in(key)->Some_0.1[0] != '/',
{
    let (w, obj) = key_in(key)->Some_0;
    match w {
        Which::Originals => {
            assert(key =~= "originals/"@ + obj);
            let (id, ext) = rsplit_once_of(obj, '.')->Some_0;
            lemma_last(obj, '.', obj.len() as int);
            assert(id[0] == obj[0]);
            assert(id_char(id[0]));
        },
        Which::Renditions => {
            assert(key =~= "renditions/"@ + obj);
            let (id, file) = split_once_of(obj, '/')->Some_0;
            lemma_next(obj, '/', 0);
            assert(id[0] == obj[0]);
            assert(id_char(id[0]));
        },
    }
}

/// Every part but the last is full, and no part could be spared: without the last one, not
/// all of the upload would go.
pub proof fn law_only_the_last_part_is_short(size: int, part: int)
    requires
        part > 0,
        size >= 0,
    ensures
        forall|i: int|
            0 <= i < parts_planned(size, part).len() - 1 ==> (#[trigger] parts_planned(
                size,
                part,
            )[i]).1 == part,
        size == 0 <==> parts_planned(size, part).len() == 0,
        size > 0 ==> (parts_planned(size, part).len() - 1) * part < size
            <= parts_planned(size, part).len() * part,
{
    let n = part_count(size, part);
    assert(size > 0 ==> n >= 1 && (n - 1) * part < size && size <= n * part) by (nonlinear_arith)
        requires
            part > 0,
            size >= 0,
            n == (size + part - 1) / part,
    ;
    assert(size == 0 ==> n == 0) by (nonlinear_arith)
        requires
            part > 0,
            n == (size + part - 1) / part,
    ;
}

/// A name is an identity exactly where it has from one to sixty-four characters and each is
/// a letter or a digit of ASCII, an underscore or a hyphen.
pub proof fn law_what_an_identity_is(id: Seq<char>)
    ensures
        id_ok(id) <==> id.len() >= 1 && id.len() <= 64 && forall|i: int|
            0 <= i < id.len() ==> ('0' <= #[trigger] id[i] <= '9') || ('a' <= id[i] <= 'z') || (
            'A' <= id[i] <= 'Z') || id[i] == '_' || id[i] == '-',
{
    assert forall|i: int| 0 <= i < id.len() implies (id_char(#[trigger] id[i]) <==> ('0' <= id[i]
        <= '9') || ('a' <= id[i] <= 'z') || ('A' <= id[i] <= 'Z') || id[i] == '_' || id[i]
        == '-') by {}
    if id_ok(id) {
        assert forall|i: int| 0 <= i < id.len() implies ('0' <= #[trigger] id[i] <= '9') || ('a'
            <= id[i] <= 'z') || ('A' <= id[i] <= 'Z') || id[i] == '_' || id[i] == '-' by {
            assert(id_char(id[i]));
        }
    }
}

/// A key of an original is one of its identity and its kind, and every such key is read back.
pub proof fn law_an_original_key_is_read_back(id: Seq<char>, ext: Seq<char>)
    requires
        id_ok(id),
        ext == "arw"@ || ext == "jpg"@ || ext == "jpeg"@,
    ensures
        key_in("originals/"@ + (id + seq!['.'] + ext)) == Some(
            (Which::Originals, id + seq!['.'] + ext),
        ),
{
    let obj = id + seq!['.'] + ext;
    let p = "originals/"@;
    let key = p + obj;
    assert(key.subrange(0, p.len() as int) =~= p);
    assert(key.skip(p.len() as int) =~= obj);
    reveal_strlit("arw");
    reveal_strlit("jpg");
    reveal_strlit("jpeg");
    assert("arw"@.len() == 3 && "jpg"@.len() == 3 && "jpeg"@.len() == 4);
    assert(!ext.contains('.')) by {
        assert forall|i: int| 0 <= i < ext.len() implies ext[i] != '.' by {
            if ext == "arw"@ {
                assert(ext[i] == "arw"@[i]);
            } else if ext == "jpg"@ {
                assert(ext[i] == "jpg"@[i]);
            } else {
                assert(ext[i] == "jpeg"@[i]);
            }
        }
    }
    crate::text::lemma_last(obj, '.', obj.len() as int);
    let k = crate::text::last_before(obj, '.', obj.len() as int);
    assert(obj[id.len() as int] == '.');
    if k > id.len() {
        assert(obj[k] == ext[k - id.len() - 1]);
        assert(ext.contains(ext[k - id.len() - 1]));
    }
    assert(k == id.len());
    assert(obj.take(k) =~= id);
    assert(obj.skip(k + 1) =~= ext);
}

/// An accepted file is one whose name ends as a raw or a JPEG, however that is written.
pub proof fn law_which_file_is_accepted(filename: Seq<char>)
    ensures
        allowed_ext_of(filename) is Some <==> extension_of(filename) is Some && (lower_of(
            extension_of(filename)->0,
        ) == "arw"@ || lower_of(extension_of(filename)->0) == "jpg"@ || lower_of(
            extension_of(filename)->0,
        ) == "jpeg"@),
        allowed_ext_of(filename) is Some ==> allowed_ext_of(filename) == Some(
            lower_of(extension_of(filename)->0),
        ),
{
}

/// A rendition's object is one of the three of an identity.
pub proof fn law_which_object_is_a_rendition(obj: Seq<char>)
    ensures
        rendition_name(obj) <==> split_once_of(obj, '/') is Some && id_ok(
            split_once_of(obj, '/')->Some_0.0,
        ) && (split_once_of(obj, '/')->Some_0.1 == "thumb.jpg"@ || split_once_of(obj, '/')->Some_0.1
            == "share.jpg"@ || split_once_of(obj, '/')->Some_0.1 == "ai.jpg"@),
        original_name(obj) <==> rsplit_once_of(obj, '.') is Some && id_ok(
            rsplit_once_of(obj, '.')->Some_0.0,
        ) && (rsplit_once_of(obj, '.')->Some_0.1 == "arw"@ || rsplit_once_of(obj, '.')->Some_0.1
            == "jpg"@ || rsplit_once_of(obj, '.')->Some_0.1 == "jpeg"@),
{
}

/// An extension is one of three, in small letters.
pub proof fn law_which_extensions_there_are(ext: Seq<char>)
    ensures
        ext_ok("arw"@),
        ext_ok("jpg"@),
        ext_ok("jpeg"@),
        ext != "arw"@ && ext != "jpg"@ && ext != "jpeg"@ ==> !ext_ok(ext),
{
}

} // verus!
