//! What an original says of itself: its camera, its clock, its size, and which way up
//! it is.

use vstd::prelude::*;
use vstd::string::*;

use crate::goal::spec::opt_text;
use crate::json::{Json, Tree, entry_from, entry_trees, no_entries, object, put, text};
use crate::text::{chars_of, digit, lossy, lossy_of, lowercase, lowercase_of, replace_char, replace_char_of, same, slice_text, split_once, split_once_of, starts_with, trim, trim_of};

verus! {

// ------------------------------------------------------------- orientation --

/// How a camera says its picture is to be turned.
#[derive(Debug, Clone, Copy, PartialEq, Eq, Structural)]
pub enum Orientation {
    Normal,
    HorizontalFlip,
    Rotate180,
    VerticalFlip,
    Transpose,
    Rotate90,
    Transverse,
    Rotate270,
    Unknown,
}

/// The EXIF number of an orientation, 1 to 8.
pub open spec fn exif_number(o: Orientation) -> u8 {
    match o {
        Orientation::Normal => 1,
        Orientation::Unknown => 1,
        Orientation::HorizontalFlip => 2,
        Orientation::Rotate180 => 3,
        Orientation::VerticalFlip => 4,
        Orientation::Transpose => 5,
        Orientation::Rotate90 => 6,
        Orientation::Transverse => 7,
        Orientation::Rotate270 => 8,
    }
}

/// The EXIF number of an orientation.
pub fn exif_orientation(o: Orientation) -> (n: u8)
    ensures
        n == exif_number(o),
{
    match o {
        Orientation::Normal => 1,
        Orientation::Unknown => 1,
        Orientation::HorizontalFlip => 2,
        Orientation::Rotate180 => 3,
        Orientation::VerticalFlip => 4,
        Orientation::Transpose => 5,
        Orientation::Rotate90 => 6,
        Orientation::Transverse => 7,
        Orientation::Rotate270 => 8,
    }
}

/// Width and height after turning by `o`: swapped by 5 to 8.
pub open spec fn turned(w: int, h: int, o: u8) -> (int, int) {
    if 5 <= o <= 8 {
        (h, w)
    } else {
        (w, h)
    }
}

/// Where the pixel comes from that stands at column `x` and row `y` after turning a
/// `w` by `h` plane by `o`.
pub open spec fn source(w: int, h: int, o: u8, x: int, y: int) -> (int, int) {
    if o == 2 {
        (w - 1 - x, y)
    } else if o == 3 {
        (w - 1 - x, h - 1 - y)
    } else if o == 4 {
        (x, h - 1 - y)
    } else if o == 5 {
        (y, x)
    } else if o == 6 {
        (y, h - 1 - x)
    } else if o == 7 {
        (w - 1 - y, h - 1 - x)
    } else if o == 8 {
        (w - 1 - y, x)
    } else {
        (x, y)
    }
}

/// A plane, row by row, turned by `o`.
pub open spec fn oriented<T>(p: Seq<T>, w: int, h: int, o: u8) -> Seq<T> {
    let ow = turned(w, h, o).0;
    Seq::new(
        p.len(),
        |i: int|
            {
                let s = source(w, h, o, i % ow, i / ow);
                p[s.1 * w + s.0]
            },
    )
}

proof fn lemma_at(x: int, y: int, w: int, h: int)
    requires
        0 <= x < w,
        0 <= y < h,
    ensures
        0 <= y * w + x < w * h,
        (y * w + x) % w == x,
        (y * w + x) / w == y,
{
    assert(y * w + x < w * h) by (nonlinear_arith)
        requires
            0 <= x < w,
            0 <= y < h,
    ;
    assert(0 <= y * w) by (nonlinear_arith)
        requires
            0 <= y,
            0 < w,
    ;
    vstd::arithmetic::div_mod::lemma_fundamental_div_mod_converse(y * w + x, w, y, x);
}

proof fn lemma_split(i: int, w: int, h: int)
    requires
        0 <= i < w * h,
        w >= 0,
        h >= 0,
    ensures
        w > 0,
        h > 0,
        0 <= i % w < w,
        0 <= i / w < h,
        (i / w) * w + i % w == i,
{
    assert(w > 0 && h > 0) by (nonlinear_arith)
        requires
            0 <= i < w * h,
            w >= 0,
            h >= 0,
    ;
    vstd::arithmetic::div_mod::lemma_fundamental_div_mod(i, w);
    assert(w * (i / w) == (i / w) * w) by (nonlinear_arith);
    assert(i / w < h) by (nonlinear_arith)
        requires
            (i / w) * w + i % w == i,
            i < w * h,
            i % w >= 0,
            w > 0,
    ;
    assert(i / w >= 0) by (nonlinear_arith)
        requires
            i >= 0,
            w > 0,
    ;
}

/// Turn a `w` by `h` plane by the EXIF orientation `o`. Returns the new plane, its
/// width and its height.
pub fn orient_plane<T: Copy>(p: &[T], w: usize, h: usize, o: u8) -> (r: (Vec<T>, usize, usize))
    requires
        p@.len() == w * h,
    ensures
        r.0@ == oriented(p@, w as int, h as int, o),
        (r.1 as int, r.2 as int) == turned(w as int, h as int, o),
{
    let (ow, oh): (usize, usize) = if 5 <= o && o <= 8 {
        (h, w)
    } else {
        (w, h)
    };
    let ghost want = oriented(p@, w as int, h as int, o);
    assert(ow * oh == w * h) by (nonlinear_arith)
        requires
            (ow == w && oh == h) || (ow == h && oh == w),
    ;
    let mut out: Vec<T> = Vec::new();
    let mut y: usize = 0;
    assert(out@ =~= want.take(0));
    assert(0 * ow == 0) by (nonlinear_arith);
    while y < oh
        invariant
            y <= oh,
            p@.len() == w * h == ow * oh,
            (ow as int, oh as int) == turned(w as int, h as int, o),
            want == oriented(p@, w as int, h as int, o),
            out@.len() == y * ow,
            y * ow <= p@.len(),
            out@ == want.take(y * ow),
        decreases oh - y,
    {
        let mut x: usize = 0;
        while x < ow
            invariant
                x <= ow,
                y < oh,
                p@.len() == w * h == ow * oh,
                (ow as int, oh as int) == turned(w as int, h as int, o),
                want == oriented(p@, w as int, h as int, o),
                out@.len() == y * ow + x,
                y * ow + x <= p@.len(),
                out@ == want.take(y * ow + x),
            decreases ow - x,
        {
            let (sx, sy): (usize, usize) = if o == 2 {
                (w - 1 - x, y)
            } else if o == 3 {
                (w - 1 - x, h - 1 - y)
            } else if o == 4 {
                (x, h - 1 - y)
            } else if o == 5 {
                (y, x)
            } else if o == 6 {
                (y, h - 1 - x)
            } else if o == 7 {
                (w - 1 - y, h - 1 - x)
            } else if o == 8 {
                (w - 1 - y, x)
            } else {
                (x, y)
            };
            proof {
                lemma_at(x as int, y as int, ow as int, oh as int);
                lemma_at(sx as int, sy as int, w as int, h as int);
                assert(0 <= sy * w) by (nonlinear_arith);
            }
            let ghost o_ = out@;
            let ghost at = y * ow + x;
            let cells = p.len();
            assert(sy * w + sx < cells);
            out.push(p[sy * w + sx]);
            assert(want[at] == p@[sy * w + sx]);
            assert(want.take(at + 1) =~= want.take(at).push(want[at]));
            assert(out@ =~= o_.push(want[at]));
            x = x + 1;
        }
        assert(y * ow + ow == (y + 1) * ow) by (nonlinear_arith);
        assert((y + 1) * ow <= oh * ow) by (nonlinear_arith)
            requires
                y < oh,
        ;
        assert(oh * ow == ow * oh) by (nonlinear_arith);
        y = y + 1;
    }
    assert(oh * ow == ow * oh) by (nonlinear_arith);
    assert(want.take(y * ow) =~= want);
    (out, ow, oh)
}

/// The orientation that undoes another: the two quarter turns undo each other, every
/// other undoes itself.
pub open spec fn undoing(o: u8) -> u8 {
    if o == 6 {
        8
    } else if o == 8 {
        6
    } else {
        o
    }
}

/// Turning a plane and then turning it back gives the plane.
pub proof fn law_turning_back_gives_the_plane<T>(p: Seq<T>, w: int, h: int, o: u8)
    requires
        w >= 0,
        h >= 0,
        p.len() == w * h,
    ensures
        oriented(
            oriented(p, w, h, o),
            turned(w, h, o).0,
            turned(w, h, o).1,
            undoing(o),
        ) == p,
{
    let (ow, oh) = turned(w, h, o);
    let q = oriented(p, w, h, o);
    let b = undoing(o);
    let r = oriented(q, ow, oh, b);
    assert(ow * oh == w * h) by (nonlinear_arith)
        requires
            (ow == w && oh == h) || (ow == h && oh == w),
    ;
    assert forall|i: int| 0 <= i < p.len() implies r[i] == p[i] by {
        lemma_split(i, w, h);
        let (x, y) = (i % w, i / w);
        assert(turned(ow, oh, b) == (w, h));
        let s = source(ow, oh, b, x, y);
        lemma_at(s.0, s.1, ow, oh);
        let j = s.1 * ow + s.0;
        assert(r[i] == q[j]);
        let t = source(w, h, o, j % ow, j / ow);
        assert(t == (x, y));
        assert(q[j] == p[t.1 * w + t.0]);
    }
    assert(r =~= p);
}

// ------------------------------------------------------------------- clock --

/// Two digits.
pub open spec fn two_digits(s: Seq<char>, i: int) -> bool {
    digit(s[i]) && digit(s[i + 1])
}

/// `yyyy:mm:dd`.
pub open spec fn is_date(s: Seq<char>) -> bool {
    s.len() == 10 && two_digits(s, 0) && two_digits(s, 2) && s[4] == ':' && two_digits(s, 5) && s[7]
        == ':' && two_digits(s, 8)
}

/// `hh:mm:ss`, with anything behind it.
pub open spec fn starts_with_time(s: Seq<char>) -> bool {
    s.len() >= 8 && two_digits(s, 0) && s[2] == ':' && two_digits(s, 3) && s[5] == ':'
        && two_digits(s, 6)
}

/// The camera's clock in ISO form, without a zone; anything that is not one is none.
pub open spec fn datetime_in(s: Seq<char>) -> Option<Seq<char>> {
    match split_once_of(trim_of(s), ' ') {
        None => None,
        Some((date, time)) => if is_date(date) && starts_with_time(time) && !"0000"@.is_prefix_of(
            date,
        ) {
            Some(replace_char_of(date, ':', "-"@) + "T"@ + time.take(8))
        } else {
            None
        },
    }
}

fn digits_at(cs: &Vec<char>, i: usize) -> (r: bool)
    requires
        i + 1 < cs.len(),
    ensures
        r == two_digits(cs@, i as int),
{
    let (a, b) = (cs[i], cs[i + 1]);
    '0' <= a && a <= '9' && '0' <= b && b <= '9'
}

/// `2026:09:23 13:11:47` becomes `2026-09-23T13:11:47`: the camera's clock, no zone.
pub fn exif_datetime(s: &str) -> (r: Option<String>)
    ensures
        opt_text(r) == datetime_in(s@),
{
    let t = trim(s);
    match split_once(t.as_str(), ' ') {
        None => None,
        Some((date, time)) => {
            let d = chars_of(date.as_str());
            let c = chars_of(time.as_str());
            let dated = d.len() == 10 && digits_at(&d, 0) && digits_at(&d, 2) && d[4] == ':'
                && digits_at(&d, 5) && d[7] == ':' && digits_at(&d, 8);
            let timed = c.len() >= 8 && digits_at(&c, 0) && c[2] == ':' && digits_at(&c, 3) && c[5]
                == ':' && digits_at(&c, 6);
            if dated && timed && !starts_with(date.as_str(), "0000") {
                let iso = replace_char(date.as_str(), ':', "-");
                let clock = slice_text(&c, 0, 8);
                assert(clock@ =~= time@.take(8));
                Some(iso.concat("T").concat(clock.as_str()))
            } else {
                None
            }
        },
    }
}

// ------------------------------------------------------------------ camera --

/// A body in the table of known cameras: the names a file carries and the clean ones.
#[derive(Debug, PartialEq, Eq)]
pub struct KnownCamera {
    pub make: String,
    pub model: String,
    pub mode: String,
    pub clean_make: String,
    pub clean_model: String,
}

/// Is this the body that a file names? With `plain`, only in no special mode.
pub open spec fn names_body(k: KnownCamera, make: Seq<char>, model: Seq<char>, plain: bool) -> bool {
    k.make@ == make && k.model@ == model && (plain ==> k.mode@.len() == 0)
}

/// The first body from `i` on that a file names.
pub open spec fn first_body(
    known: Seq<KnownCamera>,
    make: Seq<char>,
    model: Seq<char>,
    plain: bool,
    i: int,
) -> Option<int>
    decreases known.len() - i,
{
    if i < 0 || i >= known.len() {
        None
    } else if names_body(known[i], make, model, plain) {
        Some(i)
    } else {
        first_body(known, make, model, plain, i + 1)
    }
}

/// The clean names of the body that a file names, those of no special mode first; the
/// file's own names where the body is not known.
pub open spec fn clean_names(known: Seq<KnownCamera>, make: Seq<char>, model: Seq<char>) -> (
    Seq<char>,
    Seq<char>,
) {
    match first_body(known, make, model, true, 0) {
        Some(i) => (known[i].clean_make@, known[i].clean_model@),
        None => match first_body(known, make, model, false, 0) {
            Some(i) => (known[i].clean_make@, known[i].clean_model@),
            None => (make, model),
        },
    }
}

/// A camera's name from a make and a model that may repeat it.
pub open spec fn camera_of(make: Seq<char>, model: Seq<char>) -> Option<Seq<char>> {
    let name = if make.len() > 0 && lowercase_of(make).is_prefix_of(lowercase_of(model)) {
        model
    } else {
        trim_of(make + " "@ + model)
    };
    if name.len() > 0 {
        Some(name)
    } else {
        None
    }
}

/// The name of the camera that a file names, given the known bodies.
pub open spec fn composed(known: Seq<KnownCamera>, make: Seq<char>, model: Seq<char>) -> Option<
    Seq<char>,
> {
    let names = clean_names(known, trim_of(make), trim_of(model));
    camera_of(names.0, names.1)
}

fn find_body(known: &Vec<KnownCamera>, make: &str, model: &str, plain: bool) -> (r: Option<usize>)
    ensures
        (match r {
            Some(i) => Some(i as int),
            None => None,
        }) == first_body(known@, make@, model@, plain, 0),
        r matches Some(i) ==> i < known.len(),
{
    let mut i: usize = 0;
    while i < known.len()
        invariant
            i <= known.len(),
            first_body(known@, make@, model@, plain, i as int) == first_body(
                known@,
                make@,
                model@,
                plain,
                0,
            ),
        decreases known.len() - i,
    {
        let k = &known[i];
        if same(k.make.as_str(), make) && same(k.model.as_str(), model) && (!plain
            || k.mode.as_str().is_empty()) {
            return Some(i);
        }
        i = i + 1;
    }
    None
}

/// The name of the camera that a file names, given the known bodies: their clean names
/// where the body is known, else the file's own, without a repeated make.
pub fn camera_name(known: &Vec<KnownCamera>, make: &str, model: &str) -> (r: Option<String>)
    ensures
        opt_text(r) == composed(known@, make@, model@),
{
    let make = trim(make);
    let model = trim(model);
    let at = match find_body(known, make.as_str(), model.as_str(), true) {
        Some(i) => Some(i),
        None => find_body(known, make.as_str(), model.as_str(), false),
    };
    let (make, model) = match at {
        Some(i) => (known[i].clean_make.clone(), known[i].clean_model.clone()),
        None => (make, model),
    };
    let low_make = lowercase(make.as_str());
    let low_model = lowercase(model.as_str());
    let name = if !make.as_str().is_empty() && starts_with(low_model.as_str(), low_make.as_str()) {
        model
    } else {
        let both = make.concat(" ").concat(model.as_str());
        trim(both.as_str())
    };
    if name.as_str().is_empty() {
        None
    } else {
        Some(name)
    }
}

/// The clean make and model of a body, by the make, the model and the mode that a file
/// names it with.
pub uninterp spec fn body_in(make: Seq<char>, model: Seq<char>, mode: Seq<char>) -> Option<
    (Seq<char>, Seq<char>),
>;

/// Some entry names this body in this mode.
pub open spec fn lists(
    known: Seq<KnownCamera>,
    make: Seq<char>,
    model: Seq<char>,
    mode: Seq<char>,
) -> bool {
    exists|i: int|
        0 <= i < known.len() && (#[trigger] known[i]).make@ == make && known[i].model@ == model
            && known[i].mode@ == mode
}

/// The table of bodies, in any order: each entry has its clean names, and each body that
/// has some is there.
pub open spec fn is_table(known: Seq<KnownCamera>) -> bool {
    &&& forall|i: int|
        0 <= i < known.len() ==> body_in(
            (#[trigger] known[i]).make@,
            known[i].model@,
            known[i].mode@,
        ) == Some((known[i].clean_make@, known[i].clean_model@))
    &&& forall|make: Seq<char>, model: Seq<char>, mode: Seq<char>|
        (#[trigger] body_in(make, model, mode)) is Some ==> lists(known, make, model, mode)
}

/// `rawler::global_loader().get_cameras()`, each entry's key and clean names: the crate's
/// own table, which is fixed data. It is a hash map, so nothing is said of the order.
#[verifier::external_body]
fn known_cameras() -> (out: Vec<KnownCamera>)
    ensures
        forall|i: int|
            0 <= i < out@.len() ==> body_in(
                (#[trigger] out@[i]).make@,
                out@[i].model@,
                out@[i].mode@,
            ) == Some((out@[i].clean_make@, out@[i].clean_model@)),
        forall|make: Seq<char>, model: Seq<char>, mode: Seq<char>|
            (#[trigger] body_in(make, model, mode)) is Some ==> lists(out@, make, model, mode),
{
    rawler::global_loader().get_cameras().iter().map(
        |(k, c)|
            KnownCamera {
                make: k.0.clone(),
                model: k.1.clone(),
                mode: k.2.clone(),
                clean_make: c.clean_make.clone(),
                clean_model: c.clean_model.clone(),
            },
    ).collect()
}

/// `name` is that of the camera that a file names: from the clean names of its body in no
/// special mode; else from those in some mode that the table has; else from the file's
/// own.
pub open spec fn names_camera(make: Seq<char>, model: Seq<char>, name: Option<Seq<char>>) -> bool {
    let (m, d) = (trim_of(make), trim_of(model));
    match body_in(m, d, Seq::empty()) {
        Some(c) => name == camera_of(c.0, c.1),
        None => {
            ||| exists|mode: Seq<char>|
                (#[trigger] body_in(m, d, mode)) matches Some(c) && name == camera_of(c.0, c.1)
            ||| (forall|mode: Seq<char>| (#[trigger] body_in(m, d, mode)) is None) && name
                == camera_of(m, d)
        },
    }
}

/// The first body that is found is one that the file names, and where none is found there
/// is none.
proof fn lemma_first_body(
    known: Seq<KnownCamera>,
    make: Seq<char>,
    model: Seq<char>,
    plain: bool,
    i: int,
)
    requires
        0 <= i <= known.len(),
    ensures
        first_body(known, make, model, plain, i) matches Some(j) ==> i <= j < known.len()
            && names_body(known[j], make, model, plain),
        first_body(known, make, model, plain, i) is None ==> forall|j: int|
            i <= j < known.len() ==> !names_body(#[trigger] known[j], make, model, plain),
    decreases known.len() - i,
{
    if i < known.len() && !names_body(known[i], make, model, plain) {
        lemma_first_body(known, make, model, plain, i + 1);
    }
}

/// Whatever the order of the table, what is found in it names the camera.
proof fn lemma_table_names(known: Seq<KnownCamera>, make: Seq<char>, model: Seq<char>)
    requires
        is_table(known),
    ensures
        names_camera(make, model, composed(known, make, model)),
{
    let (m, d) = (trim_of(make), trim_of(model));
    lemma_first_body(known, m, d, true, 0);
    lemma_first_body(known, m, d, false, 0);
    match first_body(known, m, d, true, 0) {
        Some(i) => {
            assert(known[i].mode@ =~= Seq::empty());
            assert(body_in(m, d, Seq::empty()) is Some);
        },
        None => {
            if body_in(m, d, Seq::empty()) is Some {
                assert(lists(known, m, d, Seq::empty()));
                let j = choose|j: int|
                    0 <= j < known.len() && (#[trigger] known[j]).make@ == m && known[j].model@ == d
                        && known[j].mode@ == Seq::<char>::empty();
                assert(names_body(known[j], m, d, true));
            }
            match first_body(known, m, d, false, 0) {
                Some(i) => {
                    assert(body_in(m, d, known[i].mode@) is Some);
                },
                None => {
                    assert forall|mode: Seq<char>| (#[trigger] body_in(m, d, mode)) is None by {
                        if body_in(m, d, mode) is Some {
                            assert(lists(known, m, d, mode));
                            let j = choose|j: int|
                                0 <= j < known.len() && (#[trigger] known[j]).make@ == m
                                    && known[j].model@ == d && known[j].mode@ == mode;
                            assert(names_body(known[j], m, d, false));
                        }
                    }
                },
            }
        },
    }
}

/// The name of the camera that a file names.
pub fn compose_camera(make: &str, model: &str) -> (r: Option<String>)
    ensures
        names_camera(make@, model@, opt_text(r)),
{
    let known = known_cameras();
    proof {
        lemma_table_names(known@, make@, model@);
    }
    camera_name(&known, make, model)
}

// -------------------------------------------------------------------- EXIF --

/// `exif::Exif`: a chunk that was read.
#[verifier::external_type_specification]
#[verifier::external_body]
pub struct ExExif(exif::Exif);

/// What a chunk of EXIF reads as, with what did parse of a partly broken one; or why it
/// does not read at all.
pub uninterp spec fn exif_in(tiff: Seq<u8>) -> Result<exif::Exif, Seq<char>>;

/// `exif::Reader::read_raw` with `continue_on_error`, `distill_partial_result` and the
/// text of the error: a function of the bytes.
#[verifier::external_body]
fn read_exif(tiff: Vec<u8>) -> (r: Result<exif::Exif, String>)
    ensures
        (match r {
            Ok(e) => Ok::<exif::Exif, Seq<char>>(e),
            Err(t) => Err(t@),
        }) == exif_in(tiff@),
{
    exif::Reader::new().continue_on_error(true).read_raw(tiff).or_else(
        |e| e.distill_partial_result(|_| {}),
    ).map_err(|e| e.to_string())
}

/// The first text under a tag, in bytes. `detail` names the second table of a chunk.
pub uninterp spec fn exif_text_of(e: exif::Exif, detail: bool, tag: u16) -> Option<Seq<u8>>;

/// `Exif::get_field` of a tag of the primary picture: the first component of an ASCII
/// value, a function of the chunk and the tag.
#[verifier::external_body]
fn exif_text(e: &exif::Exif, detail: bool, tag: u16) -> (r: Option<Vec<u8>>)
    ensures
        (match r {
            Some(b) => Some(b@),
            None => None,
        }) == exif_text_of(*e, detail, tag),
{
    let table = if detail { exif::Context::Exif } else { exif::Context::Tiff };
    match &e.get_field(exif::Tag(table, tag), exif::In::PRIMARY)?.value {
        exif::Value::Ascii(v) => v.first().cloned(),
        _ => None,
    }
}

/// The first fraction under a tag of the second table.
pub uninterp spec fn exif_ratio_of(e: exif::Exif, tag: u16) -> Option<(u32, u32)>;

/// `Exif::get_field` of a tag of the primary picture: the first component of a rational
/// value as numerator and denominator.
#[verifier::external_body]
fn exif_ratio(e: &exif::Exif, tag: u16) -> (r: Option<(u32, u32)>)
    ensures
        r == exif_ratio_of(*e, tag),
{
    match &e.get_field(exif::Tag(exif::Context::Exif, tag), exif::In::PRIMARY)?.value {
        exif::Value::Rational(v) => v.first().map(|r| (r.num, r.denom)),
        _ => None,
    }
}

/// The first whole number under a tag of the second table.
pub uninterp spec fn exif_uint_of(e: exif::Exif, tag: u16) -> Option<u32>;

/// `Exif::get_field` and `Value::get_uint` of a tag of the primary picture.
#[verifier::external_body]
fn exif_uint(e: &exif::Exif, tag: u16) -> (r: Option<u32>)
    ensures
        r == exif_uint_of(*e, tag),
{
    e.get_field(exif::Tag(exif::Context::Exif, tag), exif::In::PRIMARY)?.value.get_uint(0)
}

/// What an original's file says of the shot. A fraction is a numerator and a
/// denominator that is not zero.
#[derive(Debug, PartialEq, Eq)]
pub struct Shot {
    pub camera: Option<String>,
    pub lens: Option<String>,
    pub captured_at: Option<String>,
    pub exposure: Option<(u32, u32)>,
    pub fnumber: Option<(u32, u32)>,
    pub focal: Option<(u32, u32)>,
    pub iso: Option<u32>,
}

/// The text under a tag, trimmed.
pub open spec fn tag_text(e: exif::Exif, detail: bool, tag: u16) -> Option<Seq<char>> {
    match exif_text_of(e, detail, tag) {
        Some(b) => Some(trim_of(lossy_of(b))),
        None => None,
    }
}

/// A text, or an empty one.
pub open spec fn or_blank(t: Option<Seq<char>>) -> Seq<char> {
    match t {
        Some(s) => s,
        None => Seq::empty(),
    }
}

/// A fraction that has a value.
pub open spec fn fraction(r: Option<(u32, u32)>) -> Option<(u32, u32)> {
    match r {
        Some((n, d)) => if d != 0 {
            Some((n, d))
        } else {
            None
        },
        None => None,
    }
}

/// A text that is not empty.
pub open spec fn not_blank(t: Option<Seq<char>>) -> Option<Seq<char>> {
    match t {
        Some(s) => if s.len() > 0 {
            Some(s)
        } else {
            None
        },
        None => None,
    }
}

/// What a chunk of EXIF says of the shot, but for the camera. The sensitivity was renamed
/// in EXIF 2.3; the older field counts where the newer is not there.
pub open spec fn settings_in(e: exif::Exif, s: Shot) -> bool {
    &&& opt_text(s.lens) == not_blank(tag_text(e, true, 0xa434))
    &&& opt_text(s.captured_at) == (match tag_text(e, true, 0x9003) {
        Some(t) => datetime_in(t),
        None => None,
    })
    &&& s.exposure == fraction(exif_ratio_of(e, 0x829a))
    &&& s.fnumber == fraction(exif_ratio_of(e, 0x829d))
    &&& s.focal == fraction(exif_ratio_of(e, 0x920a))
    &&& s.iso == (match exif_uint_of(e, 0x8827) {
        Some(n) => Some(n),
        None => exif_uint_of(e, 0x8833),
    })
}

/// What a chunk of EXIF says of the shot, given the known bodies.
pub open spec fn shot_in(e: exif::Exif, known: Seq<KnownCamera>, s: Shot) -> bool {
    opt_text(s.camera) == composed(
        known,
        or_blank(tag_text(e, false, 0x10f)),
        or_blank(tag_text(e, false, 0x110)),
    ) && settings_in(e, s)
}

fn text_under(e: &exif::Exif, detail: bool, tag: u16) -> (r: Option<String>)
    ensures
        opt_text(r) == tag_text(*e, detail, tag),
{
    match exif_text(e, detail, tag) {
        Some(b) => {
            let t = lossy(b.as_slice());
            Some(trim(t.as_str()))
        },
        None => None,
    }
}

fn whole(r: Option<(u32, u32)>) -> (out: Option<(u32, u32)>)
    ensures
        out == fraction(r),
{
    match r {
        Some((n, d)) => if d != 0 {
            Some((n, d))
        } else {
            None
        },
        None => None,
    }
}

fn unless_none(t: Option<String>) -> (out: String)
    ensures
        out@ == or_blank(opt_text(t)),
{
    match t {
        Some(s) => s,
        None => {
            let s = String::new();
            assert(s@ =~= Seq::<char>::empty());
            s
        },
    }
}

/// What a chunk of EXIF that was read says of the shot, given the known bodies.
pub fn shot(e: &exif::Exif, known: &Vec<KnownCamera>) -> (s: Shot)
    ensures
        shot_in(*e, known@, s),
{
    let make = unless_none(text_under(e, false, 0x10f));
    let model = unless_none(text_under(e, false, 0x110));
    let camera = camera_name(known, make.as_str(), model.as_str());
    let lens = match text_under(e, true, 0xa434) {
        Some(t) => if t.as_str().is_empty() {
            None
        } else {
            Some(t)
        },
        None => None,
    };
    let captured_at = match text_under(e, true, 0x9003) {
        Some(t) => exif_datetime(t.as_str()),
        None => None,
    };
    let iso = match exif_uint(e, 0x8827) {
        Some(n) => Some(n),
        None => exif_uint(e, 0x8833),
    };
    Shot {
        camera,
        lens,
        captured_at,
        exposure: whole(exif_ratio(e, 0x829a)),
        fnumber: whole(exif_ratio(e, 0x829d)),
        focal: whole(exif_ratio(e, 0x920a)),
        iso,
    }
}

/// The mark that a chunk may still stand behind.
pub open spec fn exif_mark() -> Seq<u8> {
    seq![0x45u8, 0x78, 0x69, 0x66, 0, 0]
}

/// A chunk without the mark.
pub open spec fn unmarked(chunk: Seq<u8>) -> Seq<u8> {
    if exif_mark().is_prefix_of(chunk) {
        chunk.skip(6)
    } else {
        chunk
    }
}

fn without_mark(chunk: &[u8]) -> (out: Vec<u8>)
    ensures
        out@ == unmarked(chunk@),
{
    let marked = chunk.len() >= 6 && chunk[0] == 0x45 && chunk[1] == 0x78 && chunk[2] == 0x69
        && chunk[3] == 0x66 && chunk[4] == 0 && chunk[5] == 0;
    proof {
        if marked {
            assert(exif_mark() =~= chunk@.take(6));
        } else if exif_mark().is_prefix_of(chunk@) {
            assert(forall|k: int| 0 <= k < 6 ==> exif_mark()[k] == chunk@[k]);
            assert(exif_mark()[0] == chunk@[0] && exif_mark()[1] == chunk@[1] && exif_mark()[2]
                == chunk@[2] && exif_mark()[3] == chunk@[3] && exif_mark()[4] == chunk@[4]
                && exif_mark()[5] == chunk@[5]);
        }
    }
    let mut i: usize = if marked {
        6
    } else {
        0
    };
    let mut out: Vec<u8> = Vec::new();
    let ghost from = i as int;
    while i < chunk.len()
        invariant
            0 <= from <= i <= chunk.len(),
            out@ =~= chunk@.subrange(from, i as int),
        decreases chunk.len() - i,
    {
        assert(chunk@.subrange(from, i + 1) =~= chunk@.subrange(from, i as int).push(
            chunk@[i as int],
        ));
        out.push(chunk[i]);
        i = i + 1;
    }
    assert(out@ =~= unmarked(chunk@));
    out
}

/// What a raw chunk of EXIF says of the shot, or why it does not read. A partly broken
/// chunk still gives the fields that did parse.
pub fn exif_chunk_metadata(chunk: &[u8]) -> (r: Result<Shot, String>)
    ensures
        r is Ok <==> exif_in(unmarked(chunk@)) is Ok,
        r matches Ok(s) ==> {
            let e = exif_in(unmarked(chunk@))->Ok_0;
            &&& names_camera(
                or_blank(tag_text(e, false, 0x10f)),
                or_blank(tag_text(e, false, 0x110)),
                opt_text(s.camera),
            )
            &&& settings_in(e, s)
        },
        r matches Err(t) ==> t@ == "EXIF: "@ + exif_in(unmarked(chunk@))->Err_0,
{
    match read_exif(without_mark(chunk)) {
        Ok(e) => {
            let known = known_cameras();
            let s = shot(&e, &known);
            proof {
                lemma_table_names(
                    known@,
                    or_blank(tag_text(e, false, 0x10f)),
                    or_blank(tag_text(e, false, 0x110)),
                );
            }
            Ok(s)
        },
        Err(why) => Err("EXIF: ".to_string().concat(why.as_str())),
    }
}

/// What a camera raw file says of the shot: the names as they are written, the lens's
/// own name before the table's.
pub open spec fn raw_shot_of(
    make: Seq<char>,
    model: Seq<char>,
    lens_model: Option<Seq<char>>,
    lens_name: Option<Seq<char>>,
    clock: Option<Seq<char>>,
    s: Shot,
) -> bool {
    &&& opt_text(s.camera) == Some(trim_of(make + " "@ + model))
    &&& opt_text(s.lens) == (match lens_model {
        Some(l) => Some(l),
        None => lens_name,
    })
    &&& opt_text(s.captured_at) == (match clock {
        Some(t) => datetime_in(t),
        None => None,
    })
}

/// What a camera raw file says of the shot.
pub fn raw_shot(
    make: &str,
    model: &str,
    lens_model: Option<String>,
    lens_name: Option<String>,
    clock: Option<String>,
    fractions: (Option<(u32, u32)>, Option<(u32, u32)>, Option<(u32, u32)>),
    iso_ratings: Option<u16>,
    iso_speed: Option<u32>,
) -> (s: Shot)
    ensures
        raw_shot_of(make@, model@, opt_text(lens_model), opt_text(lens_name), opt_text(clock), s),
        s.exposure == fraction(fractions.0),
        s.fnumber == fraction(fractions.1),
        s.focal == fraction(fractions.2),
        s.iso == match iso_ratings {
            Some(n) => Some(n as u32),
            None => iso_speed,
        },
{
    let both = make.to_string().concat(" ").concat(model);
    Shot {
        camera: Some(trim(both.as_str())),
        lens: match lens_model {
            Some(l) => Some(l),
            None => lens_name,
        },
        captured_at: match clock {
            Some(t) => exif_datetime(t.as_str()),
            None => None,
        },
        exposure: whole(fractions.0),
        fnumber: whole(fractions.1),
        focal: whole(fractions.2),
        iso: match iso_ratings {
            Some(n) => Some(n as u32),
            None => iso_speed,
        },
    }
}

/// A file that says nothing of the shot.
pub fn no_shot() -> (s: Shot)
    ensures
        s == (Shot {
            camera: None,
            lens: None,
            captured_at: None,
            exposure: None,
            fnumber: None,
            focal: None,
            iso: None,
        }),
{
    Shot {
        camera: None,
        lens: None,
        captured_at: None,
        exposure: None,
        fnumber: None,
        focal: None,
        iso: None,
    }
}

/// A text, or null.
pub open spec fn text_or_null(t: Option<Seq<char>>) -> Tree {
    match t {
        Some(s) => Tree::Text(s),
        None => Tree::Null,
    }
}

/// A shot as it stands in a result. The fractions come as the numbers they are written
/// as.
pub open spec fn shot_tree(
    s: Shot,
    exposure: Tree,
    fnumber: Tree,
    focal: Tree,
    width: u64,
    height: u64,
) -> Tree {
    Tree::Object(
        seq![
            ("camera"@, text_or_null(opt_text(s.camera))),
            ("lens"@, text_or_null(opt_text(s.lens))),
            ("captured_at"@, text_or_null(opt_text(s.captured_at))),
            ("exposure_s"@, exposure),
            ("fnumber"@, fnumber),
            ("focal_mm"@, focal),
            (
                "iso"@,
                match s.iso {
                    Some(n) => Tree::Unsigned(n as u64),
                    None => Tree::Null,
                },
            ),
            ("width"@, Tree::Unsigned(width)),
            ("height"@, Tree::Unsigned(height)),
        ],
    )
}

fn nullable(t: &Option<String>) -> (j: Json)
    ensures
        j@ == text_or_null(opt_text(*t)),
{
    match t {
        Some(s) => text(s.as_str()),
        None => Json::Null,
    }
}

/// What is looked up in a shot's answer is that one thing of the shot: the exposure, the
/// f-number and the focal length each as it was handed in, what the camera wrote or null,
/// and the size.
pub proof fn law_a_shot_is_answered_field_by_field(
    s: Shot,
    exposure: Tree,
    fnumber: Tree,
    focal: Tree,
    width: u64,
    height: u64,
)
    ensures
        s.camera is Some ==> shot_tree(s, exposure, fnumber, focal, width, height).field("camera"@) == Some(Tree::Text(s.camera->0@)),
        s.camera is None ==> shot_tree(s, exposure, fnumber, focal, width, height).field("camera"@) == Some(Tree::Null),
        s.lens is Some ==> shot_tree(s, exposure, fnumber, focal, width, height).field("lens"@) == Some(Tree::Text(s.lens->0@)),
        s.lens is None ==> shot_tree(s, exposure, fnumber, focal, width, height).field("lens"@) == Some(Tree::Null),
        s.captured_at is Some ==> shot_tree(s, exposure, fnumber, focal, width, height).field("captured_at"@) == Some(Tree::Text(s.captured_at->0@)),
        s.captured_at is None ==> shot_tree(s, exposure, fnumber, focal, width, height).field("captured_at"@) == Some(Tree::Null),
        shot_tree(s, exposure, fnumber, focal, width, height).field("exposure_s"@) == Some(exposure),
        shot_tree(s, exposure, fnumber, focal, width, height).field("fnumber"@) == Some(fnumber),
        shot_tree(s, exposure, fnumber, focal, width, height).field("focal_mm"@) == Some(focal),
        s.iso is Some ==> shot_tree(s, exposure, fnumber, focal, width, height).field("iso"@) == Some(Tree::Unsigned(s.iso->0 as u64)),
        s.iso is None ==> shot_tree(s, exposure, fnumber, focal, width, height).field("iso"@) == Some(Tree::Null),
        shot_tree(s, exposure, fnumber, focal, width, height).field("width"@) == Some(Tree::Unsigned(width)),
        shot_tree(s, exposure, fnumber, focal, width, height).field("height"@) == Some(Tree::Unsigned(height)),
{
    reveal_with_fuel(entry_from, 10);
    reveal_strlit("camera");
    reveal_strlit("lens");
    reveal_strlit("captured_at");
    reveal_strlit("exposure_s");
    reveal_strlit("fnumber");
    reveal_strlit("focal_mm");
    reveal_strlit("iso");
    reveal_strlit("width");
    reveal_strlit("height");
    assert("camera"@.len() == 6);
    assert("lens"@.len() == 4);
    assert("captured_at"@.len() == 11);
    assert("exposure_s"@.len() == 10);
    assert("fnumber"@.len() == 7);
    assert("focal_mm"@.len() == 8);
    assert("iso"@.len() == 3);
    assert("width"@.len() == 5);
    assert("height"@.len() == 6);
    assert("camera"@[0] != "height"@[0]);
}

/// A shot as it stands in a result.
pub fn metadata(
    s: &Shot,
    exposure: Json,
    fnumber: Json,
    focal: Json,
    width: u64,
    height: u64,
) -> (j: Json)
    ensures
        j@ == shot_tree(*s, exposure@, fnumber@, focal@, width, height),
        s.camera is Some ==> j@.field("camera"@) == Some(Tree::Text(s.camera->0@)),
        s.camera is None ==> j@.field("camera"@) == Some(Tree::Null),
        s.lens is Some ==> j@.field("lens"@) == Some(Tree::Text(s.lens->0@)),
        s.lens is None ==> j@.field("lens"@) == Some(Tree::Null),
        s.captured_at is Some ==> j@.field("captured_at"@) == Some(Tree::Text(s.captured_at->0@)),
        s.captured_at is None ==> j@.field("captured_at"@) == Some(Tree::Null),
        j@.field("exposure_s"@) == Some(exposure@),
        j@.field("fnumber"@) == Some(fnumber@),
        j@.field("focal_mm"@) == Some(focal@),
        s.iso is Some ==> j@.field("iso"@) == Some(Tree::Unsigned(s.iso->0 as u64)),
        s.iso is None ==> j@.field("iso"@) == Some(Tree::Null),
        j@.field("width"@) == Some(Tree::Unsigned(width)),
        j@.field("height"@) == Some(Tree::Unsigned(height)),
{
    proof {
        law_a_shot_is_answered_field_by_field(*s, exposure@, fnumber@, focal@, width, height);
    }
    let mut es = no_entries();
    put(&mut es, "camera", nullable(&s.camera));
    put(&mut es, "lens", nullable(&s.lens));
    put(&mut es, "captured_at", nullable(&s.captured_at));
    put(&mut es, "exposure_s", exposure);
    put(&mut es, "fnumber", fnumber);
    put(&mut es, "focal_mm", focal);
    let iso = match s.iso {
        Some(n) => Json::Unsigned(n as u64),
        None => Json::Null,
    };
    put(&mut es, "iso", iso);
    put(&mut es, "width", Json::Unsigned(width));
    put(&mut es, "height", Json::Unsigned(height));
    assert(entry_trees(es@) =~= shot_tree(
        *s,
        exposure@,
        fnumber@,
        focal@,
        width,
        height,
    )->Object_0);
    object(es)
}

// ------------------------------------------------------------- green plane --

/// A rectangle of a sensor.
#[derive(Debug, Clone, Copy, PartialEq, Eq)]
pub struct Area {
    pub x: usize,
    pub y: usize,
    pub w: usize,
    pub h: usize,
}

/// The picture on a sensor: its crop, else its active area, else all of it, from an even
/// corner on. The masked borders are black, and a black edge is the sharpest thing in
/// any frame.
pub open spec fn picture_of(crop: Option<Area>, active: Option<Area>, w: usize, h: usize) -> Area {
    match (crop, active) {
        (Some(a), _) => Area { x: (a.x - a.x % 2) as usize, y: (a.y - a.y % 2) as usize, ..a },
        (None, Some(a)) => Area { x: (a.x - a.x % 2) as usize, y: (a.y - a.y % 2) as usize, ..a },
        (None, None) => Area { x: 0, y: 0, w, h },
    }
}

/// The picture on a sensor.
pub fn picture(crop: Option<Area>, active: Option<Area>, w: usize, h: usize) -> (a: Area)
    ensures
        a == picture_of(crop, active, w, h),
{
    match (crop, active) {
        (Some(a), _) => Area { x: a.x - a.x % 2, y: a.y - a.y % 2, w: a.w, h: a.h },
        (None, Some(a)) => Area { x: a.x - a.x % 2, y: a.y - a.y % 2, w: a.w, h: a.h },
        (None, None) => Area { x: 0, y: 0, w, h },
    }
}

/// The colours of a sensor's cells, as a pattern that repeats: 1 is green.
#[derive(Debug, PartialEq, Eq)]
pub struct Mosaic {
    pub width: usize,
    pub height: usize,
    pub colors: Vec<u8>,
}

impl Mosaic {
    /// The pattern is whole.
    pub open spec fn wf(&self) -> bool {
        self.width > 0 && self.height > 0 && self.colors@.len() == self.width * self.height
    }

    /// Is the cell at column `x` and row `y` green?
    pub open spec fn green(&self, x: int, y: int) -> bool {
        self.colors@[(y % self.height as int) * self.width + x % self.width as int] == 1
    }

    fn is_green(&self, x: usize, y: usize) -> (r: bool)
        requires
            self.wf(),
        ensures
            r == self.green(x as int, y as int),
    {
        let (px, py) = (x % self.width, y % self.height);
        proof {
            lemma_at(px as int, py as int, self.width as int, self.height as int);
            assert(0 <= py * self.width) by (nonlinear_arith);
        }
        let cells = self.colors.len();
        assert(py * self.width + px < cells);
        self.colors[py * self.width + px] == 1
    }
}

/// What one cell adds to the green of a block: its value and one, where it is green.
pub open spec fn green_of(data: Seq<u16>, w: int, m: Mosaic, x: int, y: int) -> (int, int) {
    if m.green(x, y) {
        (data[y * w + x] as int, 1)
    } else {
        (0, 0)
    }
}

/// The sum of the green cells of a block of two by two, and how many there are.
pub open spec fn block_of(data: Seq<u16>, w: int, m: Mosaic, x: int, y: int) -> (int, int) {
    let a = green_of(data, w, m, x, y);
    let b = green_of(data, w, m, x + 1, y);
    let c = green_of(data, w, m, x, y + 1);
    let d = green_of(data, w, m, x + 1, y + 1);
    (a.0 + b.0 + c.0 + d.0, a.1 + b.1 + c.1 + d.1)
}

fn green_cell(data: &[u16], w: usize, h: usize, m: &Mosaic, x: usize, y: usize) -> (r: (u32, u32))
    requires
        m.wf(),
        data@.len() == w * h,
        x < w,
        y < h,
    ensures
        (r.0 as int, r.1 as int) == green_of(data@, w as int, *m, x as int, y as int),
        r.0 <= 65535,
        r.1 <= 1,
{
    if m.is_green(x, y) {
        proof {
            lemma_at(x as int, y as int, w as int, h as int);
            assert(0 <= y * w) by (nonlinear_arith);
        }
        let cells = data.len();
        assert(y * w + x < cells);
        (data[y * w + x] as u32, 1)
    } else {
        (0, 0)
    }
}

/// The sum of the green cells of the block at column `gx` and row `gy` of a picture, and
/// how many there are: one pixel of the half-resolution plane.
pub fn green_block(
    data: &[u16],
    w: usize,
    h: usize,
    m: &Mosaic,
    area: &Area,
    gx: usize,
    gy: usize,
) -> (r: (u32, u32))
    requires
        m.wf(),
        data@.len() == w * h,
        area.x + 2 * gx + 1 < w,
        area.y + 2 * gy + 1 < h,
    ensures
        (r.0 as int, r.1 as int) == block_of(
            data@,
            w as int,
            *m,
            area.x + 2 * gx,
            area.y + 2 * gy,
        ),
{
    let (x, y) = (area.x + 2 * gx, area.y + 2 * gy);
    let a = green_cell(data, w, h, m, x, y);
    let b = green_cell(data, w, h, m, x + 1, y);
    let c = green_cell(data, w, h, m, x, y + 1);
    let d = green_cell(data, w, h, m, x + 1, y + 1);
    (a.0 + b.0 + c.0 + d.0, a.1 + b.1 + c.1 + d.1)
}

// --------------------------------------------------------------------- laws --

/// Where the first row and the first column of a stored picture come to stand: the eight
/// orientations as the format numbers them.
pub proof fn law_where_the_first_row_and_column_go(w: int, h: int, o: u8, x: int, y: int)
    requires
        w > 0,
        h > 0,
        1 <= o <= 8,
        0 <= x < turned(w, h, o).0,
        0 <= y < turned(w, h, o).1,
    ensures
        o == 1 || o == 2 ==> (source(w, h, o, x, y).1 == 0 <==> y == 0),
        o == 3 || o == 4 ==> (source(w, h, o, x, y).1 == 0 <==> y == h - 1),
        o == 5 || o == 8 ==> (source(w, h, o, x, y).1 == 0 <==> x == 0),
        o == 6 || o == 7 ==> (source(w, h, o, x, y).1 == 0 <==> x == h - 1),
        o == 1 || o == 4 ==> (source(w, h, o, x, y).0 == 0 <==> x == 0),
        o == 2 || o == 3 ==> (source(w, h, o, x, y).0 == 0 <==> x == w - 1),
        o == 5 || o == 6 ==> (source(w, h, o, x, y).0 == 0 <==> y == 0),
        o == 7 || o == 8 ==> (source(w, h, o, x, y).0 == 0 <==> y == w - 1),
        0 <= source(w, h, o, x, y).0 < w,
        0 <= source(w, h, o, x, y).1 < h,
{
}

/// Which tags a shot is read from: the lens from the lens model, the moment from the
/// original's date, and the exposure, the f-number, the focal length and the sensitivity each
/// from its own tag. A fraction over nothing says nothing.
pub proof fn law_each_setting_has_its_tag(e: exif::Exif, s: Shot)
    requires
        settings_in(e, s),
    ensures
        (s.lens is Some ==> tag_text(e, true, 0xa434) == Some(s.lens->0@)),
        s.lens is None <==> tag_text(e, true, 0xa434) is None || tag_text(e, true, 0xa434)->0.len()
            == 0,
        s.captured_at is Some ==> tag_text(e, true, 0x9003) is Some && datetime_in(
            tag_text(e, true, 0x9003)->0,
        ) == Some(s.captured_at->0@),
        s.exposure is Some ==> s.exposure == exif_ratio_of(e, 0x829a) && s.exposure->Some_0.1 != 0,
        s.exposure is None <==> exif_ratio_of(e, 0x829a) is None || exif_ratio_of(e, 0x829a)->Some_0.1
            == 0,
        s.fnumber is Some ==> s.fnumber == exif_ratio_of(e, 0x829d) && s.fnumber->Some_0.1 != 0,
        s.fnumber is None <==> exif_ratio_of(e, 0x829d) is None || exif_ratio_of(e, 0x829d)->Some_0.1
            == 0,
        s.focal is Some ==> s.focal == exif_ratio_of(e, 0x920a) && s.focal->Some_0.1 != 0,
        s.focal is None <==> exif_ratio_of(e, 0x920a) is None || exif_ratio_of(e, 0x920a)->Some_0.1 == 0,
        exif_uint_of(e, 0x8827) is Some ==> s.iso == exif_uint_of(e, 0x8827),
        exif_uint_of(e, 0x8827) is None ==> s.iso == exif_uint_of(e, 0x8833),
{
}

/// A raw file's own lens model goes before the name that was looked up for it, and its
/// clock is read as any other.
pub proof fn law_a_raw_shot_prefers_its_own_words(
    make: Seq<char>,
    model: Seq<char>,
    lens_model: Option<Seq<char>>,
    lens_name: Option<Seq<char>>,
    clock: Option<Seq<char>>,
    s: Shot,
)
    requires
        raw_shot_of(make, model, lens_model, lens_name, clock, s),
    ensures
        s.camera is Some && s.camera->0@ == trim_of(make + " "@ + model),
        lens_model is Some ==> s.lens is Some && s.lens->0@ == lens_model->0,
        lens_model is None && lens_name is Some ==> s.lens is Some && s.lens->0@ == lens_name->0,
        lens_model is None && lens_name is None ==> s.lens is None,
        clock is None ==> s.captured_at is None,
        s.captured_at is Some ==> datetime_in(clock->0) == Some(s.captured_at->0@),
{
}

/// The picture starts at an even corner, at most one further out than it was told, and is as
/// large as it was told: the crop where there is one, else the active area, else everything.
pub proof fn law_a_picture_starts_even(crop: Option<Area>, active: Option<Area>, w: usize, h: usize)
    ensures
        ({
            let a = picture_of(crop, active, w, h);
            let told = if crop is Some {
                crop->0
            } else if active is Some {
                active->0
            } else {
                Area { x: 0, y: 0, w, h }
            };
            &&& a.x as int % 2 == 0 && a.y as int % 2 == 0
            &&& a.x <= told.x <= a.x + 1
            &&& a.y <= told.y <= a.y + 1
            &&& a.w == told.w && a.h == told.h
        }),
{
}

/// The number of each orientation, as the format gives it; one that is not known is upright.
pub proof fn law_the_number_of_an_orientation(o: Orientation)
    ensures
        o is Normal || o is Unknown <==> exif_number(o) == 1,
        o is HorizontalFlip <==> exif_number(o) == 2,
        o is Rotate180 <==> exif_number(o) == 3,
        o is VerticalFlip <==> exif_number(o) == 4,
        o is Transpose <==> exif_number(o) == 5,
        o is Rotate90 <==> exif_number(o) == 6,
        o is Transverse <==> exif_number(o) == 7,
        o is Rotate270 <==> exif_number(o) == 8,
{
}

/// A moment is read only where a date and a time stand behind each other, and only where the
/// date is of a year; what is read is the date with hyphens, the letter between, and the time to
/// the second.
pub proof fn law_when_a_moment_is_read(s: Seq<char>)
    ensures
        datetime_in(s) is Some <==> split_once_of(trim_of(s), ' ') is Some && is_date(
            split_once_of(trim_of(s), ' ')->Some_0.0,
        ) && starts_with_time(split_once_of(trim_of(s), ' ')->Some_0.1) && !"0000"@.is_prefix_of(
            split_once_of(trim_of(s), ' ')->Some_0.0,
        ),
        datetime_in(s) matches Some(t) ==> t == replace_char_of(
            split_once_of(trim_of(s), ' ')->Some_0.0,
            ':',
            "-"@,
        ) + "T"@ + split_once_of(trim_of(s), ' ')->Some_0.1.take(8),
        forall|d: Seq<char>| #[trigger]
            is_date(d) ==> d.len() == 10 && d[4] == ':' && d[7] == ':' && forall|i: int|
                0 <= i < 10 && i != 4 && i != 7 ==> digit(#[trigger] d[i]),
        forall|d: Seq<char>| #[trigger]
            starts_with_time(d) ==> d.len() >= 8 && d[2] == ':' && d[5] == ':' && forall|i: int|
                0 <= i < 8 && i != 2 && i != 5 ==> digit(#[trigger] d[i]),
{
}

/// A camera is called by its model where that begins with its make, however written, and by make
/// and model otherwise.
pub proof fn law_what_a_camera_is_called(make: Seq<char>, model: Seq<char>)
    ensures
        make.len() > 0 && lowercase_of(make).is_prefix_of(lowercase_of(model)) && model.len() > 0
            ==> camera_of(make, model) == Some(model),
        !(make.len() > 0 && lowercase_of(make).is_prefix_of(lowercase_of(model))) && trim_of(
            make + " "@ + model,
        ).len() > 0 ==> camera_of(make, model) == Some(trim_of(make + " "@ + model)),
        camera_of(make, model) matches Some(n) ==> n.len() > 0,
{
}

/// A body is looked for by its make and its model, first in its plain mode and then in any; the
/// clean names are those of the first that was found, and a body that is not known keeps its own.
pub proof fn law_a_known_body_is_called_by_its_clean_names(
    known: Seq<KnownCamera>,
    make: Seq<char>,
    model: Seq<char>,
    plain: bool,
    i: int,
)
    requires
        0 <= i <= known.len(),
    ensures
        first_body(known, make, model, plain, i) matches Some(k) ==> i <= k < known.len()
            && known[k].make@ == make && known[k].model@ == model && (plain ==> known[k].mode@.len()
            == 0),
        first_body(known, make, model, plain, i) is None ==> forall|k: int|
            i <= k < known.len() ==> !((#[trigger] known[k]).make@ == make && known[k].model@ == model
                && (plain ==> known[k].mode@.len() == 0)),
        first_body(known, make, model, true, 0) matches Some(k) ==> clean_names(known, make, model)
            == (known[k].clean_make@, known[k].clean_model@),
        first_body(known, make, model, true, 0) is None && first_body(known, make, model, false, 0)
            is None ==> clean_names(known, make, model) == (make, model),
    decreases known.len() - i,
{
    if i < known.len() && !names_body(known[i], make, model, plain) {
        law_a_known_body_is_called_by_its_clean_names(known, make, model, plain, i + 1);
    }
}

/// What stands before a chunk's mark is the mark itself: a chunk without it is read as it is.
pub proof fn law_a_mark_is_taken_off_once(chunk: Seq<u8>)
    ensures
        seq![0x45u8, 0x78, 0x69, 0x66, 0, 0].is_prefix_of(chunk) ==> unmarked(chunk) == chunk.skip(6),
        !seq![0x45u8, 0x78, 0x69, 0x66, 0, 0].is_prefix_of(chunk) ==> unmarked(chunk) == chunk,
{
}

/// A block of the sensor adds up its green pixels and counts them; another colour adds nothing.
pub proof fn law_a_block_adds_up_its_greens(data: Seq<u16>, w: int, m: Mosaic, x: int, y: int)
    ensures
        m.green(x, y) ==> green_of(data, w, m, x, y) == (data[y * w + x] as int, 1int),
        !m.green(x, y) ==> green_of(data, w, m, x, y) == (0int, 0int),
        block_of(data, w, m, x, y).0 == green_of(data, w, m, x, y).0 + green_of(
            data,
            w,
            m,
            x + 1,
            y,
        ).0 + green_of(data, w, m, x, y + 1).0 + green_of(data, w, m, x + 1, y + 1).0,
        0 <= block_of(data, w, m, x, y).1 <= 4,
{
}

/// A picture's camera is told by the maker's tag and the model's tag, in that order, without the
/// space around them.
pub proof fn law_a_camera_has_its_tags(e: exif::Exif, known: Seq<KnownCamera>, s: Shot)
    requires
        shot_in(e, known, s),
        tag_text(e, false, 0x10f) is Some,
        tag_text(e, false, 0x110) is Some,
    ensures
        ({
            let names = clean_names(
                known,
                trim_of(tag_text(e, false, 0x10f)->Some_0),
                trim_of(tag_text(e, false, 0x110)->Some_0),
            );
            opt_text(s.camera) == camera_of(names.0, names.1)
        }),
{
}

/// A mosaic repeats its pattern, row by row: to the right with its width, and down with its
/// height.
pub proof fn law_a_mosaic_repeats(m: Mosaic, x: int, y: int)
    requires
        m.wf(),
        0 <= x,
        0 <= y,
    ensures
        x < m.width && y < m.height ==> m.green(x, y) == (m.colors@[y * m.width + x] == 1),
        m.green(x + m.width, y) == m.green(x, y),
        m.green(x, y + m.height) == m.green(x, y),
{
    let (w, h) = (m.width as int, m.height as int);
    vstd::arithmetic::div_mod::lemma_mod_add_multiples_vanish(x, w);
    vstd::arithmetic::div_mod::lemma_mod_add_multiples_vanish(y, h);
    assert((x + w) % w == x % w);
    assert((y + h) % h == y % h);
    if x < w && y < h {
        vstd::arithmetic::div_mod::lemma_small_mod(x as nat, w as nat);
        vstd::arithmetic::div_mod::lemma_small_mod(y as nat, h as nat);
    }
}

} // verus!
