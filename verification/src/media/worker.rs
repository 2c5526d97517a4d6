//! The worker: everything from "the original is in the bucket" to "here is the result",
//! and how the result is sent.

use vstd::arithmetic::power2::*;
use vstd::prelude::*;
use vstd::string::*;

use crate::digest::{fed, hmac_sha256, hmac_sha256_of, sha256_of};
use crate::json::{Json, Tree, entry_from, lemma_entry_at, entry_trees, no_entries, object, put, text};
use crate::media::keys::{key_in, parse_key};
use crate::media::routes::Job;
use crate::media::store::Download;
use crate::number::{dec, dec_of, hex, hex_of};
use crate::text::{rsplit_once, rsplit_once_of, same, strs};
use crate::text_map::TextMap;

verus! {

/// How often a result is sent before it is given up.
pub const CALLBACK_ATTEMPTS: u32 = 5;

/// The copy for sharing must stay under this many bytes.
pub const SHARE_MAX_BYTES: usize = 10485760;

// --------------------------------------------------------------- signature --

/// The signature of a body.
pub open spec fn signature_of(body: Seq<u8>, secret: Seq<char>) -> Seq<char> {
    "sha256="@ + hex_of(hmac_sha256_of(vstd::utf8::encode_utf8(secret), body))
}

/// The signature of a body: `sha256=` and the code of the raw body under the secret, in
/// hexadecimal.
pub fn signature(body: &[u8], secret: &str) -> (out: String)
    ensures
        out@ == signature_of(body@, secret@),
{
    let mac = hmac_sha256(secret.as_bytes(), body);
    let h = hex(mac.as_slice());
    "sha256=".to_string().concat(h.as_str())
}

// -------------------------------------------------------------- renditions --

/// The names of the three renditions, in order.
pub open spec fn rendition_at(i: int) -> Seq<char> {
    if i == 0 {
        "thumb"@
    } else if i == 1 {
        "share"@
    } else {
        "ai"@
    }
}

/// The name of a rendition.
pub fn rendition(i: usize) -> (name: String)
    ensures
        name@ == rendition_at(i as int),
{
    if i == 0 {
        "thumb".to_string()
    } else if i == 1 {
        "share".to_string()
    } else {
        "ai".to_string()
    }
}

/// The long edge of a rendition.
pub fn long_edge(i: usize) -> (n: u32)
    ensures
        n == if i == 0 {
            512u32
        } else if i == 1 {
            4096u32
        } else {
            1568u32
        },
{
    if i == 0 {
        512
    } else if i == 1 {
        4096
    } else {
        1568
    }
}

/// The quality that a rendition is first written with.
pub fn first_quality(name: &str) -> (q: u8)
    ensures
        q == if name@ == "thumb"@ {
            80u8
        } else {
            85u8
        },
{
    if same(name, "thumb") {
        80
    } else {
        85
    }
}

/// The quality that a rendition of `bytes` bytes is written with again: only the copy
/// for sharing, and only while it is too large.
pub open spec fn quality_after(name: Seq<char>, bytes: nat, q: u8) -> Option<u8> {
    if name == "share"@ && bytes >= SHARE_MAX_BYTES && q > 50 {
        Some((q - 10) as u8)
    } else {
        None
    }
}

/// The quality that a rendition is written with again, where it is.
pub fn next_quality(name: &str, bytes: usize, q: u8) -> (r: Option<u8>)
    ensures
        r == quality_after(name@, bytes as nat, q),
{
    if same(name, "share") && bytes >= SHARE_MAX_BYTES && q > 50 {
        Some(q - 10)
    } else {
        None
    }
}

/// A busy frame is written again with less and less quality, and never with less than
/// forty.
pub proof fn law_quality_goes_down_to_a_floor(name: Seq<char>, bytes: nat, q: u8)
    ensures
        quality_after(name, bytes, q) matches Some(n) ==> 40 < n < q,
{
}

// -------------------------------------------------------------- evaluation --

/// A rendition that was made.
#[derive(Debug, PartialEq, Eq)]
pub struct Rendition {
    pub name: String,
    pub width: u32,
    pub height: u32,
    pub bytes: usize,
}

/// A rendition as plain values.
pub struct RenditionView {
    pub name: Seq<char>,
    pub width: u32,
    pub height: u32,
    pub bytes: usize,
}

impl View for Rendition {
    type V = RenditionView;

    open spec fn view(&self) -> RenditionView {
        RenditionView {
            name: self.name@,
            width: self.width,
            height: self.height,
            bytes: self.bytes,
        }
    }
}

/// A list of renditions as plain values.
pub open spec fn renditions_of(v: Seq<Rendition>) -> Seq<RenditionView> {
    v.map_values(|r: Rendition| r@)
}

/// What the helper said of its work.
#[derive(Debug)]
pub struct Helper {
    pub develop: Option<String>,
    pub renditions: TextMap<(u32, u32)>,
    pub sharpness: Option<Json>,
    pub vision: Option<Json>,
    pub timings: Vec<(String, u64)>,
}

/// What the helper said, as plain values.
pub struct HelperView {
    pub develop: Seq<char>,
    pub renditions: Map<Seq<char>, (u32, u32)>,
    pub sharpness: Option<Tree>,
    pub vision: Tree,
    pub timings: Seq<(Seq<char>, u64)>,
}

/// Timings as plain values.
pub open spec fn timings_of(v: Seq<(String, u64)>) -> Seq<(Seq<char>, u64)> {
    v.map_values(|p: (String, u64)| (p.0@, p.1))
}

impl View for Helper {
    type V = HelperView;

    open spec fn view(&self) -> HelperView {
        HelperView {
            develop: match self.develop {
                Some(d) => d@,
                None => "coreimage"@,
            },
            renditions: self.renditions@,
            sharpness: match self.sharpness {
                Some(s) => Some(s@),
                None => None,
            },
            vision: match self.vision {
                Some(v) => v@,
                None => Tree::Null,
            },
            timings: timings_of(self.timings@),
        }
    }
}

/// Where an evaluation stands: what is to be done next.
#[derive(Debug, Clone, Copy, PartialEq, Eq, Structural)]
pub enum Stage {
    Download,
    Decode,
    /// The helper, where there is one.
    Helper,
    /// Read the helper's rendition of this number.
    Read(usize),
    /// Measure the sharpness that the helper did not.
    HelperSharpness,
    Sharpness,
    Develop,
    Colour,
    /// Store the rendition of this number.
    Put(usize),
    Done,
    Failed,
}

/// What came of a step.
pub enum Event {
    /// The original is here: what came, and how long it took.
    Downloaded(Download, u64),
    Decoded(Json, u64),
    Helped(Helper),
    /// There is no helper, or it failed.
    Unhelped,
    /// The helper's rendition was read: its size.
    Bytes(usize),
    Sharp(Json, u64),
    Developed(Vec<Rendition>, String, u64),
    Coloured(Json),
    /// A rendition is in the store; how long storing has taken so far.
    Stored(u64),
    /// The step failed.
    Broke(String),
}

/// What came of a step, as plain values.
pub enum EventView {
    Downloaded(Seq<u8>, u64),
    Decoded(Tree, u64),
    Helped(HelperView),
    Unhelped,
    Bytes(usize),
    Sharp(Tree, u64),
    Developed(Seq<RenditionView>, Seq<char>, u64),
    Coloured(Tree),
    Stored(u64),
    Broke(Seq<char>),
}

impl View for Event {
    type V = EventView;

    open spec fn view(&self) -> EventView {
        match self {
            Event::Downloaded(d, ms) => EventView::Downloaded(fed(d.hash), *ms),
            Event::Decoded(m, ms) => EventView::Decoded(m@, *ms),
            Event::Helped(h) => EventView::Helped(h@),
            Event::Unhelped => EventView::Unhelped,
            Event::Bytes(n) => EventView::Bytes(*n),
            Event::Sharp(s, ms) => EventView::Sharp(s@, *ms),
            Event::Developed(r, d, ms) => EventView::Developed(renditions_of(r@), d@, *ms),
            Event::Coloured(c) => EventView::Coloured(c@),
            Event::Stored(ms) => EventView::Stored(*ms),
            Event::Broke(e) => EventView::Broke(e@),
        }
    }
}

/// An evaluation: what is known so far and what is to be done next.
#[derive(Debug)]
pub struct Evaluation {
    pub job_id: String,
    pub photo_id: String,
    pub object: String,
    pub ext: String,
    pub stage: Stage,
    pub timings: TextMap<u64>,
    pub sha256: String,
    pub metadata: Json,
    pub helper: Option<Helper>,
    pub renditions: Vec<Rendition>,
    pub develop: String,
    pub sharp_backend: String,
    pub sharpness: Json,
    pub vision: Json,
    pub colour: Json,
    pub error: String,
}

/// An evaluation as plain values.
pub struct EvaluationView {
    pub job_id: Seq<char>,
    pub photo_id: Seq<char>,
    pub object: Seq<char>,
    pub ext: Seq<char>,
    pub stage: Stage,
    pub timings: Map<Seq<char>, u64>,
    pub sha256: Seq<char>,
    pub metadata: Tree,
    pub helper: Option<HelperView>,
    pub renditions: Seq<RenditionView>,
    pub develop: Seq<char>,
    pub sharp_backend: Seq<char>,
    pub sharpness: Tree,
    pub vision: Tree,
    pub colour: Tree,
    pub error: Seq<char>,
}

impl View for Evaluation {
    type V = EvaluationView;

    open spec fn view(&self) -> EvaluationView {
        EvaluationView {
            job_id: self.job_id@,
            photo_id: self.photo_id@,
            object: self.object@,
            ext: self.ext@,
            stage: self.stage,
            timings: self.timings@,
            sha256: self.sha256@,
            metadata: self.metadata@,
            helper: match self.helper {
                Some(h) => Some(h@),
                None => None,
            },
            renditions: renditions_of(self.renditions@),
            develop: self.develop@,
            sharp_backend: self.sharp_backend@,
            sharpness: self.sharpness@,
            vision: self.vision@,
            colour: self.colour@,
            error: self.error@,
        }
    }
}

/// Some timings, with more behind them: of two under one name the later counts.
pub open spec fn merged(m: Map<Seq<char>, u64>, more: Seq<(Seq<char>, u64)>) -> Map<Seq<char>, u64>
    decreases more.len(),
{
    if more.len() == 0 {
        m
    } else {
        merged(m, more.drop_last()).insert(more.last().0, more.last().1)
    }
}

/// A failed evaluation.
pub open spec fn broken(v: EvaluationView, why: Seq<char>) -> EvaluationView {
    EvaluationView { stage: Stage::Failed, error: why, ..v }
}

/// The helper's rendition `i` is read next, where it wrote one.
pub open spec fn reading(v: EvaluationView, i: int) -> EvaluationView {
    if v.helper->Some_0.renditions.contains_key(rendition_at(i)) {
        EvaluationView { stage: Stage::Read(i as usize), ..v }
    } else {
        broken(v, "helper wrote no "@ + rendition_at(i) + " rendition"@)
    }
}

/// The helper's renditions are read: the rest of what it said counts.
pub open spec fn helped(v: EvaluationView) -> EvaluationView {
    let h = v.helper->Some_0;
    let w = EvaluationView {
        develop: h.develop,
        timings: merged(v.timings, h.timings),
        vision: h.vision,
        helper: None,
        ..v
    };
    match h.sharpness {
        Some(s) => EvaluationView {
            sharp_backend: "metal"@,
            sharpness: s,
            stage: Stage::Colour,
            ..w
        },
        None => EvaluationView { stage: Stage::HelperSharpness, ..w },
    }
}

/// Everything is stored.
pub open spec fn stored(v: EvaluationView, ms: u64) -> EvaluationView {
    EvaluationView { timings: v.timings.insert("upload"@, ms), stage: Stage::Done, ..v }
}

/// Is there nothing more to do?
pub open spec fn over(v: EvaluationView) -> bool {
    v.stage == Stage::Done || v.stage == Stage::Failed
}

/// Where an evaluation stands after a step. A helper that fails does not lose the
/// result: the evaluation goes on without it. What does not belong to the stage changes
/// nothing.
pub open spec fn after(v: EvaluationView, e: EventView) -> EvaluationView {
    match (v.stage, e) {
        (Stage::Download, EventView::Downloaded(d, ms)) => EvaluationView {
            sha256: hex_of(sha256_of(d)),
            timings: v.timings.insert("download"@, ms),
            stage: Stage::Decode,
            ..v
        },
        (Stage::Decode, EventView::Decoded(m, ms)) => EvaluationView {
            metadata: m,
            timings: v.timings.insert("decode"@, ms),
            stage: Stage::Helper,
            ..v
        },
        (Stage::Helper, EventView::Helped(h)) => reading(
            EvaluationView { helper: Some(h), ..v },
            0,
        ),
        (Stage::Helper, EventView::Unhelped) => EvaluationView { stage: Stage::Sharpness, ..v },
        (Stage::Read(i), EventView::Bytes(n)) => {
            let name = rendition_at(i as int);
            let size = v.helper->Some_0.renditions[name];
            let w = EvaluationView {
                renditions: v.renditions.push(
                    RenditionView { name, width: size.0, height: size.1, bytes: n },
                ),
                ..v
            };
            if i < 2 {
                reading(w, i + 1)
            } else {
                helped(w)
            }
        },
        (Stage::HelperSharpness, EventView::Sharp(s, ms)) => EvaluationView {
            sharp_backend: "cpu"@,
            sharpness: s,
            timings: v.timings.insert("sharpness"@, ms),
            stage: Stage::Colour,
            ..v
        },
        (Stage::Sharpness, EventView::Sharp(s, ms)) => EvaluationView {
            sharp_backend: "cpu"@,
            sharpness: s,
            timings: v.timings.insert("sharpness"@, ms),
            stage: Stage::Develop,
            ..v
        },
        (Stage::Develop, EventView::Developed(r, d, ms)) => EvaluationView {
            renditions: r,
            develop: d,
            timings: v.timings.insert("develop"@, ms),
            vision: Tree::Null,
            stage: Stage::Colour,
            ..v
        },
        (Stage::Colour, EventView::Coloured(c)) => {
            let w = EvaluationView { colour: c, ..v };
            if v.renditions.len() == 0 {
                stored(w, 0)
            } else {
                EvaluationView { stage: Stage::Put(0), ..w }
            }
        },
        (Stage::Put(i), EventView::Stored(ms)) => if i + 1 < v.renditions.len() {
            EvaluationView { stage: Stage::Put((i + 1) as usize), ..v }
        } else {
            stored(v, ms)
        },
        (_, EventView::Broke(why)) => if over(v) {
            v
        } else {
            broken(v, why)
        },
        _ => v,
    }
}

/// What is to be done next.
#[derive(Debug, PartialEq, Eq)]
pub enum Action {
    /// Fetch this object of the originals into this file.
    Download(String, String),
    /// Decode the file, as a camera raw or as a JPEG.
    Decode(bool),
    Help,
    /// Read the helper's rendition of this name.
    Read(String),
    Sharpness,
    /// Develop the file with this extension.
    Develop(String),
    /// Look at the colour of this rendition, or of nothing.
    Colour(Option<usize>),
    /// Store this rendition as this object.
    Put(usize, String),
    /// Send the result.
    Answer,
    /// Send the failure.
    Fail,
}

/// What is to be done next, as plain values.
pub enum ActionView {
    Download(Seq<char>, Seq<char>),
    Decode(bool),
    Help,
    Read(Seq<char>),
    Sharpness,
    Develop(Seq<char>),
    Colour(Option<int>),
    Put(usize, Seq<char>),
    Answer,
    Fail,
}

impl View for Action {
    type V = ActionView;

    open spec fn view(&self) -> ActionView {
        match self {
            Action::Download(o, f) => ActionView::Download(o@, f@),
            Action::Decode(raw) => ActionView::Decode(*raw),
            Action::Help => ActionView::Help,
            Action::Read(n) => ActionView::Read(n@),
            Action::Sharpness => ActionView::Sharpness,
            Action::Develop(e) => ActionView::Develop(e@),
            Action::Colour(i) => ActionView::Colour(
                match i {
                    Some(k) => Some(*k as int),
                    None => None,
                },
            ),
            Action::Put(i, o) => ActionView::Put(*i, o@),
            Action::Answer => ActionView::Answer,
            Action::Fail => ActionView::Fail,
        }
    }
}

/// The first rendition from `i` on of a name.
pub open spec fn rendition_named(rs: Seq<RenditionView>, name: Seq<char>, i: int) -> Option<int>
    decreases rs.len() - i,
{
    if i < 0 || i >= rs.len() {
        None
    } else if rs[i].name == name {
        Some(i)
    } else {
        rendition_named(rs, name, i + 1)
    }
}

/// The object that a rendition is stored as.
pub open spec fn rendition_object(photo_id: Seq<char>, name: Seq<char>) -> Seq<char> {
    photo_id + "/"@ + name + ".jpg"@
}

/// What is to be done next.
pub open spec fn action_of(v: EvaluationView) -> ActionView {
    match v.stage {
        Stage::Download => ActionView::Download(v.object, "original."@ + v.ext),
        Stage::Decode => ActionView::Decode(v.ext == "arw"@),
        Stage::Helper => ActionView::Help,
        Stage::Read(i) => ActionView::Read(rendition_at(i as int)),
        Stage::HelperSharpness => ActionView::Sharpness,
        Stage::Sharpness => ActionView::Sharpness,
        Stage::Develop => ActionView::Develop(v.ext),
        Stage::Colour => ActionView::Colour(rendition_named(v.renditions, "ai"@, 0)),
        Stage::Put(i) => ActionView::Put(
            i,
            rendition_object(v.photo_id, v.renditions[i as int].name),
        ),
        Stage::Done => ActionView::Answer,
        Stage::Failed => ActionView::Fail,
    }
}

/// The first state of an evaluation.
pub open spec fn started(job: Job, object: Seq<char>, ext: Seq<char>) -> EvaluationView {
    EvaluationView {
        job_id: job.job_id@,
        photo_id: job.photo_id@,
        object,
        ext,
        stage: Stage::Download,
        timings: Map::empty(),
        sha256: Seq::empty(),
        metadata: Tree::Null,
        helper: None,
        renditions: Seq::empty(),
        develop: Seq::empty(),
        sharp_backend: Seq::empty(),
        sharpness: Tree::Null,
        vision: Tree::Null,
        colour: Tree::Null,
        error: Seq::empty(),
    }
}

/// The extension of an object.
pub open spec fn ext_of(object: Seq<char>) -> Seq<char> {
    match rsplit_once_of(object, '.') {
        Some((_, e)) => e,
        None => Seq::empty(),
    }
}

/// Start to evaluate a job, or say that its key is none.
pub fn evaluate(job: &Job) -> (r: Result<Evaluation, String>)
    ensures
        r is Ok <==> key_in(job.key@) is Some,
        r matches Ok(e) ==> e.wf() && e@ == started(
            *job,
            key_in(job.key@)->Some_0.1,
            ext_of(key_in(job.key@)->Some_0.1),
        ),
        r matches Err(t) ==> t@ == "bad key "@ + job.key@,
{
    match parse_key(job.key.as_str()) {
        None => Err("bad key ".to_string().concat(job.key.as_str())),
        Some((_, object)) => {
            let ext = match rsplit_once(object.as_str(), '.') {
                Some((_, e)) => e,
                None => String::new(),
            };
            let e = Evaluation {
                job_id: job.job_id.clone(),
                photo_id: job.photo_id.clone(),
                object,
                ext,
                stage: Stage::Download,
                timings: TextMap::new(),
                sha256: String::new(),
                metadata: Json::Null,
                helper: None,
                renditions: Vec::new(),
                develop: String::new(),
                sharp_backend: String::new(),
                sharpness: Json::Null,
                vision: Json::Null,
                colour: Json::Null,
                error: String::new(),
            };
            proof {
                let v = started(
                    *job,
                    key_in(job.key@)->Some_0.1,
                    ext_of(key_in(job.key@)->Some_0.1),
                );
                assert(e.renditions@.len() == 0);
                assert(e@.renditions =~= v.renditions);
                assert(e@.ext =~= v.ext);
                assert(e@.sha256 =~= v.sha256);
                assert(e@.develop =~= v.develop);
                assert(e@.sharp_backend =~= v.sharp_backend);
                assert(e@.error =~= v.error);
                assert(e@.timings =~= v.timings);
            }
            Ok(e)
        },
    }
}

impl Evaluation {
    /// The stage fits what is known.
    pub open spec fn wf(&self) -> bool {
        &&& self.timings.wf()
        &&& self.helper matches Some(h) ==> h.renditions.wf()
        &&& self.stage matches Stage::Read(i) ==> i < 3 && self.helper is Some
            && self.helper->Some_0.renditions@.contains_key(rendition_at(i as int))
        &&& self.stage matches Stage::Put(i) ==> i < self.renditions@.len()
    }

    fn time(&mut self, name: &str, ms: u64)
        requires
            old(self).timings.wf(),
        ensures
            final(self).timings.wf(),
            final(self).timings@ == old(self).timings@.insert(name@, ms),
            *final(self) == (Evaluation { timings: final(self).timings, ..*old(self) }),
    {
        self.timings.insert(name.to_string(), ms);
    }

    fn fail(&mut self, why: String)
        requires
            old(self).timings.wf(),
            old(self).helper matches Some(h) ==> h.renditions.wf(),
        ensures
            final(self).wf(),
            final(self)@ == broken(old(self)@, why@),
    {
        self.stage = Stage::Failed;
        self.error = why;
    }

    fn read(&mut self, i: usize)
        requires
            i < 3,
            old(self).timings.wf(),
            old(self).helper is Some,
            old(self).helper->Some_0.renditions.wf(),
        ensures
            final(self).wf(),
            final(self)@ == reading(old(self)@, i as int),
    {
        let name = rendition(i);
        let there = match &self.helper {
            Some(h) => h.renditions.get(name.as_str()).is_some(),
            None => false,
        };
        if there {
            self.stage = Stage::Read(i);
        } else {
            self.fail("helper wrote no ".to_string().concat(name.as_str()).concat(" rendition"));
        }
    }

    fn finish_help(&mut self)
        requires
            old(self).timings.wf(),
            old(self).helper is Some,
        ensures
            final(self).wf(),
            final(self)@ == helped(old(self)@),
    {
        let ghost before = self@;
        let taken = self.helper.take();
        match taken {
            None => {},
            Some(h) => {
                let ghost hv = h@;
                self.develop = match h.develop {
                    Some(d) => d,
                    None => "coreimage".to_string(),
                };
                self.vision = match h.vision {
                    Some(v) => v,
                    None => Json::Null,
                };
                let ghost all = timings_of(h.timings@);
                let ghost first = self.timings@;
                let ghost rest = *self;
                let mut i: usize = 0;
                assert(all.take(0) =~= Seq::empty());
                while i < h.timings.len()
                    invariant
                        i <= h.timings.len(),
                        all == timings_of(h.timings@),
                        self.timings.wf(),
                        self.timings@ == merged(first, all.take(i as int)),
                        *self == (Evaluation { timings: self.timings, ..rest }),
                    decreases h.timings.len() - i,
                {
                    assert(all.take(i + 1).drop_last() =~= all.take(i as int));
                    self.time(h.timings[i].0.as_str(), h.timings[i].1);
                    i = i + 1;
                }
                assert(all.take(i as int) =~= all);
                match h.sharpness {
                    Some(s) => {
                        self.sharp_backend = "metal".to_string();
                        self.sharpness = s;
                        self.stage = Stage::Colour;
                    },
                    None => {
                        self.stage = Stage::HelperSharpness;
                    },
                }
            },
        }
    }

    /// Take note of what came of a step.
    pub fn step(&mut self, e: Event)
        requires
            old(self).wf(),
            e matches Event::Helped(h) ==> h.renditions.wf(),
        ensures
            final(self).wf(),
            final(self)@ == after(old(self)@, e@),
    {
        let ghost v = self@;
        match e {
            Event::Broke(why) => {
                if self.stage != Stage::Done && self.stage != Stage::Failed {
                    self.fail(why);
                }
            },
            Event::Downloaded(d, ms) => if self.stage == Stage::Download {
                self.sha256 = d.sha256();
                self.time("download", ms);
                self.stage = Stage::Decode;
            },
            Event::Decoded(m, ms) => if self.stage == Stage::Decode {
                self.metadata = m;
                self.time("decode", ms);
                self.stage = Stage::Helper;
            },
            Event::Helped(h) => if self.stage == Stage::Helper {
                self.helper = Some(h);
                self.read(0);
            },
            Event::Unhelped => if self.stage == Stage::Helper {
                self.stage = Stage::Sharpness;
            },
            Event::Bytes(n) => match self.stage {
                Stage::Read(i) => {
                    let name = rendition(i);
                    let (width, height) = match &self.helper {
                        Some(h) => match h.renditions.get(name.as_str()) {
                            Some(size) => *size,
                            None => (0, 0),
                        },
                        None => (0, 0),
                    };
                    let ghost o = self.renditions@;
                    let r = Rendition { name, width, height, bytes: n };
                    self.renditions.push(r);
                    assert(renditions_of(self.renditions@) =~= renditions_of(o).push(r@));
                    if i < 2 {
                        self.read(i + 1);
                    } else {
                        self.finish_help();
                    }
                },
                _ => {},
            },
            Event::Sharp(s, ms) => {
                if self.stage == Stage::HelperSharpness {
                    self.sharp_backend = "cpu".to_string();
                    self.sharpness = s;
                    self.time("sharpness", ms);
                    self.stage = Stage::Colour;
                } else if self.stage == Stage::Sharpness {
                    self.sharp_backend = "cpu".to_string();
                    self.sharpness = s;
                    self.time("sharpness", ms);
                    self.stage = Stage::Develop;
                }
            },
            Event::Developed(r, d, ms) => if self.stage == Stage::Develop {
                self.renditions = r;
                self.develop = d;
                self.time("develop", ms);
                self.vision = Json::Null;
                self.stage = Stage::Colour;
            },
            Event::Coloured(c) => if self.stage == Stage::Colour {
                self.colour = c;
                if self.renditions.len() == 0 {
                    self.time("upload", 0);
                    self.stage = Stage::Done;
                } else {
                    self.stage = Stage::Put(0);
                }
            },
            Event::Stored(ms) => match self.stage {
                Stage::Put(i) => {
                    let n = self.renditions.len();
                    if i + 1 < n {
                        self.stage = Stage::Put(i + 1);
                    } else {
                        self.time("upload", ms);
                        self.stage = Stage::Done;
                    }
                },
                _ => {},
            },
        }
    }

    /// What is to be done next.
    pub fn action(&self) -> (a: Action)
        requires
            self.wf(),
        ensures
            a@ == action_of(self@),
    {
        match self.stage {
            Stage::Download => Action::Download(
                self.object.clone(),
                "original.".to_string().concat(self.ext.as_str()),
            ),
            Stage::Decode => Action::Decode(same(self.ext.as_str(), "arw")),
            Stage::Helper => Action::Help,
            Stage::Read(i) => Action::Read(rendition(i)),
            Stage::HelperSharpness => Action::Sharpness,
            Stage::Sharpness => Action::Sharpness,
            Stage::Develop => Action::Develop(self.ext.clone()),
            Stage::Colour => {
                let ghost rs = renditions_of(self.renditions@);
                let mut i: usize = 0;
                while i < self.renditions.len()
                    invariant
                        i <= self.renditions.len(),
                        rs == renditions_of(self.renditions@),
                        rendition_named(rs, "ai"@, i as int) == rendition_named(rs, "ai"@, 0),
                        self.stage == Stage::Colour,
                    decreases self.renditions.len() - i,
                {
                    assert(rs[i as int].name == self.renditions@[i as int].name@);
                    if same(self.renditions[i].name.as_str(), "ai") {
                        return Action::Colour(Some(i));
                    }
                    i = i + 1;
                }
                Action::Colour(None)
            },
            Stage::Put(i) => {
                let name = &self.renditions[i].name;
                Action::Put(
                    i,
                    self.photo_id.as_str().to_string().concat("/").concat(name.as_str()).concat(
                        ".jpg",
                    ),
                )
            },
            Stage::Done => Action::Answer,
            Stage::Failed => Action::Fail,
        }
    }
}

/// One rendition in the result.
pub open spec fn rendition_tree(photo_id: Seq<char>, r: RenditionView) -> Tree {
    Tree::Object(
        seq![
            ("key"@, Tree::Text("renditions/"@ + rendition_object(photo_id, r.name))),
            ("width"@, Tree::Unsigned(r.width as u64)),
            ("height"@, Tree::Unsigned(r.height as u64)),
            ("bytes"@, Tree::Unsigned(r.bytes as u64)),
        ],
    )
}

/// The renditions in the result.
pub open spec fn rendition_trees(photo_id: Seq<char>, rs: Seq<RenditionView>) -> Seq<
    (Seq<char>, Tree),
> {
    rs.map_values(|r: RenditionView| (r.name, rendition_tree(photo_id, r)))
}

/// The timings in the result, in the order of their names.
pub open spec fn timing_trees(ts: Seq<(Seq<char>, u64)>) -> Seq<(Seq<char>, Tree)> {
    ts.map_values(|t: (Seq<char>, u64)| (t.0, Tree::Unsigned(t.1)))
}

/// What did the work.
pub open spec fn backend_tree(v: EvaluationView) -> Tree {
    Tree::Object(
        seq![
            ("sharpness"@, Tree::Text(v.sharp_backend)),
            ("develop"@, Tree::Text(v.develop)),
            ("vision"@, Tree::Bool(v.vision != Tree::Null)),
        ],
    )
}

/// The result of an evaluation whose timings are listed.
pub open spec fn result_tree(v: EvaluationView, timings: Seq<(Seq<char>, u64)>) -> Tree {
    Tree::Object(
        seq![
            ("job_id"@, Tree::Text(v.job_id)),
            ("photo_id"@, Tree::Text(v.photo_id)),
            ("status"@, Tree::Text("done"@)),
            ("error"@, Tree::Null),
            ("backend"@, backend_tree(v)),
            ("sha256"@, Tree::Text(v.sha256)),
            ("metadata"@, v.metadata),
            ("renditions"@, Tree::Object(rendition_trees(v.photo_id, v.renditions))),
            ("sharpness"@, v.sharpness),
            ("vision"@, v.vision),
            ("colour"@, v.colour),
            ("timings_ms"@, Tree::Object(timing_trees(timings))),
        ],
    )
}

/// A rendition is answered by its key, which is the photo's and the rendition's own, its width,
/// its height and its size.
pub proof fn law_a_rendition_is_answered_whole(photo_id: Seq<char>, r: RenditionView)
    ensures
        rendition_tree(photo_id, r).field("key"@) == Some(Tree::Text("renditions/"@ + rendition_object(photo_id, r.name))),
        rendition_tree(photo_id, r).field("width"@) == Some(Tree::Unsigned(r.width as u64)),
        rendition_tree(photo_id, r).field("height"@) == Some(Tree::Unsigned(r.height as u64)),
        rendition_tree(photo_id, r).field("bytes"@) == Some(Tree::Unsigned(r.bytes as u64)),
{
    reveal_with_fuel(entry_from, 5);
    reveal_strlit("key");
    reveal_strlit("width");
    reveal_strlit("height");
    reveal_strlit("bytes");
    assert("key"@.len() == 3);
    assert("width"@.len() == 5);
    assert("height"@.len() == 6);
    assert("bytes"@.len() == 5);
    assert("width"@[0] != "bytes"@[0]);
}

/// What did the work is named: what measured, what developed, and whether anything looked.
pub proof fn law_the_backends_are_named(v: EvaluationView)
    ensures
        backend_tree(v).field("sharpness"@) == Some(Tree::Text(v.sharp_backend)),
        backend_tree(v).field("develop"@) == Some(Tree::Text(v.develop)),
        backend_tree(v).field("vision"@) == Some(Tree::Bool(v.vision != Tree::Null)),
{
    reveal_with_fuel(entry_from, 4);
    reveal_strlit("sharpness");
    reveal_strlit("develop");
    reveal_strlit("vision");
    assert("sharpness"@.len() == 9);
    assert("develop"@.len() == 7);
    assert("vision"@.len() == 6);
}

/// The result of an evaluation is looked up field by field, and each is the evaluation's own: the
/// job and the photo, the digest, what was read of the shot, the renditions, the sharpness, what
/// was seen, the colour and the timings. It says that it is done, and no error.
pub proof fn law_a_result_is_answered_whole(v: EvaluationView, timings: Seq<(Seq<char>, u64)>)
    ensures
        result_tree(v, timings).field("job_id"@) == Some(Tree::Text(v.job_id)),
        result_tree(v, timings).field("photo_id"@) == Some(Tree::Text(v.photo_id)),
        result_tree(v, timings).field("status"@) == Some(Tree::Text("done"@)),
        result_tree(v, timings).field("error"@) == Some(Tree::Null),
        result_tree(v, timings).field("backend"@) == Some(backend_tree(v)),
        result_tree(v, timings).field("sha256"@) == Some(Tree::Text(v.sha256)),
        result_tree(v, timings).field("metadata"@) == Some(v.metadata),
        result_tree(v, timings).field("renditions"@) == Some(Tree::Object(rendition_trees(v.photo_id, v.renditions))),
        result_tree(v, timings).field("sharpness"@) == Some(v.sharpness),
        result_tree(v, timings).field("vision"@) == Some(v.vision),
        result_tree(v, timings).field("colour"@) == Some(v.colour),
        result_tree(v, timings).field("timings_ms"@) == Some(Tree::Object(timing_trees(timings))),
{
    reveal_with_fuel(entry_from, 13);
    reveal_strlit("job_id");
    reveal_strlit("photo_id");
    reveal_strlit("status");
    reveal_strlit("error");
    reveal_strlit("backend");
    reveal_strlit("sha256");
    reveal_strlit("metadata");
    reveal_strlit("renditions");
    reveal_strlit("sharpness");
    reveal_strlit("vision");
    reveal_strlit("colour");
    reveal_strlit("timings_ms");
    assert("job_id"@.len() == 6);
    assert("photo_id"@.len() == 8);
    assert("status"@.len() == 6);
    assert("error"@.len() == 5);
    assert("backend"@.len() == 7);
    assert("sha256"@.len() == 6);
    assert("metadata"@.len() == 8);
    assert("renditions"@.len() == 10);
    assert("sharpness"@.len() == 9);
    assert("vision"@.len() == 6);
    assert("colour"@.len() == 6);
    assert("timings_ms"@.len() == 10);
    assert("job_id"@[0] != "status"@[0]);
    assert("job_id"@[0] != "sha256"@[0]);
    assert("job_id"@[0] != "vision"@[0]);
    assert("job_id"@[0] != "colour"@[0]);
    assert("photo_id"@[0] != "metadata"@[0]);
    assert("status"@[1] != "sha256"@[1]);
    assert("status"@[0] != "vision"@[0]);
    assert("status"@[0] != "colour"@[0]);
    assert("sha256"@[0] != "vision"@[0]);
    assert("sha256"@[0] != "colour"@[0]);
    assert("renditions"@[0] != "timings_ms"@[0]);
    assert("vision"@[0] != "colour"@[0]);
}

fn rendition_json(photo_id: &str, r: &Rendition) -> (j: Json)
    ensures
        j@ == rendition_tree(photo_id@, r@),
{
    let object_ = photo_id.to_string().concat("/").concat(r.name.as_str()).concat(".jpg");
    let key = "renditions/".to_string().concat(object_.as_str());
    let mut es = no_entries();
    put(&mut es, "key", text(key.as_str()));
    put(&mut es, "width", Json::Unsigned(r.width as u64));
    put(&mut es, "height", Json::Unsigned(r.height as u64));
    put(&mut es, "bytes", Json::Unsigned(r.bytes as u64));
    assert(entry_trees(es@) =~= rendition_tree(photo_id@, r@)->Object_0);
    object(es)
}

impl Evaluation {
    fn renditions_json(&self) -> (j: Json)
        ensures
            j@ == Tree::Object(rendition_trees(self.photo_id@, renditions_of(self.renditions@))),
    {
        let ghost want = rendition_trees(self.photo_id@, renditions_of(self.renditions@));
        let mut es = no_entries();
        let mut i: usize = 0;
        assert(entry_trees(es@) =~= want.take(0));
        while i < self.renditions.len()
            invariant
                i <= self.renditions.len(),
                want == rendition_trees(self.photo_id@, renditions_of(self.renditions@)),
                entry_trees(es@) == want.take(i as int),
            decreases self.renditions.len() - i,
        {
            let r = &self.renditions[i];
            put(&mut es, r.name.as_str(), rendition_json(self.photo_id.as_str(), r));
            assert(want.take(i + 1) =~= want.take(i as int).push(want[i as int]));
            i = i + 1;
        }
        assert(want.take(i as int) =~= want);
        object(es)
    }

    fn timings_json(&self) -> (j: Json)
        ensures
            j@ == Tree::Object(timing_trees(self.timings.listed())),
    {
        let ghost want = timing_trees(self.timings.listed());
        let mut es = no_entries();
        let mut i: usize = 0;
        assert(entry_trees(es@) =~= want.take(0));
        while i < self.timings.len()
            invariant
                i <= self.timings.listed().len(),
                want == timing_trees(self.timings.listed()),
                entry_trees(es@) == want.take(i as int),
            decreases self.timings.listed().len() - i,
        {
            put(
                &mut es,
                self.timings.key_at(i).as_str(),
                Json::Unsigned(*self.timings.value_at(i)),
            );
            assert(want.take(i + 1) =~= want.take(i as int).push(want[i as int]));
            i = i + 1;
        }
        assert(want.take(i as int) =~= want);
        object(es)
    }

    /// The result of a finished evaluation, and of it alone.
    pub fn result(self) -> (r: Option<Json>)
        ensures
            r is Some <==> self.stage == Stage::Done,
            r matches Some(j) ==> j@ == result_tree(self@, self.timings.listed()),
            r matches Some(j) ==> {
                &&& j@.field("job_id"@) == Some(Tree::Text(self.job_id@))
                &&& j@.field("photo_id"@) == Some(Tree::Text(self.photo_id@))
                &&& j@.field("status"@) == Some(Tree::Text("done"@))
                &&& j@.field("error"@) == Some(Tree::Null)
                &&& j@.field("sha256"@) == Some(Tree::Text(self.sha256@))
                &&& j@.field("metadata"@) == Some(self.metadata@)
                &&& j@.field("sharpness"@) == Some(self.sharpness@)
                &&& j@.field("vision"@) == Some(self.vision@)
                &&& j@.field("colour"@) == Some(self.colour@)
            },
    {
        proof {
            law_a_result_is_answered_whole(self@, self.timings.listed());
        }
        if self.stage != Stage::Done {
            return None;
        }
        let renditions = self.renditions_json();
        let timings = self.timings_json();
        let mut backend = no_entries();
        put(&mut backend, "sharpness", text(self.sharp_backend.as_str()));
        put(&mut backend, "develop", text(self.develop.as_str()));
        let seen = match &self.vision {
            Json::Null => false,
            _ => true,
        };
        put(&mut backend, "vision", Json::Bool(seen));
        assert(entry_trees(backend@) =~= backend_tree(self@)->Object_0);
        let mut es = no_entries();
        put(&mut es, "job_id", text(self.job_id.as_str()));
        put(&mut es, "photo_id", text(self.photo_id.as_str()));
        put(&mut es, "status", text("done"));
        put(&mut es, "error", Json::Null);
        put(&mut es, "backend", object(backend));
        put(&mut es, "sha256", text(self.sha256.as_str()));
        put(&mut es, "metadata", self.metadata);
        put(&mut es, "renditions", renditions);
        put(&mut es, "sharpness", self.sharpness);
        put(&mut es, "vision", self.vision);
        put(&mut es, "colour", self.colour);
        put(&mut es, "timings_ms", timings);
        assert(entry_trees(es@) =~= result_tree(self@, self.timings.listed())->Object_0);
        Some(object(es))
    }
}

/// A broken helper degrades the result instead of losing it: an evaluation that goes on
/// without one still finishes, whatever its other steps give, so long as none breaks.
pub proof fn law_a_broken_helper_falls_back(v: EvaluationView, s: Tree, ms: u64)
    requires
        v.stage == Stage::Helper,
    ensures
        after(v, EventView::Unhelped).stage == Stage::Sharpness,
        after(after(v, EventView::Unhelped), EventView::Sharp(s, ms)).stage == Stage::Develop,
        after(after(v, EventView::Unhelped), EventView::Sharp(s, ms)).sharp_backend == "cpu"@,
{
}

/// What is over stays as it is.
pub proof fn law_what_is_over_stays(v: EvaluationView, e: EventView)
    requires
        over(v),
    ensures
        after(v, e) == v,
{
}

/// A failed step fails the evaluation and says why.
pub proof fn law_a_failed_step_says_why(v: EvaluationView, why: Seq<char>)
    requires
        !over(v),
    ensures
        after(v, EventView::Broke(why)).stage == Stage::Failed,
        after(v, EventView::Broke(why)).error == why,
{
}

// ------------------------------------------------------------------ sending --

/// What is sent of a job that failed.
pub open spec fn failed_tree(job: Job, error: Seq<char>) -> Tree {
    Tree::Object(
        seq![
            ("job_id"@, Tree::Text(job.job_id@)),
            ("photo_id"@, Tree::Text(job.photo_id@)),
            ("status"@, Tree::Text("failed"@)),
            ("error"@, Tree::Text(error)),
            ("backend"@, Tree::Null),
            ("sha256"@, Tree::Null),
            ("metadata"@, Tree::Null),
            ("renditions"@, Tree::Null),
            ("sharpness"@, Tree::Null),
            ("vision"@, Tree::Null),
            ("colour"@, Tree::Null),
            ("timings_ms"@, Tree::Null),
        ],
    )
}

/// What is sent of a failed job names the job and the photo, says that it failed and why, and
/// holds nothing else.
pub proof fn law_a_failure_is_sent_whole(job: Job, error: Seq<char>)
    ensures
        failed_tree(job, error).field("job_id"@) == Some(Tree::Text(job.job_id@)),
        failed_tree(job, error).field("photo_id"@) == Some(Tree::Text(job.photo_id@)),
        failed_tree(job, error).field("status"@) == Some(Tree::Text("failed"@)),
        failed_tree(job, error).field("error"@) == Some(Tree::Text(error)),
        failed_tree(job, error).field("backend"@) == Some(Tree::Null),
        failed_tree(job, error).field("sha256"@) == Some(Tree::Null),
        failed_tree(job, error).field("metadata"@) == Some(Tree::Null),
        failed_tree(job, error).field("renditions"@) == Some(Tree::Null),
        failed_tree(job, error).field("sharpness"@) == Some(Tree::Null),
        failed_tree(job, error).field("vision"@) == Some(Tree::Null),
        failed_tree(job, error).field("colour"@) == Some(Tree::Null),
        failed_tree(job, error).field("timings_ms"@) == Some(Tree::Null),
{
    reveal_with_fuel(entry_from, 13);
    reveal_strlit("job_id");
    reveal_strlit("photo_id");
    reveal_strlit("status");
    reveal_strlit("error");
    reveal_strlit("backend");
    reveal_strlit("sha256");
    reveal_strlit("metadata");
    reveal_strlit("renditions");
    reveal_strlit("sharpness");
    reveal_strlit("vision");
    reveal_strlit("colour");
    reveal_strlit("timings_ms");
    assert("job_id"@.len() == 6);
    assert("photo_id"@.len() == 8);
    assert("status"@.len() == 6);
    assert("error"@.len() == 5);
    assert("backend"@.len() == 7);
    assert("sha256"@.len() == 6);
    assert("metadata"@.len() == 8);
    assert("renditions"@.len() == 10);
    assert("sharpness"@.len() == 9);
    assert("vision"@.len() == 6);
    assert("colour"@.len() == 6);
    assert("timings_ms"@.len() == 10);
    assert("job_id"@[0] != "status"@[0]);
    assert("job_id"@[0] != "sha256"@[0]);
    assert("job_id"@[0] != "vision"@[0]);
    assert("job_id"@[0] != "colour"@[0]);
    assert("photo_id"@[0] != "metadata"@[0]);
    assert("status"@[1] != "sha256"@[1]);
    assert("status"@[0] != "vision"@[0]);
    assert("status"@[0] != "colour"@[0]);
    assert("sha256"@[0] != "vision"@[0]);
    assert("sha256"@[0] != "colour"@[0]);
    assert("renditions"@[0] != "timings_ms"@[0]);
    assert("vision"@[0] != "colour"@[0]);
}

/// What is sent of a job that failed: the shape of a result, with nothing in it.
pub fn failed_body(job: &Job, error: &str) -> (j: Json)
    ensures
        j@ == failed_tree(*job, error@),
        j@.field("job_id"@) == Some(Tree::Text(job.job_id@)),
        j@.field("photo_id"@) == Some(Tree::Text(job.photo_id@)),
        j@.field("status"@) == Some(Tree::Text("failed"@)),
        j@.field("error"@) == Some(Tree::Text(error@)),
        j@.field("backend"@) == Some(Tree::Null),
        j@.field("sha256"@) == Some(Tree::Null),
        j@.field("metadata"@) == Some(Tree::Null),
        j@.field("renditions"@) == Some(Tree::Null),
        j@.field("sharpness"@) == Some(Tree::Null),
        j@.field("vision"@) == Some(Tree::Null),
        j@.field("colour"@) == Some(Tree::Null),
        j@.field("timings_ms"@) == Some(Tree::Null),
{
    proof {
        law_a_failure_is_sent_whole(*job, error@);
    }
    let mut es = no_entries();
    put(&mut es, "job_id", text(job.job_id.as_str()));
    put(&mut es, "photo_id", text(job.photo_id.as_str()));
    put(&mut es, "status", text("failed"));
    put(&mut es, "error", text(error));
    put(&mut es, "backend", Json::Null);
    put(&mut es, "sha256", Json::Null);
    put(&mut es, "metadata", Json::Null);
    put(&mut es, "renditions", Json::Null);
    put(&mut es, "sharpness", Json::Null);
    put(&mut es, "vision", Json::Null);
    put(&mut es, "colour", Json::Null);
    put(&mut es, "timings_ms", Json::Null);
    assert(entry_trees(es@) =~= failed_tree(*job, error@)->Object_0);
    object(es)
}

/// What follows one attempt to send a result.
#[derive(Debug, Clone, Copy, PartialEq, Eq, Structural)]
pub enum Sent {
    Accepted,
    /// Try again after this many seconds.
    Again(u64),
    GivenUp,
}

/// What follows an attempt: the pause doubles with each.
pub open spec fn sent(attempt: u32, attempts: u32, accepted: bool) -> Sent {
    if accepted {
        Sent::Accepted
    } else if attempt < attempts {
        Sent::Again(pow2((attempt - 1) as nat) as u64)
    } else {
        Sent::GivenUp
    }
}

/// What follows attempt `attempt` of `attempts` to send a result.
pub fn deliver(attempt: u32, attempts: u32, accepted: bool) -> (r: Sent)
    requires
        1 <= attempt <= attempts <= 65,
    ensures
        r == sent(attempt, attempts, accepted),
{
    if accepted {
        return Sent::Accepted;
    }
    if attempt >= attempts {
        return Sent::GivenUp;
    }
    let mut wait: u64 = 1;
    let mut k: u32 = 1;
    proof {
        lemma2_to64();
    }
    while k < attempt
        invariant
            1 <= k <= attempt < 65,
            wait == pow2((k - 1) as nat),
        decreases attempt - k,
    {
        proof {
            lemma_pow2_unfold(k as nat);
            lemma2_to64();
            lemma2_to64_rest();
            if k < 63 {
                lemma_pow2_strictly_increases(k as nat, 63);
            }
        }
        wait = wait * 2;
        k = k + 1;
    }
    Sent::Again(wait)
}

/// Seconds that a sender has paused before its attempt `attempt`.
pub open spec fn paused(attempt: nat) -> nat
    decreases attempt,
{
    if attempt <= 1 {
        0
    } else {
        paused((attempt - 1) as nat) + pow2((attempt - 2) as nat)
    }
}

/// The pauses before an attempt add up to one second less than the next pause.
pub proof fn law_pauses_double(attempt: nat)
    requires
        attempt >= 1,
    ensures
        paused(attempt) + 1 == pow2((attempt - 1) as nat),
    decreases attempt,
{
    lemma2_to64();
    if attempt > 1 {
        law_pauses_double((attempt - 1) as nat);
        lemma_pow2_unfold((attempt - 1) as nat);
    }
}

/// What is sent last: a result that nobody accepted is followed by a failure, so that a
/// receiver that recovers learns that the job will not be tried again.
pub open spec fn last_word_of(job: Job, done: bool, accepted: bool) -> Option<Tree> {
    if !accepted && done {
        Some(
            failed_tree(
                job,
                "callback not accepted after "@ + dec_of(CALLBACK_ATTEMPTS as nat) + " attempts"@,
            ),
        )
    } else {
        None
    }
}

/// What is sent last, where anything is.
pub fn last_word(job: &Job, done: bool, accepted: bool) -> (r: Option<Json>)
    ensures
        (match r {
            Some(j) => Some(j@),
            None => None,
        }) == last_word_of(*job, done, accepted),
{
    if !accepted && done {
        let why = "callback not accepted after ".to_string().concat(
            dec(CALLBACK_ATTEMPTS as u64).as_str(),
        ).concat(" attempts");
        Some(failed_body(job, why.as_str()))
    } else {
        None
    }
}

/// What the helper is started with.
pub fn helper_args(original: &str, green: &str, width: u64, height: u64, out: &str) -> (args: Vec<
    String,
>)
    ensures
        strs(args@) == seq![
            "--original"@,
            original@,
            "--green"@,
            green@,
            "--green-width"@,
            dec_of(width as nat),
            "--green-height"@,
            dec_of(height as nat),
            "--out"@,
            out@,
        ],
{
    let mut v: Vec<String> = Vec::new();
    v.push("--original".to_string());
    v.push(original.to_string());
    v.push("--green".to_string());
    v.push(green.to_string());
    v.push("--green-width".to_string());
    v.push(dec(width));
    v.push("--green-height".to_string());
    v.push(dec(height));
    v.push("--out".to_string());
    v.push(out.to_string());
    assert(strs(v@) =~= seq![
        "--original"@,
        original@,
        "--green"@,
        green@,
        "--green-width"@,
        dec_of(width as nat),
        "--green-height"@,
        dec_of(height as nat),
        "--out"@,
        out@,
    ]);
    v
}

// --------------------------------------------------------------------- laws --

/// A download gives the digest of the bytes that came and how long they took, and nothing
/// else of the result.
pub proof fn law_a_download_gives_the_digest(v: EvaluationView, bytes: Seq<u8>, ms: u64)
    requires
        v.stage == Stage::Download,
    ensures
        after(v, EventView::Downloaded(bytes, ms)).sha256 == hex_of(sha256_of(bytes)),
        after(v, EventView::Downloaded(bytes, ms)).timings == v.timings.insert("download"@, ms),
        after(v, EventView::Downloaded(bytes, ms)).stage == Stage::Decode,
        after(v, EventView::Downloaded(bytes, ms)).metadata == v.metadata,
        after(v, EventView::Downloaded(bytes, ms)).renditions == v.renditions,
        after(v, EventView::Downloaded(bytes, ms)).sharpness == v.sharpness,
        after(v, EventView::Downloaded(bytes, ms)).vision == v.vision,
        after(v, EventView::Downloaded(bytes, ms)).colour == v.colour,
{
}

/// Decoding gives what the camera wrote; the digest stays.
pub proof fn law_decoding_gives_the_metadata(v: EvaluationView, m: Tree, ms: u64)
    requires
        v.stage == Stage::Decode,
    ensures
        after(v, EventView::Decoded(m, ms)).metadata == m,
        after(v, EventView::Decoded(m, ms)).sha256 == v.sha256,
        after(v, EventView::Decoded(m, ms)).timings == v.timings.insert("decode"@, ms),
        after(v, EventView::Decoded(m, ms)).stage == Stage::Helper,
{
}

/// Who an evaluation is of never changes: neither the job nor the photo, neither the object
/// nor its kind, whatever happens.
pub proof fn law_an_evaluation_stays_of_its_photo(v: EvaluationView, e: EventView)
    ensures
        after(v, e).job_id == v.job_id,
        after(v, e).photo_id == v.photo_id,
        after(v, e).object == v.object,
        after(v, e).ext == v.ext,
{
}

/// An evaluation starts with the job's own name and the photo's own, and with nothing found
/// yet.
pub proof fn law_an_evaluation_starts_empty(job: Job, object: Seq<char>, ext: Seq<char>)
    ensures
        started(job, object, ext).job_id == job.job_id@,
        started(job, object, ext).photo_id == job.photo_id@,
        started(job, object, ext).object == object,
        started(job, object, ext).ext == ext,
        started(job, object, ext).stage == Stage::Download,
        started(job, object, ext).timings == Map::<Seq<char>, u64>::empty(),
        started(job, object, ext).renditions.len() == 0,
        started(job, object, ext).metadata == Tree::Null,
        started(job, object, ext).sharpness == Tree::Null,
        started(job, object, ext).vision == Tree::Null,
        started(job, object, ext).colour == Tree::Null,
{
}

/// A rendition that a helper wrote is taken under the name that was read, in the size that
/// the helper gave for it and with the bytes that were read; those before it stay.
pub proof fn law_a_read_rendition_is_the_helpers(v: EvaluationView, i: usize, n: usize)
    requires
        v.stage == Stage::Read(i),
        v.helper is Some,
    ensures
        ({
            let w = after(v, EventView::Bytes(n));
            let name = if i == 0 {
                "thumb"@
            } else if i == 1 {
                "share"@
            } else {
                "ai"@
            };
            &&& w.renditions.len() == v.renditions.len() + 1
            &&& w.renditions.drop_last() == v.renditions
            &&& w.renditions.last().name == name
            &&& w.renditions.last().width == v.helper->0.renditions[name].0
            &&& w.renditions.last().height == v.helper->0.renditions[name].1
            &&& w.renditions.last().bytes == n
        }),
{
    let w = after(v, EventView::Bytes(n));
    assert(w.renditions.drop_last() =~= v.renditions);
}

/// The last rendition that a helper wrote brings the rest of what it found: how it
/// developed, what it saw, its timings, and its sharpness where it measured one. Where it
/// measured none, the sharpness is still to come.
pub proof fn law_a_helper_gives_what_it_found(v: EvaluationView, n: usize)
    requires
        v.stage == Stage::Read(2),
        v.helper is Some,
    ensures
        ({
            let w = after(v, EventView::Bytes(n));
            let h = v.helper->0;
            &&& w.develop == h.develop
            &&& w.vision == h.vision
            &&& w.timings == merged(v.timings, h.timings)
            &&& w.sha256 == v.sha256
            &&& w.metadata == v.metadata
            &&& h.sharpness is Some ==> w.sharpness == h.sharpness->0 && w.sharp_backend
                == "metal"@ && w.stage == Stage::Colour
            &&& h.sharpness is None ==> w.sharpness == v.sharpness && w.stage
                == Stage::HelperSharpness
        }),
{
}

/// What was measured, developed and found of the colours is kept as it came, each in its own
/// place and nothing else changed with it.
pub proof fn law_each_step_keeps_its_own(
    v: EvaluationView,
    s: Tree,
    r: Seq<RenditionView>,
    d: Seq<char>,
    c: Tree,
    ms: u64,
)
    ensures
        v.stage == Stage::Sharpness || v.stage == Stage::HelperSharpness ==> {
            let w = after(v, EventView::Sharp(s, ms));
            &&& w.sharpness == s
            &&& w.sharp_backend == "cpu"@
            &&& w.timings == v.timings.insert("sharpness"@, ms)
            &&& w.vision == v.vision
            &&& w.colour == v.colour
            &&& w.renditions == v.renditions
        },
        v.stage == Stage::Develop ==> {
            let w = after(v, EventView::Developed(r, d, ms));
            &&& w.renditions == r
            &&& w.develop == d
            &&& w.timings == v.timings.insert("develop"@, ms)
            &&& w.vision == Tree::Null
            &&& w.sharpness == v.sharpness
            &&& w.colour == v.colour
        },
        v.stage == Stage::Colour ==> {
            let w = after(v, EventView::Coloured(c));
            &&& w.colour == c
            &&& w.sharpness == v.sharpness
            &&& w.vision == v.vision
            &&& w.renditions == v.renditions
            &&& w.metadata == v.metadata
            &&& (w.stage == Stage::Done <==> v.renditions.len() == 0)
        },
{
}

/// Every rendition is stored before an evaluation is done: it goes on to the next one until
/// the last, under the photo's name and the rendition's own.
pub proof fn law_every_rendition_is_stored(v: EvaluationView, i: usize, ms: u64)
    requires
        v.stage == Stage::Put(i),
        i < v.renditions.len(),
    ensures
        action_of(v) == ActionView::Put(
            i,
            v.photo_id + "/"@ + v.renditions[i as int].name + ".jpg"@,
        ),
        i + 1 < v.renditions.len() ==> after(v, EventView::Stored(ms)) == (EvaluationView {
            stage: Stage::Put((i + 1) as usize),
            ..v
        }),
        i + 1 == v.renditions.len() ==> after(v, EventView::Stored(ms)).stage == Stage::Done
            && after(v, EventView::Stored(ms)).timings == v.timings.insert("upload"@, ms),
        after(v, EventView::Stored(ms)).renditions == v.renditions,
{
}

/// The colours are read off the rendition that is made for machines: the first that is
/// named `ai`, and none where there is none.
pub proof fn law_colours_are_read_off_the_machines_copy(rs: Seq<RenditionView>, i: int)
    requires
        0 <= i <= rs.len(),
    ensures
        rendition_named(rs, "ai"@, i) matches Some(k) ==> i <= k < rs.len() && rs[k].name == "ai"@
            && forall|j: int| i <= j < k ==> (#[trigger] rs[j]).name != "ai"@,
        rendition_named(rs, "ai"@, i) is None ==> forall|j: int|
            i <= j < rs.len() ==> (#[trigger] rs[j]).name != "ai"@,
    decreases rs.len() - i,
{
    if i < rs.len() && rs[i].name != "ai"@ {
        law_colours_are_read_off_the_machines_copy(rs, i + 1);
    }
}

/// A shared copy that is too large is written again, ten lower, down to fifty; no other
/// rendition ever is, nor one that fits.
pub proof fn law_only_a_shared_copy_is_written_again(name: Seq<char>, bytes: nat, q: u8)
    ensures
        quality_after(name, bytes, q) is Some <==> name == "share"@ && bytes >= SHARE_MAX_BYTES && q
            > 50,
        quality_after(name, bytes, q) matches Some(n) ==> n == q - 10,
{
}

/// A result that was taken is never sent again; one that was not is, after a pause that
/// doubles with each attempt, until the attempts are used up.
pub proof fn law_a_result_is_sent_until_taken(attempt: u32, attempts: u32, accepted: bool)
    requires
        1 <= attempt <= attempts <= 65,
    ensures
        sent(attempt, attempts, accepted) == Sent::Accepted <==> accepted,
        sent(attempt, attempts, accepted) == Sent::GivenUp <==> !accepted && attempt == attempts,
        sent(attempt, attempts, accepted) is Again <==> !accepted && attempt < attempts,
        attempt == 1 < attempts && !accepted ==> sent(attempt, attempts, accepted) == Sent::Again(1),
        attempt + 1 < attempts && !accepted ==> sent(
            (attempt + 1) as u32,
            attempts,
            accepted,
        )->Again_0 == 2 * sent(attempt, attempts, accepted)->Again_0,
{
    lemma2_to64();
    if attempt + 1 < attempts && !accepted {
        lemma_pow2_unfold(attempt as nat);
        lemma2_to64_rest();
        if attempt < 63 {
            lemma_pow2_strictly_increases(attempt as nat, 63);
            if attempt > 1 {
                lemma_pow2_strictly_increases((attempt - 1) as nat, 63);
            }
        }
    }
}

/// Where nobody took a finished result, a failure is sent in its place, once; a result that
/// was taken, and a failure that was not, have no last word.
pub proof fn law_the_last_word_is_a_failure(job: Job, done: bool, accepted: bool)
    ensures
        last_word_of(job, done, accepted) is Some <==> done && !accepted,
        last_word_of(job, done, accepted) matches Some(t) ==> {
            &&& t.field("status"@) == Some(Tree::Text("failed"@))
            &&& t.field("job_id"@) == Some(Tree::Text(job.job_id@))
            &&& t.field("photo_id"@) == Some(Tree::Text(job.photo_id@))
        },
{
    law_a_failure_is_sent_whole(
        job,
        "callback not accepted after "@ + dec_of(CALLBACK_ATTEMPTS as nat) + " attempts"@,
    );
}

/// A rendition is looked up in a result under its own name, and is answered with its own
/// key, width, height and size.
pub proof fn law_a_rendition_is_found_under_its_name(
    photo_id: Seq<char>,
    rs: Seq<RenditionView>,
    i: int,
)
    requires
        0 <= i < rs.len(),
        forall|j: int| 0 <= j < i ==> (#[trigger] rs[j]).name != rs[i].name,
    ensures
        ({
            let t = Tree::Object(rendition_trees(photo_id, rs)).field(rs[i].name);
            &&& t is Some
            &&& t->0.field("key"@) == Some(
                Tree::Text("renditions/"@ + (photo_id + "/"@ + rs[i].name + ".jpg"@)),
            )
            &&& t->0.field("width"@) == Some(Tree::Unsigned(rs[i].width as u64))
            &&& t->0.field("height"@) == Some(Tree::Unsigned(rs[i].height as u64))
            &&& t->0.field("bytes"@) == Some(Tree::Unsigned(rs[i].bytes as u64))
        }),
{
    let es = rendition_trees(photo_id, rs);
    assert forall|j: int| 0 <= j < i implies (#[trigger] es[j]).0 != es[i].0 by {
        assert(rs[j].name != rs[i].name);
    }
    lemma_entry_at(es, 0, i);
    law_a_rendition_is_answered_whole(photo_id, rs[i]);
}

/// A timing is looked up in a result under its own name.
pub proof fn law_a_timing_is_found_under_its_name(ts: Seq<(Seq<char>, u64)>, i: int)
    requires
        0 <= i < ts.len(),
        forall|j: int| 0 <= j < i ==> (#[trigger] ts[j]).0 != ts[i].0,
    ensures
        Tree::Object(timing_trees(ts)).field(ts[i].0) == Some(Tree::Unsigned(ts[i].1)),
{
    let es = timing_trees(ts);
    assert forall|j: int| 0 <= j < i implies (#[trigger] es[j]).0 != es[i].0 by {
        assert(ts[j].0 != ts[i].0);
    }
    lemma_entry_at(es, 0, i);
}

/// A result is signed with the secret over its own bytes.
pub proof fn law_a_result_is_signed_over_its_bytes(body: Seq<u8>, secret: Seq<char>)
    ensures
        signature_of(body, secret) == "sha256="@ + hex_of(
            hmac_sha256_of(vstd::utf8::encode_utf8(secret), body),
        ),
        ext_of(secret) == (match rsplit_once_of(secret, '.') {
            Some(p) => p.1,
            None => Seq::empty(),
        }),
{
}

/// What is done at each stage: the original is fetched under its own object and kept with its
/// own ending, a raw is decoded as one, and what a helper wrote is read in its order.
pub proof fn law_what_is_done_at_each_stage(v: EvaluationView)
    ensures
        v.stage == Stage::Download ==> action_of(v) == ActionView::Download(
            v.object,
            "original."@ + v.ext,
        ),
        v.stage == Stage::Decode ==> (action_of(v) == ActionView::Decode(true) <==> v.ext == "arw"@),
        v.stage == Stage::Helper ==> action_of(v) is Help,
        v.stage == Stage::Read(0) ==> action_of(v) == ActionView::Read("thumb"@),
        v.stage == Stage::Read(1) ==> action_of(v) == ActionView::Read("share"@),
        v.stage == Stage::Read(2) ==> action_of(v) == ActionView::Read("ai"@),
        v.stage == Stage::Sharpness || v.stage == Stage::HelperSharpness <==> action_of(v)
            is Sharpness,
        v.stage == Stage::Develop ==> action_of(v) == ActionView::Develop(v.ext),
        v.stage == Stage::Done <==> action_of(v) is Answer,
        v.stage == Stage::Failed <==> action_of(v) is Fail,
{
}

/// A helper that wrote no rendition of a name fails the evaluation, and says which.
pub proof fn law_a_missing_rendition_is_named(v: EvaluationView, h: HelperView)
    requires
        v.stage == Stage::Helper,
    ensures
        h.renditions.contains_key("thumb"@) ==> after(v, EventView::Helped(h)).stage == Stage::Read(0),
        !h.renditions.contains_key("thumb"@) ==> after(v, EventView::Helped(h)).stage
            == Stage::Failed && after(v, EventView::Helped(h)).error == "helper wrote no "@
            + "thumb"@ + " rendition"@,
{
}

/// A rendition is seen by its name and its size, a list of them one by one; a timing by its name
/// and how long it took.
pub proof fn law_a_rendition_is_seen_whole(rs: Seq<Rendition>, ts: Seq<(String, u64)>, i: int)
    ensures
        renditions_of(rs).len() == rs.len(),
        timings_of(ts).len() == ts.len(),
        0 <= i < rs.len() ==> renditions_of(rs)[i].name == rs[i].name@ && renditions_of(rs)[i].width
            == rs[i].width && renditions_of(rs)[i].height == rs[i].height && renditions_of(rs)[i].bytes
            == rs[i].bytes,
        0 <= i < ts.len() ==> timings_of(ts)[i].0 == ts[i].0@ && timings_of(ts)[i].1 == ts[i].1,
{
}

/// An evaluation is seen field by field.
pub proof fn law_an_evaluation_is_seen_whole(e: Evaluation)
    ensures
        e@.job_id == e.job_id@,
        e@.photo_id == e.photo_id@,
        e@.object == e.object@,
        e@.ext == e.ext@,
        e@.stage == e.stage,
        e@.timings == e.timings@,
        e@.sha256 == e.sha256@,
        e@.metadata == e.metadata@,
        e@.helper is Some <==> e.helper is Some,
        e.helper is Some ==> e@.helper->Some_0 == e.helper->Some_0@,
        e@.renditions == renditions_of(e.renditions@),
        e@.develop == e.develop@,
        e@.sharp_backend == e.sharp_backend@,
        e@.sharpness == e.sharpness@,
        e@.vision == e.vision@,
        e@.colour == e.colour@,
        e@.error == e.error@,
{
}

/// What a helper left out: it developed with its own engine, and it saw nothing.
pub proof fn law_a_helper_is_seen_whole(h: Helper)
    ensures
        h.develop is Some ==> h@.develop == h.develop->Some_0@,
        h.develop is None ==> h@.develop == "coreimage"@,
        h@.renditions == h.renditions@,
        h@.sharpness is Some <==> h.sharpness is Some,
        h.sharpness is Some ==> h@.sharpness->Some_0 == h.sharpness->Some_0@,
        h.vision is Some ==> h@.vision == h.vision->Some_0@,
        h.vision is None ==> h@.vision == Tree::Null,
        h@.timings == timings_of(h.timings@),
{
}

/// An event is seen with all that it brings: the bytes, what was found, and how long it took.
pub proof fn law_an_event_is_seen_whole(e: Event)
    ensures
        e matches Event::Downloaded(d, ms) ==> e@ == EventView::Downloaded(fed(d.hash), ms),
        e matches Event::Decoded(m, ms) ==> e@ == EventView::Decoded(m@, ms),
        e matches Event::Helped(h) ==> e@ == EventView::Helped(h@),
        e is Unhelped <==> e@ is Unhelped,
        e matches Event::Bytes(n) ==> e@ == EventView::Bytes(n),
        e matches Event::Sharp(s, ms) ==> e@ == EventView::Sharp(s@, ms),
        e matches Event::Developed(r, d, ms) ==> e@ == EventView::Developed(renditions_of(r@), d@, ms),
        e matches Event::Coloured(c) ==> e@ == EventView::Coloured(c@),
        e matches Event::Stored(ms) ==> e@ == EventView::Stored(ms),
        e matches Event::Broke(why) ==> e@ == EventView::Broke(why@),
{
}

/// An action is seen with what it works on.
pub proof fn law_an_action_is_seen_whole(a: Action)
    ensures
        a matches Action::Download(o, f) ==> a@ == ActionView::Download(o@, f@),
        a matches Action::Decode(raw) ==> a@ == ActionView::Decode(raw),
        a is Help <==> a@ is Help,
        a matches Action::Read(n) ==> a@ == ActionView::Read(n@),
        a is Sharpness <==> a@ is Sharpness,
        a matches Action::Develop(e) ==> a@ == ActionView::Develop(e@),
        a matches Action::Colour(Some(k)) ==> a@ == ActionView::Colour(Some(k as int)),
        a matches Action::Colour(None) ==> a@ == ActionView::Colour(None),
        a matches Action::Put(i, o) ==> a@ == ActionView::Put(i, o@),
        a is Answer <==> a@ is Answer,
        a is Fail <==> a@ is Fail,
{
}

/// Storing is done when the last rendition is in the store: how long it took stands under
/// "upload", and nothing else changes.
pub proof fn law_storing_is_timed(v: EvaluationView, ms: u64, k: Seq<char>)
    ensures
        stored(v, ms).stage == Stage::Done,
        stored(v, ms).timings.contains_key("upload"@) && stored(v, ms).timings["upload"@] == ms,
        k != "upload"@ && v.timings.contains_key(k) ==> stored(v, ms).timings[k] == v.timings[k],
        stored(v, ms).renditions == v.renditions,
        stored(v, ms).sha256 == v.sha256,
        stored(v, ms).photo_id == v.photo_id,
{
}

} // verus!
