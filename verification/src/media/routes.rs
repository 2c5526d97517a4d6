//! The HTTP surface: what may be uploaded, stitched, queued and read.

use vstd::prelude::*;
use vstd::string::*;

use crate::json::{Json, Tree, entry_from, entry_trees, list, no_entries, object, put, single, text, trees};
use crate::media::errors::{MediaError, detail_of, kind_of};
use crate::media::keys::{PART_SIZE, Which, allowed_ext, allowed_ext_of, as_ints, count_parts, ext_ok, id_ok, key_in, original_name, parse_key, part_count, parts_planned, plan_parts, valid_id};
use crate::media::store::{Store, UPLOAD_URL_TTL, callback_allowed, callback_refused, form_encoded, grants, lemma_objects_join};
use crate::number::{dec, dec_of};
use crate::order::{lemma_permutation_hits, ranks, stable_order};
use crate::text::{debug, debug_of, last_before, lemma_last, lower, lower_of, same, starts_with, strs};
use crate::url::url_in;

verus! {

/// S3 allows this many parts.
pub const MAX_PARTS: u64 = 10000;

/// The longest that a signed URL may live.
pub const MAX_SIGN_TTL: u64 = 604800;

/// A refusal as plain values.
pub open spec fn error_view<T>(r: Result<T, MediaError>) -> Option<(Seq<char>, Seq<char>)> {
    match r {
        Ok(_) => None,
        Err(e) => Some((kind_of(e), detail_of(e))),
    }
}

// ----------------------------------------------------------------- uploads --

/// A wish to upload one file.
#[derive(Debug, PartialEq, Eq)]
pub struct StartUpload {
    pub photo_id: String,
    pub filename: String,
    pub size: u64,
    pub content_type: String,
}

/// An upload that may start: the object it makes and its parts.
#[derive(Debug, PartialEq, Eq)]
pub struct Upload {
    pub object: String,
    pub parts: Vec<(u16, u64)>,
}

/// What a browser plausibly sends as the type of an accepted file. A raw file has no
/// registered type, so it is empty or an octet stream.
pub open spec fn type_ok(t: Seq<char>) -> bool {
    t == ""@ || t == "application/octet-stream"@ || t == "image/jpeg"@ || t == "image/x-sony-arw"@
        || t == "image/arw"@
}

/// Why an upload is refused, where it is.
pub open spec fn upload_refused(req: StartUpload, max: u64) -> Option<Seq<char>> {
    if !id_ok(req.photo_id@) {
        Some("photo_id must match [A-Za-z0-9_-]{1,64}: "@ + debug_of(req.photo_id@))
    } else if allowed_ext_of(req.filename@) is None {
        Some(
            "not an accepted file type: "@ + debug_of(req.filename@)
                + " (accepts [\"arw\", \"jpg\", \"jpeg\"])"@,
        )
    } else if !type_ok(lower_of(req.content_type@)) {
        Some("not an accepted content type: "@ + debug_of(req.content_type@))
    } else if req.size == 0 || req.size > max {
        Some(
            "size "@ + dec_of(req.size as nat) + " is outside 1..="@ + dec_of(max as nat)
                + " bytes"@,
        )
    } else if part_count(req.size as int, PART_SIZE as int) > MAX_PARTS {
        Some("too many parts"@)
    } else {
        None
    }
}

/// The object that an upload makes.
pub open spec fn upload_object(req: StartUpload) -> Seq<char> {
    req.photo_id@ + "."@ + allowed_ext_of(req.filename@)->Some_0
}

proof fn lemma_upload_object(id: Seq<char>, ext: Seq<char>)
    requires
        id_ok(id),
        ext_ok(ext),
    ensures
        original_name(id + "."@ + ext),
{
    reveal_strlit(".");
    reveal_strlit("arw");
    reveal_strlit("jpg");
    reveal_strlit("jpeg");
    let obj = id + "."@ + ext;
    lemma_last(obj, '.', obj.len() as int);
    let j = last_before(obj, '.', obj.len() as int);
    assert(obj[id.len() as int] == '.');
    assert(forall|k: int| id.len() < k < obj.len() ==> obj[k] == ext[k - id.len() - 1]);
    assert(forall|k: int| 0 <= k < ext.len() ==> ext[k] != '.');
    assert(j == id.len());
    assert(obj.take(j) =~= id);
    assert(obj.skip(j + 1) =~= ext);
}

/// May this upload start, and as what?
pub fn start_upload(req: &StartUpload, max_upload: u64) -> (r: Result<Upload, MediaError>)
    ensures
        error_view(r) == match upload_refused(*req, max_upload) {
            Some(why) => Some(("refused"@, why)),
            None => None,
        },
        r matches Ok(u) ==> u.object@ == upload_object(*req) && original_name(u.object@) && as_ints(
            u.parts@,
        ) == parts_planned(req.size as int, PART_SIZE as int),
{
    if !valid_id(req.photo_id.as_str()) {
        let shown = debug(req.photo_id.as_str());
        return Err(
            MediaError::Refused(
                "photo_id must match [A-Za-z0-9_-]{1,64}: ".to_string().concat(shown.as_str()),
            ),
        );
    }
    let ext = match allowed_ext(req.filename.as_str()) {
        Some(e) => e,
        None => {
            let shown = debug(req.filename.as_str());
            return Err(
                MediaError::Refused(
                    "not an accepted file type: ".to_string().concat(shown.as_str()).concat(
                        " (accepts [\"arw\", \"jpg\", \"jpeg\"])",
                    ),
                ),
            );
        },
    };
    let low = lower(req.content_type.as_str());
    let t = low.as_str();
    if !(same(t, "") || same(t, "application/octet-stream") || same(t, "image/jpeg") || same(
        t,
        "image/x-sony-arw",
    ) || same(t, "image/arw")) {
        let shown = debug(req.content_type.as_str());
        return Err(
            MediaError::Refused(
                "not an accepted content type: ".to_string().concat(shown.as_str()),
            ),
        );
    }
    if req.size == 0 || req.size > max_upload {
        let size = dec(req.size);
        let max = dec(max_upload);
        return Err(
            MediaError::Refused(
                "size ".to_string().concat(size.as_str()).concat(" is outside 1..=").concat(
                    max.as_str(),
                ).concat(" bytes"),
            ),
        );
    }
    if count_parts(req.size, PART_SIZE) > MAX_PARTS {
        return Err(MediaError::Refused("too many parts".to_string()));
    }
    let parts = plan_parts(req.size, PART_SIZE);
    let object = req.photo_id.as_str().to_string().concat(".").concat(ext.as_str());
    proof {
        lemma_upload_object(req.photo_id@, ext@);
    }
    Ok(Upload { object, parts })
}

/// Where a browser sends each part of an upload, in order.
pub fn part_urls(store: &Store, upload: &Upload, upload_id: &str) -> (urls: Vec<String>)
    requires
        original_name(upload.object@),
    ensures
        urls@.len() == upload.parts@.len(),
        forall|i: int|
            0 <= i < urls@.len() ==> grants(
                (#[trigger] urls@[i])@,
                "PUT"@,
                store.public_originals,
                store.creds,
                Some(upload.object@),
                "&partNumber="@ + dec_of(upload.parts@[i].0 as nat) + "&uploadId="@ + form_encoded(
                    upload_id@,
                ),
                UPLOAD_URL_TTL as int,
            ),
{
    let mut urls: Vec<String> = Vec::new();
    let mut i: usize = 0;
    while i < upload.parts.len()
        invariant
            i <= upload.parts.len(),
            urls@.len() == i,
            original_name(upload.object@),
            forall|k: int|
                0 <= k < urls@.len() ==> grants(
                    (#[trigger] urls@[k])@,
                    "PUT"@,
                    store.public_originals,
                    store.creds,
                    Some(upload.object@),
                    "&partNumber="@ + dec_of(upload.parts@[k].0 as nat) + "&uploadId="@
                        + form_encoded(upload_id@),
                    UPLOAD_URL_TTL as int,
                ),
        decreases upload.parts.len() - i,
    {
        proof {
            lemma_objects_join(upload.object@);
        }
        urls.push(store.part_url(upload.object.as_str(), upload.parts[i].0, upload_id));
        i = i + 1;
    }
    urls
}

/// One part in the answer.
pub open spec fn part_tree(number: u16, url: Seq<char>) -> Tree {
    Tree::Object(seq![("number"@, Tree::Unsigned(number as u64)), ("url"@, Tree::Text(url))])
}

/// The parts in the answer.
pub open spec fn part_trees(parts: Seq<(u16, u64)>, urls: Seq<Seq<char>>) -> Seq<Tree> {
    Seq::new(parts.len(), |i: int| part_tree(parts[i].0, urls[i]))
}

/// What is answered to an upload that started at `now`.
pub open spec fn upload_tree(
    upload: Upload,
    upload_id: Seq<char>,
    urls: Seq<Seq<char>>,
    now: u64,
) -> Tree {
    Tree::Object(
        seq![
            ("upload_id"@, Tree::Text(upload_id)),
            ("key"@, Tree::Text("originals/"@ + upload.object@)),
            ("part_size"@, Tree::Unsigned(PART_SIZE)),
            ("parts"@, Tree::List(part_trees(upload.parts@, urls))),
            ("expires_at"@, Tree::Unsigned((now + UPLOAD_URL_TTL) as u64)),
        ],
    )
}

/// A part is answered by its number and by where it goes.
pub proof fn law_a_part_is_answered_whole(number: u16, url: Seq<char>)
    ensures
        part_tree(number, url).field("number"@) == Some(Tree::Unsigned(number as u64)),
        part_tree(number, url).field("url"@) == Some(Tree::Text(url)),
{
    reveal_with_fuel(entry_from, 3);
    reveal_strlit("number");
    reveal_strlit("url");
    assert("number"@.len() == 6);
    assert("url"@.len() == 3);
}

/// An upload is answered by the identity that the store gave it, the key of its original, how
/// large a part is, every part in its order with where it goes, and when its URLs expire.
pub proof fn law_an_upload_is_answered_whole(upload: Upload, upload_id: Seq<char>, urls: Seq<Seq<char>>, now: u64)
    ensures
        upload_tree(upload, upload_id, urls, now).field("upload_id"@) == Some(Tree::Text(upload_id)),
        upload_tree(upload, upload_id, urls, now).field("key"@) == Some(Tree::Text("originals/"@ + upload.object@)),
        upload_tree(upload, upload_id, urls, now).field("part_size"@) == Some(Tree::Unsigned(PART_SIZE)),
        upload_tree(upload, upload_id, urls, now).field("parts"@) is Some,
        upload_tree(upload, upload_id, urls, now).field("parts"@)->0.items().len() == upload.parts@.len(),
        forall|i: int|
            0 <= i < upload.parts@.len() ==> {
                let t = #[trigger] upload_tree(upload, upload_id, urls, now).field("parts"@)->0.items()[i];
                &&& t.field("number"@) == Some(Tree::Unsigned(upload.parts@[i].0 as u64))
                &&& t.field("url"@) == Some(Tree::Text(urls[i]))
            },
        upload_tree(upload, upload_id, urls, now).field("expires_at"@) == Some(Tree::Unsigned((now + UPLOAD_URL_TTL) as u64)),
{
    reveal_with_fuel(entry_from, 6);
    reveal_strlit("upload_id");
    reveal_strlit("key");
    reveal_strlit("part_size");
    reveal_strlit("parts");
    reveal_strlit("expires_at");
    assert("upload_id"@.len() == 9);
    assert("key"@.len() == 3);
    assert("part_size"@.len() == 9);
    assert("parts"@.len() == 5);
    assert("expires_at"@.len() == 10);
    assert("upload_id"@[0] != "part_size"@[0]);
    let t = upload_tree(upload, upload_id, urls, now);
    assert forall|i: int| 0 <= i < upload.parts@.len() implies {
        let t = #[trigger] t.field("parts"@)->0.items()[i];
        &&& t.field("number"@) == Some(Tree::Unsigned(upload.parts@[i].0 as u64))
        &&& t.field("url"@) == Some(Tree::Text(urls[i]))
    } by {
        law_a_part_is_answered_whole(upload.parts@[i].0, urls[i]);
        assert(t.field("parts"@)->0.items()[i] == part_tree(upload.parts@[i].0, urls[i]));
    }
}

/// What is answered to an upload that started at `now`.
pub fn upload_reply(upload: &Upload, upload_id: &str, urls: &Vec<String>, now: u64) -> (j: Json)
    requires
        urls@.len() == upload.parts@.len(),
        now + UPLOAD_URL_TTL <= u64::MAX,
    ensures
        j@ == upload_tree(*upload, upload_id@, strs(urls@), now),
        j@.field("upload_id"@) == Some(Tree::Text(upload_id@)),
        j@.field("key"@) == Some(Tree::Text("originals/"@ + upload.object@)),
        j@.field("part_size"@) == Some(Tree::Unsigned(PART_SIZE)),
        j@.field("parts"@) is Some,
        j@.field("parts"@)->0.items().len() == upload.parts@.len(),
        forall|i: int|
            0 <= i < upload.parts@.len() ==> {
                let t = #[trigger] j@.field("parts"@)->0.items()[i];
                &&& t.field("number"@) == Some(Tree::Unsigned(upload.parts@[i].0 as u64))
                &&& t.field("url"@) == Some(Tree::Text(urls@[i]@))
            },
        j@.field("expires_at"@) == Some(Tree::Unsigned((now + UPLOAD_URL_TTL) as u64)),
{
    proof {
        law_an_upload_is_answered_whole(*upload, upload_id@, strs(urls@), now);
    }
    let ghost want = part_trees(upload.parts@, strs(urls@));
    let mut items: Vec<Json> = Vec::new();
    let mut i: usize = 0;
    while i < urls.len()
        invariant
            i <= urls.len(),
            urls@.len() == upload.parts@.len(),
            want == part_trees(upload.parts@, strs(urls@)),
            trees(items@) =~= want.take(i as int),
        decreases urls.len() - i,
    {
        let mut es = no_entries();
        put(&mut es, "number", Json::Unsigned(upload.parts[i].0 as u64));
        put(&mut es, "url", text(urls[i].as_str()));
        assert(entry_trees(es@) =~= part_tree(
            upload.parts@[i as int].0,
            urls@[i as int]@,
        )->Object_0);
        let item = object(es);
        let ghost o = items@;
        items.push(item);
        assert(trees(items@) =~= trees(o).push(item@));
        assert(want.take(i + 1) =~= want.take(i as int).push(want[i as int]));
        i = i + 1;
    }
    assert(want.take(i as int) =~= want);
    let key = "originals/".to_string().concat(upload.object.as_str());
    let mut es = no_entries();
    put(&mut es, "upload_id", text(upload_id));
    put(&mut es, "key", text(key.as_str()));
    put(&mut es, "part_size", Json::Unsigned(PART_SIZE));
    put(&mut es, "parts", list(items));
    put(&mut es, "expires_at", Json::Unsigned(now + UPLOAD_URL_TTL));
    assert(entry_trees(es@) =~= upload_tree(
        *upload,
        upload_id@,
        strs(urls@),
        now,
    )->Object_0);
    object(es)
}

/// A part that a browser sent, and the tag that the store gave it.
#[derive(Debug, PartialEq, Eq)]
pub struct PartEtag {
    pub number: u32,
    pub etag: String,
}

/// The parts are numbered from one to their count, none missing or repeated.
pub open spec fn numbered(parts: Seq<PartEtag>) -> bool {
    &&& parts.len() > 0
    &&& forall|i: int| 0 <= i < parts.len() ==> 1 <= (#[trigger] parts[i]).number <= parts.len()
    &&& forall|i: int, j: int| 0 <= i < j < parts.len() ==> parts[i].number != parts[j].number
}

proof fn lemma_strictly_up(s: Seq<u64>, i: int)
    requires
        forall|a: int, b: int| 0 <= a < b < s.len() ==> s[a] < s[b],
        forall|a: int| 0 <= a < s.len() ==> 1 <= #[trigger] s[a] <= s.len(),
        0 <= i < s.len(),
    ensures
        s[i] >= i + 1,
    decreases i,
{
    if i > 0 {
        lemma_strictly_up(s, i - 1);
        assert(s[i - 1] < s[i]);
    }
}

proof fn lemma_strictly_down(s: Seq<u64>, i: int)
    requires
        forall|a: int, b: int| 0 <= a < b < s.len() ==> s[a] < s[b],
        forall|a: int| 0 <= a < s.len() ==> 1 <= #[trigger] s[a] <= s.len(),
        0 <= i < s.len(),
    ensures
        s[i] <= i + 1,
    decreases s.len() - i,
{
    if i < s.len() - 1 {
        lemma_strictly_down(s, i + 1);
        assert(s[i] < s[i + 1]);
    }
}

/// The tags in the order of their parts. A list with a gap or a repeat is refused: the
/// store is told the tags by position, so it would stitch the wrong bytes.
pub fn ordered_etags(parts: &Vec<PartEtag>) -> (r: Result<Vec<String>, MediaError>)
    ensures
        error_view(r) == if numbered(parts@) {
            None
        } else {
            Some(("refused"@, "parts must be numbered 1..=n with none missing or repeated"@))
        },
        r matches Ok(tags) ==> tags@.len() == parts@.len() && forall|i: int|
            0 <= i < parts@.len() ==> tags@[(#[trigger] parts@[i]).number - 1]@ == parts@[i].etag@,
{
    let mut keys: Vec<u64> = Vec::new();
    let mut i: usize = 0;
    while i < parts.len()
        invariant
            i <= parts.len(),
            keys.len() == i,
            forall|k: int| 0 <= k < i ==> #[trigger] keys@[k] == parts@[k].number,
        decreases parts.len() - i,
    {
        keys.push(parts[i].number as u64);
        i = i + 1;
    }
    let p = stable_order(&keys);
    let ghost s = p@.map_values(|x: usize| keys@[x as int]);
    let mut bad = parts.len() == 0;
    let mut tags: Vec<String> = Vec::new();
    let mut k: usize = 0;
    while k < p.len() && !bad
        invariant
            k <= p.len(),
            ranks(p@, keys@),
            keys@.len() == parts@.len(),
            s == p@.map_values(|x: usize| keys@[x as int]),
            forall|a: int| 0 <= a < keys@.len() ==> #[trigger] keys@[a] == parts@[a].number,
            bad ==> parts@.len() == 0 || exists|a: int| 0 <= a < p.len() && s[a] != a + 1,
            !bad ==> parts@.len() > 0,
            tags@.len() == k,
            forall|a: int| 0 <= a < k ==> #[trigger] s[a] == a + 1,
            forall|a: int|
                0 <= a < k ==> (#[trigger] tags@[a])@ == parts@[p@[a] as int].etag@,
        decreases p.len() - k + if bad {
            0int
        } else {
            1
        },
    {
        let at = p[k];
        if keys[at] != k as u64 + 1 {
            bad = true;
            assert(s[k as int] != k + 1);
        } else {
            let tag = parts[at].etag.clone();
            let ghost o = tags@;
            tags.push(tag);
            assert(s[k as int] == k + 1);
            assert(tags@[k as int]@ == parts@[p@[k as int] as int].etag@);
            assert(forall|a: int| 0 <= a < k ==> tags@[a] == o[a]);
            k = k + 1;
        }
    }
    if bad {
        proof {
            if numbered(parts@) {
                assert forall|a: int, b: int| 0 <= a < b < s.len() implies s[a] < s[b] by {
                    assert(p@[a] != p@[b]);
                    let (x, y) = (p@[a] as int, p@[b] as int);
                    assert(keys@[x] == parts@[x].number && keys@[y] == parts@[y].number);
                    assert(parts@[x].number != parts@[y].number);
                }
                assert forall|a: int| 0 <= a < s.len() implies 1 <= #[trigger] s[a] <= s.len() by {
                    let x = p@[a] as int;
                    assert(keys@[x] == parts@[x].number);
                }
                let a = choose|a: int| 0 <= a < p.len() && s[a] != a + 1;
                lemma_strictly_up(s, a);
                lemma_strictly_down(s, a);
            }
        }
        return Err(
            MediaError::Refused(
                "parts must be numbered 1..=n with none missing or repeated".to_string(),
            ),
        );
    }
    proof {
        assert forall|w: int| 0 <= w < parts@.len() implies {
            let n = (#[trigger] parts@[w]).number;
            1 <= n <= parts@.len() && p@[n - 1] == w
        } by {
            lemma_permutation_hits(p@, parts@.len() as int, w);
            let a = choose|a: int| 0 <= a < p@.len() && p@[a] == w;
            assert(tags@[a]@ == parts@[p@[a] as int].etag@);
            assert(s[a] == keys@[w]);
        }
        assert forall|x: int, y: int| 0 <= x < y < parts@.len() implies parts@[x].number
            != parts@[y].number by {
            assert(p@[parts@[x].number - 1] == x);
            assert(p@[parts@[y].number - 1] == y);
        }
        assert forall|w: int| 0 <= w < parts@.len() implies tags@[(#[trigger] parts@[w]).number
            - 1]@ == parts@[w].etag@ by {
            assert(p@[parts@[w].number - 1] == w);
            assert(tags@[parts@[w].number - 1]@ == parts@[p@[parts@[w].number - 1] as int].etag@);
        }
    }
    Ok(tags)
}

/// A refusal, or the object of the originals that a key names.
pub open spec fn original_in(key: Seq<char>) -> Result<Seq<char>, Seq<char>> {
    match key_in(key) {
        Some((Which::Originals, obj)) => Ok(obj),
        _ => Err("not an originals key: "@ + debug_of(key)),
    }
}

/// The object of the originals that a key names: what is completed or given up.
pub fn original_object(key: &str) -> (r: Result<String, MediaError>)
    ensures
        r is Ok <==> original_in(key@) is Ok,
        r matches Ok(obj) ==> original_in(key@) == Ok::<Seq<char>, Seq<char>>(obj@)
            && original_name(obj@),
        error_view(r) matches Some(e) ==> e == ("refused"@, original_in(key@)->Err_0),
{
    match parse_key(key) {
        Some((Which::Originals, obj)) => Ok(obj),
        _ => Err(
            MediaError::Refused(
                "not an originals key: ".to_string().concat(debug(key).as_str()),
            ),
        ),
    }
}

/// What an upload that is to be completed needs of the store: the object and the tags in
/// order. The key is judged first.
pub fn complete_upload(key: &str, parts: &Vec<PartEtag>) -> (r: Result<
    (String, Vec<String>),
    MediaError,
>)
    ensures
        error_view(r) == match original_in(key@) {
            Err(why) => Some(("refused"@, why)),
            Ok(_) => if numbered(parts@) {
                None
            } else {
                Some(("refused"@, "parts must be numbered 1..=n with none missing or repeated"@))
            },
        },
        r matches Ok(c) ==> original_in(key@) == Ok::<Seq<char>, Seq<char>>(c.0@) && original_name(
            c.0@,
        ) && c.1@.len() == parts@.len() && forall|i: int|
            0 <= i < parts@.len() ==> c.1@[(#[trigger] parts@[i]).number - 1]@ == parts@[i].etag@,
{
    match original_object(key) {
        Err(e) => Err(e),
        Ok(object) => match ordered_etags(parts) {
            Err(e) => Err(e),
            Ok(tags) => Ok((object, tags)),
        },
    }
}

/// What is answered to a completed upload.
pub fn completed(key: &str) -> (j: Json)
    ensures
        j@ == Tree::Object(seq![("key"@, Tree::Text(key@))]),
{
    single("key", text(key))
}

// -------------------------------------------------------------------- jobs --

/// A photo to evaluate, and where its result goes.
#[derive(Debug, PartialEq, Eq)]
pub struct Job {
    pub job_id: String,
    pub photo_id: String,
    pub key: String,
    pub callback_url: String,
}

/// Is `key` the original of this photo?
pub open spec fn own_original(key: Seq<char>, photo_id: Seq<char>) -> bool {
    match key_in(key) {
        Some((Which::Originals, obj)) => (photo_id + "."@).is_prefix_of(obj),
        _ => false,
    }
}

/// Why a job is refused, where it is.
pub open spec fn job_refused(job: Job, allow: Seq<Seq<char>>) -> Option<Seq<char>> {
    if !id_ok(job.job_id@) || !id_ok(job.photo_id@) {
        Some("job_id and photo_id must match [A-Za-z0-9_-]{1,64}"@)
    } else if !own_original(job.key@, job.photo_id@) {
        Some("not this photo's original: "@ + debug_of(job.key@))
    } else {
        callback_refused(job.callback_url@, url_in(job.callback_url@), allow)
    }
}

/// May this job be queued?
pub fn submit(job: &Job, allow: &Vec<String>) -> (r: Result<(), MediaError>)
    ensures
        error_view(r) == match job_refused(*job, strs(allow@)) {
            Some(why) => Some(("refused"@, why)),
            None => None,
        },
{
    if !valid_id(job.job_id.as_str()) || !valid_id(job.photo_id.as_str()) {
        return Err(
            MediaError::Refused("job_id and photo_id must match [A-Za-z0-9_-]{1,64}".to_string()),
        );
    }
    let own = match parse_key(job.key.as_str()) {
        Some((Which::Originals, obj)) => {
            let prefix = job.photo_id.as_str().to_string().concat(".");
            starts_with(obj.as_str(), prefix.as_str())
        },
        _ => false,
    };
    if !own {
        let shown = debug(job.key.as_str());
        return Err(
            MediaError::Refused(
                "not this photo's original: ".to_string().concat(shown.as_str()),
            ),
        );
    }
    match callback_allowed(job.callback_url.as_str(), allow) {
        Ok(()) => Ok(()),
        Err(why) => Err(MediaError::Refused(why)),
    }
}

/// What is answered to a queued job, whether it was queued before or not.
pub open spec fn queued_tree(job_id: Seq<char>) -> Tree {
    Tree::Object(seq![("job_id"@, Tree::Text(job_id)), ("queued"@, Tree::Bool(true))])
}

/// A queued job is answered by its own name.
pub proof fn law_a_queued_job_is_answered_by_its_name(job_id: Seq<char>)
    ensures
        queued_tree(job_id).field("job_id"@) == Some(Tree::Text(job_id)),
        queued_tree(job_id).field("queued"@) == Some(Tree::Bool(true)),
{
    reveal_with_fuel(entry_from, 3);
    reveal_strlit("job_id");
    reveal_strlit("queued");
    assert("job_id"@.len() == 6);
    assert("queued"@.len() == 6);
    assert("job_id"@[0] != "queued"@[0]);
}

/// What is answered to a queued job.
pub fn queued(job_id: &str) -> (j: Json)
    ensures
        j@ == queued_tree(job_id@),
        j@.field("job_id"@) == Some(Tree::Text(job_id@)),
        j@.field("queued"@) == Some(Tree::Bool(true)),
{
    proof {
        law_a_queued_job_is_answered_by_its_name(job_id@);
    }
    let mut es = no_entries();
    put(&mut es, "job_id", text(job_id));
    put(&mut es, "queued", Json::Bool(true));
    assert(entry_trees(es@) =~= queued_tree(job_id@)->Object_0);
    object(es)
}

/// Does the worker run this job? Anything that reaches the queue can put a job there,
/// and its id becomes a directory name, so what was judged at the door is judged again.
pub open spec fn job_taken(job: Job, allow: Seq<Seq<char>>) -> bool {
    &&& id_ok(job.job_id@)
    &&& (key_in(job.key@) matches Some((Which::Originals, _)))
    &&& callback_refused(job.callback_url@, url_in(job.callback_url@), allow) is None
}

/// Does the worker run this job?
pub fn takes_job(job: &Job, allow: &Vec<String>) -> (r: bool)
    ensures
        r == job_taken(*job, strs(allow@)),
{
    let original = match parse_key(job.key.as_str()) {
        Some((Which::Originals, _)) => true,
        _ => false,
    };
    valid_id(job.job_id.as_str()) && original && callback_allowed(
        job.callback_url.as_str(),
        allow,
    ).is_ok()
}

/// What was queued at the door, the worker runs.
pub proof fn law_a_queued_job_is_run(job: Job, allow: Seq<Seq<char>>)
    requires
        job_refused(job, allow) is None,
    ensures
        job_taken(job, allow),
{
}

// ----------------------------------------------------------------- signing --

/// Seconds that a URL lives: what was asked for, at least one and at most a week.
pub open spec fn sign_secs(asked: u64) -> u64 {
    if asked < 1 {
        1
    } else if asked > MAX_SIGN_TTL {
        MAX_SIGN_TTL
    } else {
        asked
    }
}

/// Why an object is not signed for a browser, where it is not.
pub open spec fn sign_refused(key: Seq<char>, sign_originals: bool) -> Option<Seq<char>> {
    match key_in(key) {
        None => Some("not a key this daemon issues: "@ + debug_of(key)),
        Some((Which::Originals, _)) => if sign_originals {
            None
        } else {
            Some("originals are not signed for browsers (see --sign-originals)"@)
        },
        Some((Which::Renditions, _)) => None,
    }
}

/// Which object is signed for a browser, and for how long.
pub fn sign(key: &str, ttl_secs: u64, sign_originals: bool) -> (r: Result<
    (Which, String, u64),
    MediaError,
>)
    ensures
        error_view(r) == match sign_refused(key@, sign_originals) {
            Some(why) => Some(("refused"@, why)),
            None => None,
        },
        r matches Ok(s) ==> key_in(key@) == Some((s.0, s.1@)) && s.2 == sign_secs(ttl_secs),
{
    match parse_key(key) {
        None => Err(
            MediaError::Refused(
                "not a key this daemon issues: ".to_string().concat(debug(key).as_str()),
            ),
        ),
        Some((which, object)) => {
            if which == Which::Originals && !sign_originals {
                return Err(
                    MediaError::Refused(
                        "originals are not signed for browsers (see --sign-originals)".to_string(),
                    ),
                );
            }
            let secs: u64 = if ttl_secs < 1 {
                1
            } else if ttl_secs > MAX_SIGN_TTL {
                MAX_SIGN_TTL
            } else {
                ttl_secs
            };
            Ok((which, object, secs))
        },
    }
}

/// An original is not signed for a browser unless the operator said so.
pub proof fn law_originals_stay_inside(key: Seq<char>)
    requires
        key_in(key) matches Some((Which::Originals, _)),
    ensures
        sign_refused(key, false) is Some,
{
}

/// What the daemon says of its health.
pub open spec fn health_tree(store: bool, queue: bool, apple: bool) -> Tree {
    Tree::Object(
        seq![
            ("ok"@, Tree::Bool(true)),
            ("store"@, Tree::Bool(store)),
            ("queue"@, Tree::Bool(queue)),
            ("apple"@, Tree::Bool(apple)),
        ],
    )
}

/// The daemon says of the store, of the queue and of the helper each whether it is there.
pub proof fn law_health_says_what_is_reachable(store: bool, queue: bool, apple: bool)
    ensures
        health_tree(store, queue, apple).field("ok"@) == Some(Tree::Bool(true)),
        health_tree(store, queue, apple).field("store"@) == Some(Tree::Bool(store)),
        health_tree(store, queue, apple).field("queue"@) == Some(Tree::Bool(queue)),
        health_tree(store, queue, apple).field("apple"@) == Some(Tree::Bool(apple)),
{
    reveal_with_fuel(entry_from, 5);
    reveal_strlit("ok");
    reveal_strlit("store");
    reveal_strlit("queue");
    reveal_strlit("apple");
    assert("ok"@.len() == 2);
    assert("store"@.len() == 5);
    assert("queue"@.len() == 5);
    assert("apple"@.len() == 5);
    assert("store"@[0] != "queue"@[0]);
    assert("store"@[0] != "apple"@[0]);
    assert("queue"@[0] != "apple"@[0]);
}

/// What the daemon says of its health.
pub fn health(store: bool, queue: bool, apple: bool) -> (j: Json)
    ensures
        j@ == health_tree(store, queue, apple),
        j@.field("ok"@) == Some(Tree::Bool(true)),
        j@.field("store"@) == Some(Tree::Bool(store)),
        j@.field("queue"@) == Some(Tree::Bool(queue)),
        j@.field("apple"@) == Some(Tree::Bool(apple)),
{
    proof {
        law_health_says_what_is_reachable(store, queue, apple);
    }
    let mut es = no_entries();
    put(&mut es, "ok", Json::Bool(true));
    put(&mut es, "store", Json::Bool(store));
    put(&mut es, "queue", Json::Bool(queue));
    put(&mut es, "apple", Json::Bool(apple));
    assert(entry_trees(es@) =~= health_tree(store, queue, apple)->Object_0);
    object(es)
}

/// An upload starts exactly where the photo's name is an identity, the file is of an accepted
/// kind by its name and by its type, it is neither empty nor larger than what is taken, and
/// it goes in as many parts as the store takes.
pub proof fn law_when_an_upload_starts(req: StartUpload, max: u64)
    ensures
        upload_refused(req, max) is None <==> id_ok(req.photo_id@) && allowed_ext_of(
            req.filename@,
        ) is Some && type_ok(lower_of(req.content_type@)) && 0 < req.size <= max && part_count(
            req.size as int,
            PART_SIZE as int,
        ) <= MAX_PARTS,
{
}

/// A job is queued exactly where its name and its photo's are identities, the key is an
/// original of that very photo, and the result goes where the operator said.
pub proof fn law_when_a_job_is_queued(job: Job, allow: Seq<Seq<char>>)
    ensures
        job_refused(job, allow) is None <==> id_ok(job.job_id@) && id_ok(job.photo_id@) && (key_in(
            job.key@,
        ) is Some && key_in(job.key@)->Some_0.0 == Which::Originals && (job.photo_id@
            + "."@).is_prefix_of(key_in(job.key@)->Some_0.1)) && callback_refused(
            job.callback_url@,
            url_in(job.callback_url@),
            allow,
        ) is None,
        job_taken(job, allow) <==> id_ok(job.job_id@) && key_in(job.key@) is Some && key_in(
            job.key@,
        )->Some_0.0 == Which::Originals && callback_refused(
            job.callback_url@,
            url_in(job.callback_url@),
            allow,
        ) is None,
{
}

/// A key is signed exactly where it is a rendition's, or an original's and the operator lets
/// those out.
pub proof fn law_what_is_signed(key: Seq<char>, sign_originals: bool)
    ensures
        sign_refused(key, sign_originals) is None <==> key_in(key) is Some && (key_in(key)->Some_0.0
            == Which::Renditions || sign_originals),
{
}

/// A URL lives as long as was asked, where that is from a second to a week; less is a second
/// and more is a week.
pub proof fn law_how_long_a_url_lives(asked: u64)
    ensures
        1 <= sign_secs(asked) <= MAX_SIGN_TTL,
        1 <= asked <= MAX_SIGN_TTL ==> sign_secs(asked) == asked,
        asked == 0 ==> sign_secs(asked) == 1,
        asked > MAX_SIGN_TTL ==> sign_secs(asked) == MAX_SIGN_TTL,
{
}

/// An upload is completed only for a key of an original, and the object is the key without
/// its bucket.
pub proof fn law_only_an_original_is_completed(key: Seq<char>)
    ensures
        original_in(key) is Ok <==> key_in(key) is Some && key_in(key)->Some_0.0 == Which::Originals,
        original_in(key) is Ok ==> "originals/"@ + original_in(key)->Ok_0 == key,
{
    if original_in(key) is Ok {
        crate::media::keys::law_a_key_stays_in_its_bucket(key);
    }
}

/// The object of an upload is the photo's own name, with the ending of the file that was named.
pub proof fn law_an_upload_is_of_its_photo(req: StartUpload, max: u64)
    requires
        upload_refused(req, max) is None,
    ensures
        upload_object(req) == req.photo_id@ + "."@ + allowed_ext_of(req.filename@)->0,
        (req.photo_id@ + "."@).is_prefix_of(upload_object(req)),
{
    let p = req.photo_id@ + "."@;
    assert(upload_object(req).subrange(0, p.len() as int) =~= p);
}

/// Parts are numbered where each number from one to their count is there, and none twice.
pub proof fn law_when_parts_are_numbered(parts: Seq<PartEtag>)
    ensures
        numbered(parts) <==> parts.len() > 0 && (forall|i: int|
            0 <= i < parts.len() ==> (#[trigger] parts[i]).number != 0 && parts[i].number
                <= parts.len()) && forall|i: int, j: int|
            0 <= i < parts.len() && 0 <= j < parts.len() && i != j ==> (#[trigger] parts[i]).number
                != (#[trigger] parts[j]).number,
{
    if numbered(parts) {
        assert forall|i: int, j: int|
            0 <= i < parts.len() && 0 <= j < parts.len() && i != j implies (
        #[trigger] parts[i]).number != (#[trigger] parts[j]).number by {
            if i < j {
            } else {
                assert(parts[j].number != parts[i].number);
            }
        }
    }
}

} // verus!
