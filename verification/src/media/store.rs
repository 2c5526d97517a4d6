//! The S3-compatible store: what is signed and for which endpoint, and what its
//! answers mean.

use vstd::prelude::*;
use vstd::string::*;

use rusty_s3::S3Action;

use crate::digest::{Hashing, base64, base64_of, fed, md5, md5_of, sha256_of};
use crate::media::errors::MediaError;
use crate::media::keys::{Which, id_char, original_name, rendition_name};
use crate::number::{dec, dec_of, hex, hex_of};
use crate::text::{chars_of, contains, debug, debug_of, find_chars, find_from, holds, join, join_of, lemma_find, lemma_last, lemma_next, lower, lower_of, replace_char, replace_char_of, rsplit_once_of, same, slice_text, split_once_of, strs, trim, trim_of};
use crate::url::{Url, UrlView, read_url, url_in, url_view};

verus! {

/// `rusty_s3::Bucket`: where a bucket is.
#[verifier::external_type_specification]
#[verifier::external_body]
pub struct ExBucket(rusty_s3::Bucket);

/// `rusty_s3::Credentials`: who signs.
#[verifier::external_type_specification]
#[verifier::external_body]
pub struct ExCredentials(rusty_s3::Credentials);

/// Part URLs live this many seconds: enough for a slow uplink to push a large file.
pub const UPLOAD_URL_TTL: u64 = 21600;

/// The two buckets, as the daemon reaches them and as a browser does. A signature
/// covers the host, so that a URL signed for one cannot be used at the other.
pub struct Store {
    pub creds: rusty_s3::Credentials,
    pub originals: rusty_s3::Bucket,
    pub renditions: rusty_s3::Bucket,
    pub public_originals: rusty_s3::Bucket,
    pub public_renditions: rusty_s3::Bucket,
}

// ----------------------------------------------------------------- signing --

/// The URL of a bucket, without a query and a fragment.
pub uninterp spec fn bucket_url(bucket: rusty_s3::Bucket) -> Seq<char>;

/// The URL of an object in a bucket.
pub uninterp spec fn object_url(bucket: rusty_s3::Bucket, object: Seq<char>) -> Seq<char>;

/// A text as it stands in a query string.
pub uninterp spec fn form_encoded(text: Seq<char>) -> Seq<char>;

/// Does this name stay a path behind a bucket's URL? What would name another host does
/// not.
pub open spec fn joins(object: Seq<char>) -> bool {
    !"//"@.is_prefix_of(object)
}

/// The object that a key names stays a path.
pub proof fn lemma_objects_join(object: Seq<char>)
    requires
        original_name(object) || rendition_name(object),
    ensures
        joins(object),
{
    reveal_strlit("//");
    if original_name(object) {
        lemma_last(object, '.', object.len() as int);
        assert(id_char(rsplit_once_of(object, '.')->Some_0.0[0]));
    } else {
        lemma_next(object, '/', 0);
        assert(id_char(split_once_of(object, '/')->Some_0.0[0]));
    }
    if "//"@.is_prefix_of(object) {
        assert("//"@[0] == object[0]);
    }
}

/// `url` is `base`, signed for `secs` seconds, with `query` in what the signature
/// covers.
pub open spec fn signed(url: Seq<char>, base: Seq<char>, secs: int, query: Seq<char>) -> bool {
    &&& (base + "?X-Amz-Algorithm=AWS4-HMAC-SHA256&"@).is_prefix_of(url)
    &&& holds(url, "&X-Amz-Expires="@ + dec_of(secs as nat) + "&"@)
    &&& holds(url, "&X-Amz-SignedHeaders=host"@ + query + "&X-Amz-Signature="@)
}

/// The URL that a request is signed into: its method, where the bucket is, who signs, the
/// object where there is one, the query that the signature covers, for how many seconds it
/// holds, and the moment.
pub uninterp spec fn presigned(
    method: Seq<char>,
    bucket: rusty_s3::Bucket,
    credentials: rusty_s3::Credentials,
    object: Option<Seq<char>>,
    query: Seq<char>,
    secs: int,
    date: Seq<char>,
) -> Seq<char>;

/// The URL of a bucket, or of an object in it.
pub open spec fn target_url(bucket: rusty_s3::Bucket, object: Option<Seq<char>>) -> Seq<char> {
    match object {
        Some(o) => object_url(bucket, o),
        None => bucket_url(bucket),
    }
}

/// `url` lets its holder make the request `method` for `secs` seconds from some moment on:
/// these credentials signed it for that method.
pub open spec fn grants(
    url: Seq<char>,
    method: Seq<char>,
    bucket: rusty_s3::Bucket,
    credentials: rusty_s3::Credentials,
    object: Option<Seq<char>>,
    query: Seq<char>,
    secs: int,
) -> bool {
    &&& signed(url, target_url(bucket, object), secs, query)
    &&& exists|date: Seq<char>|
        url == #[trigger] presigned(method, bucket, credentials, object, query, secs, date)
}

/// `Bucket::head_bucket` and `S3Action::sign`: the bucket's URL, signed for a `HEAD`. The
/// moment is left unsaid: it rests on the clock.
#[verifier::external_body]
fn sign_head_bucket(b: &rusty_s3::Bucket, c: &rusty_s3::Credentials, secs: u64) -> (url: String)
    ensures
        signed(url@, bucket_url(*b), secs as int, Seq::empty()),
        exists|date: Seq<char>|
            url@ == #[trigger] presigned("HEAD"@, *b, *c, None, Seq::empty(), secs as int, date),
{
    b.head_bucket(Some(c)).sign(std::time::Duration::from_secs(secs)).to_string()
}

/// `Bucket::create_bucket` and `S3Action::sign`: the bucket's URL, signed for a `PUT`, without
/// the moment being said.
#[verifier::external_body]
fn sign_create_bucket(b: &rusty_s3::Bucket, c: &rusty_s3::Credentials, secs: u64) -> (url: String)
    ensures
        signed(url@, bucket_url(*b), secs as int, Seq::empty()),
        exists|date: Seq<char>|
            url@ == #[trigger] presigned("PUT"@, *b, *c, None, Seq::empty(), secs as int, date),
{
    b.create_bucket(c).sign(std::time::Duration::from_secs(secs)).to_string()
}

/// `Bucket::create_bucket` with `key` in the action's `query_mut`, and
/// `S3Action::sign`: the bucket's URL, signed for a `PUT` with that key and no value.
#[verifier::external_body]
fn sign_bucket_query(
    b: &rusty_s3::Bucket,
    c: &rusty_s3::Credentials,
    key: &'static str,
    secs: u64,
) -> (url: String)
    requires
        key@ == "cors"@,
    ensures
        signed(url@, bucket_url(*b), secs as int, "&"@ + key@ + "="@),
        exists|date: Seq<char>|
            url@ == #[trigger] presigned("PUT"@, *b, *c, None, "&"@ + key@ + "="@, secs as int, date),
{
    let mut action = b.create_bucket(c);
    action.query_mut().insert(key, "");
    action.sign(std::time::Duration::from_secs(secs)).to_string()
}

/// `Bucket::get_object` and `S3Action::sign`: the object's URL, signed for a `GET`, without
/// the moment being said. It panics on a name that makes no URL, which only
/// one that would name another host can do: all else that is special is escaped.
#[verifier::external_body]
fn sign_get_object(
    b: &rusty_s3::Bucket,
    c: &rusty_s3::Credentials,
    object: &str,
    secs: u64,
) -> (url: String)
    requires
        joins(object@),
    ensures
        signed(url@, object_url(*b, object@), secs as int, Seq::empty()),
        exists|date: Seq<char>|
            url@ == #[trigger] presigned("GET"@, *b, *c, Some(object@), Seq::empty(), secs as int, date),
{
    b.get_object(Some(c), object).sign(std::time::Duration::from_secs(secs)).to_string()
}

/// `Bucket::put_object` and `S3Action::sign`: the object's URL, signed for a `PUT`, without
/// the moment being said.
#[verifier::external_body]
fn sign_put_object(
    b: &rusty_s3::Bucket,
    c: &rusty_s3::Credentials,
    object: &str,
    secs: u64,
) -> (url: String)
    requires
        joins(object@),
    ensures
        signed(url@, object_url(*b, object@), secs as int, Seq::empty()),
        exists|date: Seq<char>|
            url@ == #[trigger] presigned("PUT"@, *b, *c, Some(object@), Seq::empty(), secs as int, date),
{
    b.put_object(Some(c), object).sign(std::time::Duration::from_secs(secs)).to_string()
}

/// `Bucket::create_multipart_upload` and `S3Action::sign`: the object's URL, signed for a
/// `POST` with the query that starts an upload.
#[verifier::external_body]
fn sign_create_upload(
    b: &rusty_s3::Bucket,
    c: &rusty_s3::Credentials,
    object: &str,
    secs: u64,
) -> (url: String)
    requires
        joins(object@),
    ensures
        signed(url@, object_url(*b, object@), secs as int, "&uploads=1"@),
        exists|date: Seq<char>|
            url@ == #[trigger] presigned("POST"@, *b, *c, Some(object@), "&uploads=1"@, secs as int, date),
{
    b.create_multipart_upload(Some(c), object).sign(
        std::time::Duration::from_secs(secs),
    ).to_string()
}

/// `Bucket::upload_part` and `S3Action::sign`: the object's URL, signed for a `PUT` with the
/// part's number and the upload.
#[verifier::external_body]
fn sign_upload_part(
    b: &rusty_s3::Bucket,
    c: &rusty_s3::Credentials,
    object: &str,
    number: u16,
    upload_id: &str,
    secs: u64,
) -> (url: String)
    requires
        joins(object@),
    ensures
        signed(
            url@,
            object_url(*b, object@),
            secs as int,
            "&partNumber="@ + dec_of(number as nat) + "&uploadId="@ + form_encoded(upload_id@),
        ),
        exists|date: Seq<char>|
            url@ == #[trigger] presigned(
                "PUT"@,
                *b,
                *c,
                Some(object@),
                "&partNumber="@ + dec_of(number as nat) + "&uploadId="@ + form_encoded(upload_id@),
                secs as int,
                date,
            ),
{
    b.upload_part(Some(c), object, number, upload_id).sign(
        std::time::Duration::from_secs(secs),
    ).to_string()
}

/// `Bucket::complete_multipart_upload` and `S3Action::sign`: the object's URL, signed for a
/// `POST` with the upload.
#[verifier::external_body]
fn sign_complete_upload(
    b: &rusty_s3::Bucket,
    c: &rusty_s3::Credentials,
    object: &str,
    upload_id: &str,
    secs: u64,
) -> (url: String)
    requires
        joins(object@),
    ensures
        signed(
            url@,
            object_url(*b, object@),
            secs as int,
            "&uploadId="@ + form_encoded(upload_id@),
        ),
        exists|date: Seq<char>|
            url@ == #[trigger] presigned(
                "POST"@,
                *b,
                *c,
                Some(object@),
                "&uploadId="@ + form_encoded(upload_id@),
                secs as int,
                date,
            ),
{
    b.complete_multipart_upload(Some(c), object, upload_id, std::iter::empty()).sign(
        std::time::Duration::from_secs(secs),
    ).to_string()
}

/// `Bucket::abort_multipart_upload` and `S3Action::sign`: the object's URL, signed for a
/// `DELETE` with the upload.
#[verifier::external_body]
fn sign_abort_upload(
    b: &rusty_s3::Bucket,
    c: &rusty_s3::Credentials,
    object: &str,
    upload_id: &str,
    secs: u64,
) -> (url: String)
    requires
        joins(object@),
    ensures
        signed(
            url@,
            object_url(*b, object@),
            secs as int,
            "&uploadId="@ + form_encoded(upload_id@),
        ),
        exists|date: Seq<char>|
            url@ == #[trigger] presigned(
                "DELETE"@,
                *b,
                *c,
                Some(object@),
                "&uploadId="@ + form_encoded(upload_id@),
                secs as int,
                date,
            ),
{
    b.abort_multipart_upload(Some(c), object, upload_id).sign(
        std::time::Duration::from_secs(secs),
    ).to_string()
}

/// The body that names the parts of an upload by their tags, in order.
pub uninterp spec fn complete_body_of(etags: Seq<Seq<char>>) -> Seq<char>;

/// `CompleteMultipartUpload::body`: a function of the tags. It numbers them from one in
/// sixteen bits and panics beyond.
#[verifier::external_body]
fn complete_body(b: &rusty_s3::Bucket, c: &rusty_s3::Credentials, etags: &Vec<String>) -> (out:
    String)
    requires
        etags@.len() <= 65535,
    ensures
        out@ == complete_body_of(strs(etags@)),
{
    b.complete_multipart_upload(Some(c), "", "", etags.iter().map(|e| e.as_str())).body()
}

/// The upload that a store's reply names.
pub uninterp spec fn upload_id_in(body: Seq<char>) -> Result<Seq<char>, Seq<char>>;

/// What a result holds, as plain values.
pub open spec fn result_view(r: Result<String, String>) -> Result<Seq<char>, Seq<char>> {
    match r {
        Ok(s) => Ok(s@),
        Err(e) => Err(e@),
    }
}

/// `CreateMultipartUpload::parse_response` and the text of its error: a function of the
/// reply.
#[verifier::external_body]
fn read_upload_id(body: &str) -> (r: Result<String, String>)
    ensures
        result_view(r) == upload_id_in(body@),
{
    match rusty_s3::actions::CreateMultipartUpload::parse_response(body) {
        Ok(p) => Ok(p.upload_id().to_string()),
        Err(e) => Err(e.to_string()),
    }
}

impl Store {
    /// The bucket as the daemon reaches it.
    pub open spec fn bucket_of(&self, w: Which) -> rusty_s3::Bucket {
        match w {
            Which::Originals => self.originals,
            Which::Renditions => self.renditions,
        }
    }

    /// The bucket as a browser reaches it.
    pub open spec fn public_bucket_of(&self, w: Which) -> rusty_s3::Bucket {
        match w {
            Which::Originals => self.public_originals,
            Which::Renditions => self.public_renditions,
        }
    }

    /// The bucket as the daemon reaches it.
    pub fn bucket(&self, w: Which) -> (b: &rusty_s3::Bucket)
        ensures
            *b == self.bucket_of(w),
    {
        match w {
            Which::Originals => &self.originals,
            Which::Renditions => &self.renditions,
        }
    }

    fn public_bucket(&self, w: Which) -> (b: &rusty_s3::Bucket)
        ensures
            *b == self.public_bucket_of(w),
    {
        match w {
            Which::Originals => &self.public_originals,
            Which::Renditions => &self.public_renditions,
        }
    }

    /// Where it is asked whether a bucket is there.
    pub fn head_url(&self, w: Which, secs: u64) -> (url: String)
        ensures
            grants(
                url@,
                "HEAD"@,
                self.bucket_of(w),
                self.creds,
                None,
                Seq::empty(),
                secs as int,
            ),
    {
        sign_head_bucket(self.bucket(w), &self.creds, secs)
    }

    /// Where a bucket is created.
    pub fn create_bucket_url(&self, w: Which) -> (url: String)
        ensures
            grants(url@, "PUT"@, self.bucket_of(w), self.creds, None, Seq::empty(), 60),
    {
        sign_create_bucket(self.bucket(w), &self.creds, 60)
    }

    /// Where a bucket's origins are put, the body to send there, and the digest that
    /// goes with it.
    pub fn put_cors(&self, w: Which, origins: &Vec<String>) -> (r: (String, String, String))
        ensures
            grants(
                r.0@,
                "PUT"@,
                self.bucket_of(w),
                self.creds,
                None,
                "&"@ + "cors"@ + "="@,
                60,
            ),
            r.1@ == cors_of(strs(origins@)),
            r.2@ == base64_of(md5_of(vstd::utf8::encode_utf8(r.1@))),
    {
        let body = cors_xml(origins);
        let digest = md5(body.as_str().as_bytes());
        let text = base64(digest.as_slice());
        let url = sign_bucket_query(self.bucket(w), &self.creds, "cors", 60);
        (url, body, text)
    }

    /// Where an upload is started.
    pub fn create_upload_url(&self, object: &str) -> (url: String)
        requires
            joins(object@),
        ensures
            grants(
                url@,
                "POST"@,
                self.originals,
                self.creds,
                Some(object@),
                "&uploads=1"@,
                60,
            ),
    {
        sign_create_upload(&self.originals, &self.creds, object, 60)
    }

    /// Where a browser sends one part.
    pub fn part_url(&self, object: &str, number: u16, upload_id: &str) -> (url: String)
        requires
            joins(object@),
        ensures
            grants(
                url@,
                "PUT"@,
                self.public_originals,
                self.creds,
                Some(object@),
                "&partNumber="@ + dec_of(number as nat) + "&uploadId="@ + form_encoded(upload_id@),
                UPLOAD_URL_TTL as int,
            ),
    {
        sign_upload_part(
            &self.public_originals,
            &self.creds,
            object,
            number,
            upload_id,
            UPLOAD_URL_TTL,
        )
    }

    /// Where an upload is completed, and the body to send there.
    pub fn complete_upload(&self, object: &str, upload_id: &str, etags: &Vec<String>) -> (r: (
        String,
        String,
    ))
        requires
            joins(object@),
            etags@.len() <= 65535,
        ensures
            grants(
                r.0@,
                "POST"@,
                self.originals,
                self.creds,
                Some(object@),
                "&uploadId="@ + form_encoded(upload_id@),
                60,
            ),
            r.1@ == complete_body_of(strs(etags@)),
    {
        let url = sign_complete_upload(&self.originals, &self.creds, object, upload_id, 60);
        let body = complete_body(&self.originals, &self.creds, etags);
        (url, body)
    }

    /// Where an upload is given up.
    pub fn abort_upload(&self, object: &str, upload_id: &str) -> (url: String)
        requires
            joins(object@),
        ensures
            grants(
                url@,
                "DELETE"@,
                self.originals,
                self.creds,
                Some(object@),
                "&uploadId="@ + form_encoded(upload_id@),
                60,
            ),
    {
        sign_abort_upload(&self.originals, &self.creds, object, upload_id, 60)
    }

    /// Where a browser reads an object.
    pub fn sign_get(&self, w: Which, object: &str, secs: u64) -> (url: String)
        requires
            joins(object@),
        ensures
            grants(
                url@,
                "GET"@,
                self.public_bucket_of(w),
                self.creds,
                Some(object@),
                Seq::empty(),
                secs as int,
            ),
    {
        sign_get_object(self.public_bucket(w), &self.creds, object, secs)
    }

    /// Where the daemon reads an object.
    pub fn download_url(&self, w: Which, object: &str) -> (url: String)
        requires
            joins(object@),
        ensures
            grants(
                url@,
                "GET"@,
                self.bucket_of(w),
                self.creds,
                Some(object@),
                Seq::empty(),
                600,
            ),
    {
        sign_get_object(self.bucket(w), &self.creds, object, 600)
    }

    /// Where the daemon puts an object.
    pub fn put(&self, w: Which, object: &str) -> (url: String)
        requires
            joins(object@),
        ensures
            grants(
                url@,
                "PUT"@,
                self.bucket_of(w),
                self.creds,
                Some(object@),
                Seq::empty(),
                300,
            ),
    {
        sign_put_object(self.bucket(w), &self.creds, object, 300)
    }
}

// ----------------------------------------------------------------- answers --

/// The text of the first `<tag>…</tag>`.
pub open spec fn xml_tag_in(body: Seq<char>, tag: Seq<char>) -> Option<Seq<char>> {
    let open = "<"@ + tag + ">"@;
    match find_from(body, open, 0) {
        None => None,
        Some(i) => {
            let start = i + open.len();
            match find_from(body, "</"@ + tag + ">"@, start) {
                None => None,
                Some(end) => Some(body.subrange(start, end)),
            }
        },
    }
}

/// The text of the first `<tag>…</tag>`: enough XML for the code of an error.
pub fn xml_tag(body: &str, tag: &str) -> (r: Option<String>)
    ensures
        (match r {
            Some(t) => Some(t@),
            None => None,
        }) == xml_tag_in(body@, tag@),
{
    let cs = chars_of(body);
    let open = chars_of("<".to_string().concat(tag).concat(">").as_str());
    let close = chars_of("</".to_string().concat(tag).concat(">").as_str());
    match find_chars(&cs, &open, 0) {
        None => None,
        Some(i) => {
            proof {
                lemma_find(cs@, open@, 0);
            }
            let start = i + open.len();
            match find_chars(&cs, &close, start) {
                None => None,
                Some(end) => {
                    proof {
                        lemma_find(cs@, close@, start as int);
                    }
                    Some(slice_text(&cs, start, end))
                },
            }
        },
    }
}

/// What a store's answer means: its body, or the error that its code stands for.
pub open spec fn checked(status: u16, shown: Seq<char>, body: Seq<char>, what: Seq<char>) -> Result<
    Seq<char>,
    (Seq<char>, Seq<char>),
> {
    let code = match xml_tag_in(body, "Code"@) {
        Some(c) => c,
        None => Seq::empty(),
    };
    let detail = what + ": "@ + shown + " "@ + code;
    if 200 <= status < 300 && !holds(body, "<Error>"@) {
        Ok(body)
    } else if code == "NoSuchUpload"@ || code == "NoSuchKey"@ || code == "NoSuchBucket"@ {
        Err(("not-found"@, detail))
    } else if code == "InvalidPart"@ || code == "InvalidPartOrder"@ || code == "EntityTooSmall"@ {
        Err(("refused"@, detail))
    } else if status == 404 {
        Err(("not-found"@, detail))
    } else {
        Err(("unavailable"@, detail))
    }
}

/// A result as plain values.
pub open spec fn media_view(r: Result<String, MediaError>) -> Result<
    Seq<char>,
    (Seq<char>, Seq<char>),
> {
    match r {
        Ok(s) => Ok(s@),
        Err(e) => Err((crate::media::errors::kind_of(e), crate::media::errors::detail_of(e))),
    }
}

/// Turn a store's answer into its body or an error: a missing upload or key is not
/// found, a bad part list is refused (the caller sent it), anything else is ours. An
/// upload can be completed with 200 and an error in the body. `shown` is how the status
/// is written.
pub fn check(status: u16, shown: &str, body: String, what: &str) -> (r: Result<String, MediaError>)
    ensures
        media_view(r) == checked(status, shown@, body@, what@),
{
    if 200 <= status && status < 300 && !contains(body.as_str(), "<Error>") {
        return Ok(body);
    }
    let code = match xml_tag(body.as_str(), "Code") {
        Some(c) => c,
        None => String::new(),
    };
    assert(code@ =~= match xml_tag_in(body@, "Code"@) {
        Some(c) => c,
        None => Seq::empty(),
    });
    let detail = what.to_string().concat(": ").concat(shown).concat(" ").concat(code.as_str());
    let c = code.as_str();
    if same(c, "NoSuchUpload") || same(c, "NoSuchKey") || same(c, "NoSuchBucket") {
        Err(MediaError::NotFound(detail))
    } else if same(c, "InvalidPart") || same(c, "InvalidPartOrder") || same(c, "EntityTooSmall") {
        Err(MediaError::Refused(detail))
    } else if status == 404 {
        Err(MediaError::NotFound(detail))
    } else {
        Err(MediaError::Unavailable(detail))
    }
}

/// The upload that a store's reply to starting one names.
pub fn created_upload(body: &str) -> (r: Result<String, MediaError>)
    ensures
        media_view(r) == match upload_id_in(body@) {
            Ok(id) => Ok::<Seq<char>, (Seq<char>, Seq<char>)>(id),
            Err(e) => Err(("unavailable"@, e)),
        },
{
    match read_upload_id(body) {
        Ok(id) => Ok(id),
        Err(e) => Err(MediaError::Unavailable(e)),
    }
}

/// Is the bucket there after an attempt to create it? A race with another that created
/// it is fine.
pub fn bucket_ready(success: bool, body: &str) -> (r: bool)
    ensures
        r == (success || holds(body@, "BucketAlreadyOwnedByYou"@)),
{
    success || contains(body, "BucketAlreadyOwnedByYou")
}

/// An object that is coming in: how much of it came, how much may, and the hash of it.
pub struct Download {
    pub total: u64,
    pub max: u64,
    pub hash: Hashing,
}

/// A download before a chunk and after it: the chunk counts, and it is hashed where the
/// object is not larger than may come.
pub open spec fn took(before: Download, chunk: Seq<u8>, after: Download) -> bool {
    &&& after.total == before.total + chunk.len()
    &&& after.max == before.max
    &&& fed(after.hash) == if after.total <= after.max {
        fed(before.hash) + chunk
    } else {
        fed(before.hash)
    }
}

impl Download {
    /// Nothing came yet, and no more than `max` bytes may.
    pub fn new(max: u64) -> (d: Self)
        ensures
            d.total == 0,
            d.max == max,
            fed(d.hash) == Seq::<u8>::empty(),
    {
        Download { total: 0, max, hash: Hashing::new() }
    }

    /// Count a chunk and hash it. It is refused, and not hashed, where the object is then
    /// larger than may come.
    pub fn take(&mut self, chunk: &[u8]) -> (ok: bool)
        requires
            old(self).total + chunk@.len() <= u64::MAX,
        ensures
            took(*old(self), chunk@, *final(self)),
            ok == (final(self).total <= final(self).max),
    {
        self.total = self.total + chunk.len() as u64;
        if self.total > self.max {
            return false;
        }
        self.hash.feed(chunk);
        true
    }

    /// The SHA-256 of what came.
    pub fn sha256(self) -> (out: String)
        ensures
            out@ == hex_of(sha256_of(fed(self.hash))),
            out@.len() == 64,
    {
        let bytes = self.hash.finish();
        hex(bytes.as_slice())
    }
}

/// Chunks one behind the other.
pub open spec fn joined(chunks: Seq<Seq<u8>>) -> Seq<u8>
    decreases chunks.len(),
{
    if chunks.len() == 0 {
        Seq::empty()
    } else {
        joined(chunks.drop_last()) + chunks.last()
    }
}

/// However an object is cut into chunks, what was counted and hashed once all of them were
/// taken is all its bytes in order.
pub proof fn law_a_digest_is_of_all_that_came(downloads: Seq<Download>, chunks: Seq<Seq<u8>>)
    requires
        downloads.len() == chunks.len() + 1,
        downloads[0].total == 0,
        fed(downloads[0].hash) == Seq::<u8>::empty(),
        forall|i: int|
            0 <= i < chunks.len() ==> took(downloads[i], #[trigger] chunks[i], downloads[i + 1])
                && downloads[i + 1].total <= downloads[i + 1].max,
    ensures
        fed(downloads.last().hash) == joined(chunks),
        downloads.last().total == joined(chunks).len(),
    decreases chunks.len(),
{
    if chunks.len() > 0 {
        let (ds, cs) = (downloads.drop_last(), chunks.drop_last());
        assert forall|i: int| 0 <= i < cs.len() implies took(ds[i], #[trigger] cs[i], ds[i + 1])
            && ds[i + 1].total <= ds[i + 1].max by {
            assert(cs[i] == chunks[i]);
        }
        law_a_digest_is_of_all_that_came(ds, cs);
        let n = chunks.len() - 1;
        assert(took(downloads[n], chunks[n], downloads[n + 1]));
    }
}

// ----------------------------------------------------------------- origins --

/// A text inside XML.
pub open spec fn xml_escaped(s: Seq<char>) -> Seq<char> {
    replace_char_of(
        replace_char_of(replace_char_of(s, '&', "&amp;"@), '<', "&lt;"@),
        '>',
        "&gt;"@,
    )
}

/// A text inside XML.
pub fn xml_escape(s: &str) -> (out: String)
    ensures
        out@ == xml_escaped(s@),
{
    let a = replace_char(s, '&', "&amp;");
    let b = replace_char(a.as_str(), '<', "&lt;");
    replace_char(b.as_str(), '>', "&gt;")
}

/// One origin of the rule.
pub open spec fn origin_xml(o: Seq<char>) -> Seq<char> {
    "<AllowedOrigin>"@ + xml_escaped(o) + "</AllowedOrigin>"@
}

/// The rule that lets some origins put parts and read renditions. The tag of a part
/// must be exposed, or the browser cannot read it back.
pub open spec fn cors_of(origins: Seq<Seq<char>>) -> Seq<char> {
    "<CORSConfiguration><CORSRule>"@ + join_of(
        origins.map_values(|o: Seq<char>| origin_xml(o)),
        ""@,
    )
        + "<AllowedMethod>PUT</AllowedMethod><AllowedMethod>GET</AllowedMethod><AllowedMethod>HEAD</AllowedMethod><AllowedHeader>*</AllowedHeader><ExposeHeader>ETag</ExposeHeader><MaxAgeSeconds>3600</MaxAgeSeconds></CORSRule></CORSConfiguration>"@
}

/// The rule that lets some origins put parts and read renditions.
pub fn cors_xml(origins: &Vec<String>) -> (out: String)
    ensures
        out@ == cors_of(strs(origins@)),
{
    let ghost want = strs(origins@).map_values(|o: Seq<char>| origin_xml(o));
    let mut rules: Vec<String> = Vec::new();
    let mut i: usize = 0;
    while i < origins.len()
        invariant
            i <= origins.len(),
            want == strs(origins@).map_values(|o: Seq<char>| origin_xml(o)),
            strs(rules@) =~= want.take(i as int),
        decreases origins.len() - i,
    {
        let e = xml_escape(origins[i].as_str());
        let ghost o = rules@;
        rules.push("<AllowedOrigin>".to_string().concat(e.as_str()).concat("</AllowedOrigin>"));
        assert(strs(rules@) =~= strs(o).push(origin_xml(origins@[i as int]@)));
        assert(want.take(i + 1) =~= want.take(i as int).push(want[i as int]));
        i = i + 1;
    }
    assert(want.take(i as int) =~= want);
    let all = join(&rules, "");
    "<CORSConfiguration><CORSRule>".to_string().concat(all.as_str()).concat(
        "<AllowedMethod>PUT</AllowedMethod><AllowedMethod>GET</AllowedMethod><AllowedMethod>HEAD</AllowedMethod><AllowedHeader>*</AllowedHeader><ExposeHeader>ETag</ExposeHeader><MaxAgeSeconds>3600</MaxAgeSeconds></CORSRule></CORSConfiguration>",
    )
}

// --------------------------------------------------------------- callbacks --

/// Is `authority` on a list, in any case and with space around its entries?
pub open spec fn listed(allow: Seq<Seq<char>>, authority: Seq<char>) -> bool {
    exists|i: int|
        0 <= i < allow.len() && lower_of(trim_of(#[trigger] allow[i])) == lower_of(authority)
}

/// Where a callback goes: host and port, in lower case.
pub open spec fn callback_authority(host: Seq<char>, port: u16) -> Seq<char> {
    lower_of(host + ":"@ + dec_of(port as nat))
}

/// Why a callback is refused, where it is.
pub open spec fn callback_refused(
    url: Seq<char>,
    read: Result<UrlView, Seq<char>>,
    allow: Seq<Seq<char>>,
) -> Option<Seq<char>> {
    match read {
        Err(_) => Some("callback_url is not a URL: "@ + debug_of(url)),
        Ok(u) => if u.scheme != "http"@ && u.scheme != "https"@ {
            Some("callback_url must be http(s): "@ + debug_of(url))
        } else {
            match (u.host, u.port) {
                (Some(host), Some(port)) => {
                    let authority = callback_authority(host, port);
                    if listed(allow, authority) {
                        None
                    } else {
                        Some("callback_url "@ + authority + " is not on --callback-allow"@)
                    }
                },
                _ => Some("callback_url has no host: "@ + debug_of(url)),
            }
        },
    }
}

/// A verdict as plain values: the reason, where there is one.
pub open spec fn reason_view(r: Result<(), String>) -> Option<Seq<char>> {
    match r {
        Ok(_) => None,
        Err(e) => Some(e@),
    }
}

/// May a result be sent to `url`, given what it reads as?
pub fn callback_verdict(url: &str, read: &Result<Url, String>, allow: &Vec<String>) -> (r: Result<
    (),
    String,
>)
    ensures
        reason_view(r) == callback_refused(url@, url_view(*read), strs(allow@)),
{
    match read {
        Err(_) => Err("callback_url is not a URL: ".to_string().concat(debug(url).as_str())),
        Ok(u) => {
            if !same(u.scheme.as_str(), "http") && !same(u.scheme.as_str(), "https") {
                return Err(
                    "callback_url must be http(s): ".to_string().concat(debug(url).as_str()),
                );
            }
            match (&u.host, u.port) {
                (Some(host), Some(port)) => {
                    let p = dec(port as u64);
                    let whole = host.as_str().to_string().concat(":").concat(p.as_str());
                    let authority = lower(whole.as_str());
                    if is_listed(allow, authority.as_str()) {
                        return Ok(());
                    }
                    Err(
                        "callback_url ".to_string().concat(authority.as_str()).concat(
                            " is not on --callback-allow",
                        ),
                    )
                },
                _ => Err("callback_url has no host: ".to_string().concat(debug(url).as_str())),
            }
        },
    }
}

fn is_listed(allow: &Vec<String>, authority: &str) -> (r: bool)
    ensures
        r == listed(strs(allow@), authority@),
{
    let want = lower(authority);
    let mut i: usize = 0;
    while i < allow.len()
        invariant
            i <= allow.len(),
            want@ == lower_of(authority@),
            forall|k: int|
                0 <= k < i ==> lower_of(trim_of(#[trigger] strs(allow@)[k])) != want@,
        decreases allow.len() - i,
    {
        let t = trim(allow[i].as_str());
        let low = lower(t.as_str());
        if same(low.as_str(), want.as_str()) {
            assert(lower_of(trim_of(strs(allow@)[i as int])) == want@);
            return true;
        }
        i = i + 1;
    }
    false
}

/// May a result be sent to `url`? It must be http(s), and its host and port, defaulted
/// from the scheme, must be on the list. An empty list allows nothing.
pub fn callback_allowed(url: &str, allow: &Vec<String>) -> (r: Result<(), String>)
    ensures
        reason_view(r) == callback_refused(url@, url_in(url@), strs(allow@)),
{
    let read = read_url(url);
    callback_verdict(url, &read, allow)
}

/// An empty list allows no callback.
pub proof fn law_an_empty_list_allows_no_callback(
    url: Seq<char>,
    read: Result<UrlView, Seq<char>>,
)
    ensures
        callback_refused(url, read, Seq::empty()) is Some,
{
}

/// An answer of the store is taken exactly where its status is a success and it tells of no
/// error. What is gone is told apart from what was refused, and everything else may be
/// tried again.
pub proof fn law_how_the_store_answers(
    status: u16,
    shown: Seq<char>,
    body: Seq<char>,
    what: Seq<char>,
)
    ensures
        checked(status, shown, body, what) is Ok <==> status >= 200 && status <= 299 && !holds(
            body,
            "<Error>"@,
        ),
        checked(status, shown, body, what) is Ok ==> checked(status, shown, body, what)->Ok_0 == body,
        checked(status, shown, body, what) is Err ==> {
            let code = if xml_tag_in(body, "Code"@) is Some {
                xml_tag_in(body, "Code"@)->0
            } else {
                Seq::empty()
            };
            let e = checked(status, shown, body, what)->Err_0;
            let missing = code == "NoSuchUpload"@ || code == "NoSuchKey"@ || code
                == "NoSuchBucket"@;
            let wrong = code == "InvalidPart"@ || code == "InvalidPartOrder"@ || code
                == "EntityTooSmall"@;
            &&& e.1 == what + ": "@ + shown + " "@ + code
            &&& missing ==> e.0 == "not-found"@
            &&& !missing && wrong ==> e.0 == "refused"@
            &&& !missing && !wrong && status == 404 ==> e.0 == "not-found"@
            &&& !missing && !wrong && status != 404 ==> e.0 == "unavailable"@
        },
{
}

/// A result is posted back only to a web address whose host and port the operator listed.
pub proof fn law_a_callback_goes_where_the_operator_said(
    url: Seq<char>,
    read: Result<UrlView, Seq<char>>,
    allow: Seq<Seq<char>>,
)
    ensures
        callback_refused(url, read, allow) is None <==> (read is Ok && (read->Ok_0.scheme == "http"@
            || read->Ok_0.scheme == "https"@) && read->Ok_0.host is Some && read->Ok_0.port is Some
            && exists|i: int|
            0 <= i < allow.len() && lower_of(trim_of(#[trigger] allow[i])) == lower_of(
                lower_of(read->Ok_0.host->0 + ":"@ + dec_of(read->Ok_0.port->0 as nat)),
            )),
{
}

/// What is read out of a tag stands between its opening and its closing, and it is the first
/// that does.
pub proof fn law_a_tag_holds_what_it_encloses(body: Seq<char>, tag: Seq<char>)
    ensures
        xml_tag_in(body, tag) matches Some(t) ==> exists|i: int| #[trigger]
            crate::text::occurs_at(body, "<"@ + tag + ">"@, i) && (forall|j: int|
                0 <= j < i ==> !crate::text::occurs_at(body, "<"@ + tag + ">"@, j)) && body.skip(
                i + ("<"@ + tag + ">"@).len(),
            ).take(t.len() as int) == t && crate::text::occurs_at(
                body,
                "</"@ + tag + ">"@,
                i + ("<"@ + tag + ">"@).len() + t.len(),
            ),
{
    let open = "<"@ + tag + ">"@;
    crate::text::lemma_find(body, open, 0);
    if let Some(i) = find_from(body, open, 0) {
        let start = i + open.len();
        crate::text::lemma_find(body, "</"@ + tag + ">"@, start);
        if let Some(end) = find_from(body, "</"@ + tag + ">"@, start) {
            assert(crate::text::occurs_at(body, open, i));
            assert(body.skip(start).take(end - start) =~= body.subrange(start, end));
        }
    }
}

proof fn lemma_replaced(s: Seq<char>, c: char, with: Seq<char>, d: char)
    requires
        !with.contains(d),
        d == c || !s.contains(d),
    ensures
        !replace_char_of(s, c, with).contains(d),
    decreases s.len(),
{
    if s.len() > 0 {
        let p = s.drop_last();
        if d != c {
            assert forall|i: int| 0 <= i < p.len() implies p[i] != d by {
                assert(s[i] == p[i]);
            }
            assert(!p.contains(d));
            assert(s[s.len() - 1] != d);
        }
        lemma_replaced(p, c, with, d);
        let r = replace_char_of(p, c, with);
        let more = if s.last() == c {
            with
        } else {
            seq![s.last()]
        };
        assert(replace_char_of(s, c, with) =~= r + more);
        assert forall|i: int| 0 <= i < (r + more).len() implies (r + more)[i] != d by {
            if i < r.len() {
                assert((r + more)[i] == r[i]);
            } else {
                assert((r + more)[i] == more[i - r.len()]);
                if s.last() == c {
                    assert(with.contains(with[i - r.len()]));
                }
            }
        }
    }
}

/// No escaped text opens or closes a tag.
pub proof fn law_an_escaped_text_holds_no_tag(s: Seq<char>)
    ensures
        !xml_escaped(s).contains('<'),
        !xml_escaped(s).contains('>'),
{
    reveal_strlit("&lt;");
    reveal_strlit("&gt;");
    assert("&lt;"@.len() == 4);
    assert("&gt;"@.len() == 4);
    let a = replace_char_of(s, '&', "&amp;"@);
    let b = replace_char_of(a, '<', "&lt;"@);
    assert(!"&lt;"@.contains('<'));
    lemma_replaced(a, '<', "&lt;"@, '<');
    assert(!"&gt;"@.contains('<'));
    assert(!"&gt;"@.contains('>'));
    lemma_replaced(b, '>', "&gt;"@, '<');
    lemma_replaced(b, '>', "&gt;"@, '>');
}

/// Originals and renditions lie in buckets of their own, inside and out.
pub proof fn law_each_kind_has_its_bucket(s: Store)
    ensures
        s.bucket_of(Which::Originals) == s.originals,
        s.bucket_of(Which::Renditions) == s.renditions,
        s.public_bucket_of(Which::Originals) == s.public_originals,
        s.public_bucket_of(Which::Renditions) == s.public_renditions,
{
}

/// What a URL grants: it is of the object or of the bucket that was named, lives as long as was
/// said, asks what was asked, and was signed with the credentials for the method.
pub proof fn law_what_a_url_grants(
    url: Seq<char>,
    method: Seq<char>,
    bucket: rusty_s3::Bucket,
    credentials: rusty_s3::Credentials,
    object: Option<Seq<char>>,
    query: Seq<char>,
    secs: int,
)
    requires
        grants(url, method, bucket, credentials, object, query, secs),
    ensures
        object is Some ==> (object_url(bucket, object->0)
            + "?X-Amz-Algorithm=AWS4-HMAC-SHA256&"@).is_prefix_of(url),
        object is None ==> (bucket_url(bucket)
            + "?X-Amz-Algorithm=AWS4-HMAC-SHA256&"@).is_prefix_of(url),
        holds(url, "&X-Amz-Expires="@ + dec_of(secs as nat) + "&"@),
        holds(url, "&X-Amz-SignedHeaders=host"@ + query + "&X-Amz-Signature="@),
        exists|date: Seq<char>|
            url == #[trigger] presigned(method, bucket, credentials, object, query, secs, date),
{
}

/// Every origin that was listed is allowed, escaped.
pub proof fn law_every_listed_origin_is_allowed(origins: Seq<Seq<char>>, i: int)
    requires
        0 <= i < origins.len(),
    ensures
        holds(
            cors_of(origins),
            "<AllowedOrigin>"@ + xml_escaped(origins[i]) + "</AllowedOrigin>"@,
        ),
{
    let parts = origins.map_values(|o: Seq<char>| origin_xml(o));
    let r = crate::text::lemma_join_around(parts, i, ""@);
    let n = "<AllowedOrigin>"@ + xml_escaped(origins[i]) + "</AllowedOrigin>"@;
    assert(parts[i] == n);
    let head = "<CORSConfiguration><CORSRule>"@;
    let tail = "<AllowedMethod>PUT</AllowedMethod><AllowedMethod>GET</AllowedMethod><AllowedMethod>HEAD</AllowedMethod><AllowedHeader>*</AllowedHeader><ExposeHeader>ETag</ExposeHeader><MaxAgeSeconds>3600</MaxAgeSeconds></CORSRule></CORSConfiguration>"@;
    crate::text::lemma_holds_end(head + r.0, n);
    crate::text::lemma_holds_longer(head + r.0 + n, n, r.1);
    crate::text::lemma_holds_longer(head + r.0 + n + r.1, n, tail);
    crate::text::lemma_assoc(head, r.0, n);
    crate::text::lemma_assoc(head, r.0 + n, r.1);
    assert(cors_of(origins) == head + (r.0 + n + r.1) + tail);
}

/// A request about an object goes to the object's address, one about a bucket to the bucket's.
pub proof fn law_where_a_request_goes(bucket: rusty_s3::Bucket, o: Seq<char>)
    ensures
        target_url(bucket, Some(o)) == object_url(bucket, o),
        target_url(bucket, None) == bucket_url(bucket),
{
}

} // verus!
