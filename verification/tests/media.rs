use comp_tools::json::{parse, Json};
use comp_tools::media::decode::{
    camera_name, compose_camera, exif_chunk_metadata, exif_datetime, exif_orientation, green_block,
    metadata, no_shot, orient_plane, picture, raw_shot, Area, KnownCamera, Mosaic, Orientation,
};
use comp_tools::media::develop::{renditions_cpu, write_rendition, Picture};
use comp_tools::media::errors::{answer, MediaError};
use comp_tools::media::keys::{
    allowed_ext, count_parts, parse_key, plan_parts, valid_id, Which, PART_SIZE,
};
use comp_tools::media::routes::{
    complete_upload, completed, health, ordered_etags, part_urls, queued, sign, start_upload,
    submit, takes_job, upload_reply, Job, PartEtag, StartUpload,
};
use comp_tools::media::settings::secret;
use comp_tools::media::store::{
    bucket_ready, callback_allowed, callback_verdict, check, cors_xml, created_upload, xml_escape,
    xml_tag, Download, Store,
};
use comp_tools::media::worker::{
    deliver, evaluate, failed_body, first_quality, helper_args, last_word, long_edge, next_quality,
    rendition, signature, Action, Event, Helper, Rendition, Sent,
};
use comp_tools::text_map::TextMap;
use comp_tools::url::Url;
use rusty_s3::{Bucket, Credentials, UrlStyle};

// ------------------------------------------------------------------ keys --

#[test]
fn ids_are_the_contracts_character_class_and_nothing_else() {
    assert!(valid_id("photo_01-A"));
    assert!(valid_id(&"x".repeat(64)));
    assert!(!valid_id(&"x".repeat(65)));
    assert!(!valid_id(""));
    for bad in ["../etc", "a/b", "a.b", "a b", "é", "a\0b"] {
        assert!(!valid_id(bad), "{bad:?} must be refused");
    }
}

fn key(k: &str) -> Option<(Which, String)> {
    parse_key(k)
}

#[test]
fn only_keys_this_daemon_could_have_made_parse() {
    assert_eq!(key("originals/p1.arw"), Some((Which::Originals, "p1.arw".to_string())));
    assert_eq!(
        key("renditions/p1/share.jpg"),
        Some((Which::Renditions, "p1/share.jpg".to_string()))
    );
    for bad in [
        "originals/../x.arw",
        "originals/p1.exe",
        "originals/p1",
        "originals/a/b.arw",
        "renditions/p1/other.jpg",
        "renditions/../p1/thumb.jpg",
        "renditions/p1/thumb.jpg/x",
        "elsewhere/p1.arw",
        "p1.arw",
    ] {
        assert_eq!(key(bad), None, "{bad:?} must not parse");
    }
}

#[test]
fn the_extension_is_lower_cased_and_allow_listed() {
    assert_eq!(allowed_ext("SZI02833.ARW").as_deref(), Some("arw"));
    assert_eq!(allowed_ext("a.JPEG").as_deref(), Some("jpeg"));
    assert_eq!(allowed_ext("a.png"), None);
    assert_eq!(allowed_ext("noext"), None);
}

#[test]
fn only_a_names_own_dot_makes_an_extension() {
    assert_eq!(allowed_ext(".arw"), None);
    assert_eq!(allowed_ext("dir.arw/x"), None);
    assert_eq!(allowed_ext("dir/x.jpg/"), Some("jpg".to_string()));
    assert_eq!(allowed_ext("x.jpg/.."), None);
}

#[test]
fn parts_are_planned_with_a_short_last_one() {
    let parts = plan_parts(129_581_056, PART_SIZE);
    assert_eq!(parts.len(), 8);
    assert_eq!(parts[0], (1, PART_SIZE));
    assert_eq!(parts[7].0, 8);
    assert_eq!(parts.iter().map(|p| p.1).sum::<u64>(), 129_581_056);
    assert_eq!(plan_parts(PART_SIZE, PART_SIZE), vec![(1, PART_SIZE)]);
    assert_eq!(plan_parts(1, PART_SIZE), vec![(1, 1)]);
    assert_eq!(plan_parts(PART_SIZE + 1, PART_SIZE), vec![(1, PART_SIZE), (2, 1)]);
}

#[test]
fn nothing_takes_no_parts() {
    assert_eq!(count_parts(0, PART_SIZE), 0);
    assert_eq!(plan_parts(0, PART_SIZE), vec![]);
    assert_eq!(count_parts(u64::MAX, 1), u64::MAX);
}

// ---------------------------------------------------------------- routes --

#[test]
fn a_part_list_with_a_gap_or_a_repeat_is_refused() {
    let p = |n: u32| PartEtag { number: n, etag: format!("\"e{n}\"") };
    assert_eq!(
        ordered_etags(&vec![p(2), p(1), p(3)]).unwrap(),
        vec!["\"e1\"", "\"e2\"", "\"e3\""]
    );
    assert!(ordered_etags(&vec![p(1), p(3)]).is_err());
    assert!(ordered_etags(&vec![p(1), p(1)]).is_err());
    assert!(ordered_etags(&vec![p(2)]).is_err());
    assert!(ordered_etags(&vec![]).is_err());
}

fn wish(id: &str, file: &str, size: u64, kind: &str) -> StartUpload {
    StartUpload {
        photo_id: id.to_string(),
        filename: file.to_string(),
        size,
        content_type: kind.to_string(),
    }
}

fn refused(r: Result<impl Sized, MediaError>) -> String {
    match r {
        Err(MediaError::Refused(why)) => why,
        _ => panic!("not refused"),
    }
}

#[test]
fn an_upload_is_refused_for_the_first_thing_wrong_with_it() {
    let max = 512 * 1024 * 1024;
    assert_eq!(
        refused(start_upload(&wish("a/b", "x.png", 0, "text/html"), max)),
        "photo_id must match [A-Za-z0-9_-]{1,64}: \"a/b\""
    );
    assert_eq!(
        refused(start_upload(&wish("p1", "x.png", 0, "text/html"), max)),
        "not an accepted file type: \"x.png\" (accepts [\"arw\", \"jpg\", \"jpeg\"])"
    );
    assert_eq!(
        refused(start_upload(&wish("p1", "x.ARW", 0, "text/html"), max)),
        "not an accepted content type: \"text/html\""
    );
    assert_eq!(
        refused(start_upload(&wish("p1", "x.ARW", 0, "Image/JPEG"), max)),
        "size 0 is outside 1..=536870912 bytes"
    );
    assert_eq!(
        refused(start_upload(&wish("p1", "x.ARW", PART_SIZE * 10_000 + 1, ""), u64::MAX)),
        "too many parts"
    );
    let ok = start_upload(&wish("p1", "x.ARW", PART_SIZE + 1, ""), max).unwrap();
    assert_eq!(ok.object, "p1.arw");
    assert_eq!(ok.parts, vec![(1, PART_SIZE), (2, 1)]);
}

#[test]
fn an_upload_is_answered_with_its_key_and_its_parts() {
    let up = start_upload(&wish("p1", "x.jpg", 3, "image/jpeg"), 10).unwrap();
    let j = upload_reply(&up, "u1", &vec!["http://x/1".to_string()], 100);
    assert_eq!(j.text_field("upload_id").unwrap(), "u1");
    assert_eq!(j.text_field("key").unwrap(), "originals/p1.jpg");
    assert_eq!(j.field("part_size").unwrap().number(), Some(PART_SIZE));
    assert_eq!(j.field("expires_at").unwrap().number(), Some(100 + 6 * 3600));
    let parts = j.field("parts").unwrap().list().unwrap();
    assert_eq!(parts.len(), 1);
    assert_eq!(parts[0].field("number").unwrap().number(), Some(1));
    assert_eq!(parts[0].text_field("url").unwrap(), "http://x/1");
}

#[test]
fn only_an_original_is_completed() {
    let p = |n: u32| PartEtag { number: n, etag: n.to_string() };
    assert_eq!(
        refused(complete_upload("renditions/p1/ai.jpg", &vec![p(1)])),
        "not an originals key: \"renditions/p1/ai.jpg\""
    );
    assert_eq!(
        refused(complete_upload("originals/p1.arw", &vec![p(2)])),
        "parts must be numbered 1..=n with none missing or repeated"
    );
    let (object, tags) = complete_upload("originals/p1.arw", &vec![p(2), p(1)]).unwrap();
    assert_eq!((object.as_str(), tags), ("p1.arw", vec!["1".to_string(), "2".to_string()]));
    assert_eq!(completed("originals/p1.arw").text_field("key").unwrap(), "originals/p1.arw");
}

fn job(id: &str, photo: &str, key: &str, url: &str) -> Job {
    Job {
        job_id: id.to_string(),
        photo_id: photo.to_string(),
        key: key.to_string(),
        callback_url: url.to_string(),
    }
}

#[test]
fn a_job_names_its_own_photos_original_and_an_allowed_callback() {
    let allow = vec!["app:80".to_string()];
    let ok = job("j1", "p1", "originals/p1.arw", "http://app/cb");
    assert!(submit(&ok, &allow).is_ok());
    assert!(takes_job(&ok, &allow));
    assert_eq!(
        refused(submit(&job("j 1", "p1", "originals/p1.arw", "http://app/cb"), &allow)),
        "job_id and photo_id must match [A-Za-z0-9_-]{1,64}"
    );
    assert_eq!(
        refused(submit(&job("j1", "p2", "originals/p1.arw", "http://app/cb"), &allow)),
        "not this photo's original: \"originals/p1.arw\""
    );
    assert_eq!(
        refused(submit(&job("j1", "p1", "originals/p1.arw", "http://evil/cb"), &allow)),
        "callback_url evil:80 is not on --callback-allow"
    );
    assert!(!takes_job(&job("../j", "p1", "originals/p1.arw", "http://app/cb"), &allow));
    assert!(!takes_job(&job("j1", "p1", "renditions/p1/ai.jpg", "http://app/cb"), &allow));
    assert!(!takes_job(&job("j1", "p1", "originals/p1.arw", "http://evil/cb"), &allow));
    let q = queued("j1");
    assert_eq!(q.text_field("job_id").unwrap(), "j1");
    assert_eq!(q.field("queued").unwrap().truth(), Some(true));
}

#[test]
fn originals_are_signed_only_where_the_operator_said_so() {
    assert_eq!(
        refused(sign("originals/p1.arw", 60, false)),
        "originals are not signed for browsers (see --sign-originals)"
    );
    assert_eq!(refused(sign("x", 60, true)), "not a key this daemon issues: \"x\"");
    assert_eq!(
        sign("originals/p1.arw", 0, true).unwrap(),
        (Which::Originals, "p1.arw".to_string(), 1)
    );
    assert_eq!(sign("renditions/p1/ai.jpg", u64::MAX, false).unwrap().2, 7 * 24 * 3600);
    let h = health(true, false, true);
    assert_eq!(h.field("store").unwrap().truth(), Some(true));
    assert_eq!(h.field("queue").unwrap().truth(), Some(false));
}

#[test]
fn an_error_is_answered_by_its_kind() {
    let j = answer(Err(MediaError::NotFound("gone".to_string())));
    assert_eq!(j.text_field("error").unwrap(), "not-found");
    assert_eq!(j.text_field("detail").unwrap(), "gone");
    assert_eq!(
        answer(Err(MediaError::Unavailable("x".to_string()))).text_field("error").unwrap(),
        "unavailable"
    );
    assert_eq!(answer(Ok(Json::Null)), Json::Null);
}

#[test]
fn a_secret_in_a_file_wins() {
    let s = |t: &str| Some(t.to_string());
    assert_eq!(secret(s("a"), s(" b\n"), "k").unwrap(), "b");
    assert_eq!(secret(s("a"), None, "k").unwrap(), "a");
    assert_eq!(secret(None, None, "k").unwrap_err(), "--k or --k-file is required");
}

// ----------------------------------------------------------------- store --

#[test]
fn s3_error_codes_are_read_from_the_xml() {
    let body =
        "<?xml version=\"1.0\"?><Error><Code>NoSuchUpload</Code><Message>x</Message></Error>";
    assert_eq!(xml_tag(body, "Code").as_deref(), Some("NoSuchUpload"));
    assert_eq!(xml_tag("<a/>", "Code"), None);
}

#[test]
fn a_callback_must_be_on_the_allow_list() {
    let allow = vec!["127.0.0.1:3941".to_string(), "App.Example.com:443".to_string()];
    assert!(callback_allowed("http://127.0.0.1:3941/internal/photos/x/evaluated", &allow).is_ok());
    assert!(callback_allowed("https://app.example.com/cb", &allow).is_ok());
    for bad in [
        "http://127.0.0.1:3942/cb",
        "http://169.254.169.254/latest/meta-data",
        "http://localhost:3941/cb",
        "http://app.example.com/cb",
        "ftp://127.0.0.1:3941/cb",
        "not a url",
    ] {
        assert!(callback_allowed(bad, &allow).is_err(), "{bad:?} must be refused");
    }
    assert!(callback_allowed("http://127.0.0.1:3941/cb", &vec![]).is_err());
}

#[test]
fn a_callback_is_refused_for_what_it_is() {
    let allow = vec![" app:80 ".to_string()];
    let u = |scheme: &str, host: Option<&str>, port: Option<u16>| {
        Ok(Url { scheme: scheme.to_string(), host: host.map(|h| h.to_string()), port })
    };
    assert!(callback_verdict("x", &u("http", Some("APP"), Some(80)), &allow).is_ok());
    assert_eq!(
        callback_verdict("x", &Err("empty host".to_string()), &allow).unwrap_err(),
        "callback_url is not a URL: \"x\""
    );
    assert_eq!(
        callback_verdict("x", &u("ftp", Some("app"), Some(80)), &allow).unwrap_err(),
        "callback_url must be http(s): \"x\""
    );
    assert_eq!(
        callback_verdict("x", &u("http", None, Some(80)), &allow).unwrap_err(),
        "callback_url has no host: \"x\""
    );
}

fn bucket(e: &str, n: &str) -> Bucket {
    Bucket::new(e.parse().unwrap(), UrlStyle::Path, n.to_string(), "us-east-1".to_string()).unwrap()
}

fn store() -> Store {
    Store {
        creds: Credentials::new("k", "s"),
        originals: bucket("http://rustfs:9000", "originals"),
        renditions: bucket("http://rustfs:9000", "renditions"),
        public_originals: bucket("https://s3.example.com", "originals"),
        public_renditions: bucket("https://s3.example.com", "renditions"),
    }
}

#[test]
fn browser_urls_are_signed_against_the_public_endpoint() {
    let store = store();
    let part = store.part_url("p1.arw", 1, "u1");
    assert!(part.starts_with("https://s3.example.com/originals/p1.arw?"), "{part}");
    let get = store.sign_get(Which::Renditions, "p1/share.jpg", 60);
    assert!(get.starts_with("https://s3.example.com/renditions/p1/share.jpg?"), "{get}");
    assert!(store
        .bucket(Which::Originals)
        .base_url()
        .as_str()
        .starts_with("http://rustfs:9000"));
}

#[test]
fn what_is_signed_is_what_is_asked() {
    let s = store();
    let signed = |url: &str, base: &str, secs: u64, query: &str| {
        assert!(
            url.starts_with(&format!("{base}?X-Amz-Algorithm=AWS4-HMAC-SHA256&")),
            "{url}"
        );
        assert!(url.contains(&format!("&X-Amz-Expires={secs}&")), "{url}");
        assert!(
            url.contains(&format!("&X-Amz-SignedHeaders=host{query}&X-Amz-Signature=")),
            "{url}"
        );
    };
    let originals = "http://rustfs:9000/originals/";
    signed(&s.head_url(Which::Originals, 30), originals, 30, "");
    signed(&s.create_bucket_url(Which::Originals), originals, 60, "");
    let object = "http://rustfs:9000/originals/p1.arw";
    signed(&s.create_upload_url("p1.arw"), object, 60, "&uploads=1");
    signed(
        &s.part_url("p1.arw", 7, "u 1"),
        "https://s3.example.com/originals/p1.arw",
        21600,
        "&partNumber=7&uploadId=u+1",
    );
    signed(&s.abort_upload("p1.arw", "u1"), object, 60, "&uploadId=u1");
    signed(&s.download_url(Which::Originals, "p1.arw"), object, 600, "");
    signed(
        &s.put(Which::Renditions, "p1/ai.jpg"),
        "http://rustfs:9000/renditions/p1/ai.jpg",
        300,
        "",
    );
    let (url, body) =
        s.complete_upload("p1.arw", "u1", &vec!["\"a\"".to_string(), "b".to_string()]);
    signed(&url, object, 60, "&uploadId=u1");
    assert!(body.contains("<PartNumber>1</PartNumber>"), "{body}");
    assert!(body.contains("<ETag>b</ETag><PartNumber>2</PartNumber>"), "{body}");
    let (url, body, digest) = s.put_cors(Which::Renditions, &vec!["http://a".to_string()]);
    signed(&url, "http://rustfs:9000/renditions/", 60, "&cors=");
    assert_eq!(body, cors_xml(&vec!["http://a".to_string()]));
    assert_eq!(digest.len(), 24);
    assert!(digest.ends_with("=="));
}

#[test]
fn a_browser_gets_one_url_for_each_part() {
    let up = start_upload(&wish("p1", "x.arw", PART_SIZE + 1, ""), u64::MAX).unwrap();
    let urls = part_urls(&store(), &up, "u1");
    assert_eq!(urls.len(), 2);
    assert!(urls[1].contains("&partNumber=2&uploadId=u1&"), "{}", urls[1]);
}

#[test]
fn a_digest_is_of_the_body_that_is_sent() {
    let (_, body, digest) = store().put_cors(Which::Originals, &vec![]);
    let (_, again, same) = store().put_cors(Which::Originals, &vec![]);
    let (_, other, differs) = store().put_cors(Which::Originals, &vec!["x".to_string()]);
    assert_eq!((body.as_str(), digest.as_str()), (again.as_str(), same.as_str()));
    assert_ne!(body, other);
    assert_ne!(digest, differs);
}

#[test]
fn origins_are_escaped() {
    assert_eq!(xml_escape("a<b>&c"), "a&lt;b&gt;&amp;c");
    assert_eq!(
        cors_xml(&vec!["http://a&b".to_string()]),
        "<CORSConfiguration><CORSRule><AllowedOrigin>http://a&amp;b</AllowedOrigin><AllowedMethod>PUT</AllowedMethod><AllowedMethod>GET</AllowedMethod><AllowedMethod>HEAD</AllowedMethod><AllowedHeader>*</AllowedHeader><ExposeHeader>ETag</ExposeHeader><MaxAgeSeconds>3600</MaxAgeSeconds></CORSRule></CORSConfiguration>"
    );
}

#[test]
fn an_answer_of_the_store_means_what_its_code_says() {
    let ask = |status: u16, shown: &str, body: &str| check(status, shown, body.to_string(), "put");
    assert_eq!(ask(200, "200 OK", "fine").unwrap(), "fine");
    let code = |c: &str| format!("<Error><Code>{c}</Code></Error>");
    assert_eq!(
        ask(200, "200 OK", &code("InvalidPart")).unwrap_err(),
        MediaError::Refused("put: 200 OK InvalidPart".to_string())
    );
    assert_eq!(
        ask(404, "404 Not Found", &code("NoSuchKey")).unwrap_err(),
        MediaError::NotFound("put: 404 Not Found NoSuchKey".to_string())
    );
    assert_eq!(
        ask(404, "404 Not Found", "").unwrap_err(),
        MediaError::NotFound("put: 404 Not Found ".to_string())
    );
    assert_eq!(
        ask(500, "500 Internal Server Error", &code("SlowDown")).unwrap_err(),
        MediaError::Unavailable("put: 500 Internal Server Error SlowDown".to_string())
    );
    assert!(bucket_ready(true, ""));
    assert!(bucket_ready(false, "<Code>BucketAlreadyOwnedByYou</Code>"));
    assert!(!bucket_ready(false, "no"));
    let reply = "<InitiateMultipartUploadResult><UploadId>abc</UploadId></InitiateMultipartUploadResult>";
    assert_eq!(created_upload(reply).unwrap(), "abc");
    assert!(matches!(created_upload("nonsense"), Err(MediaError::Unavailable(_))));
}

#[test]
fn a_download_stops_where_it_is_too_large() {
    let mut d = Download::new(10);
    assert!(d.take(b"0123456789"));
    assert!(!d.take(b"x"));
    assert_eq!(d.total, 11);
    assert_eq!(d.sha256(), "84d89877f0d4041efb6bf91a16f0248f2fd573e6af05c19f96bedb9f882f7882");
}

// ---------------------------------------------------------------- decode --

#[test]
fn orienting_a_plane_moves_pixels_the_way_exif_says() {
    let p = [1.0, 2.0, 3.0, 4.0, 5.0, 6.0];
    assert_eq!(orient_plane(&p, 3, 2, 6), (vec![4.0, 1.0, 5.0, 2.0, 6.0, 3.0], 2, 3));
    assert_eq!(orient_plane(&p, 3, 2, 8), (vec![3.0, 6.0, 2.0, 5.0, 1.0, 4.0], 2, 3));
    assert_eq!(orient_plane(&p, 3, 2, 3).0, vec![6.0, 5.0, 4.0, 3.0, 2.0, 1.0]);
    assert_eq!(orient_plane(&p, 3, 2, 1).0, p.to_vec());
}

#[test]
fn turning_back_gives_the_plane() {
    let p: Vec<u32> = (0..12).collect();
    for (o, back) in [(1, 1), (2, 2), (3, 3), (4, 4), (5, 5), (6, 8), (7, 7), (8, 6), (9, 9)] {
        let (q, w, h) = orient_plane(&p, 4, 3, o);
        assert_eq!(orient_plane(&q, w, h, back), (p.clone(), 4, 3), "orientation {o}");
    }
}

#[test]
fn orientations_have_their_exif_numbers() {
    assert_eq!(exif_orientation(Orientation::Unknown), 1);
    assert_eq!(exif_orientation(Orientation::Transpose), 5);
    assert_eq!(exif_orientation(Orientation::Rotate90), 6);
    assert_eq!(exif_orientation(Orientation::Rotate270), 8);
}

#[test]
fn exif_dates_become_iso_without_a_zone() {
    assert_eq!(exif_datetime("2026:09:23 13:11:47").as_deref(), Some("2026-09-23T13:11:47"));
    assert_eq!(exif_datetime("garbage"), None);
}

#[test]
fn exif_datetime_rejects_what_is_not_a_camera_clock() {
    assert_eq!(exif_datetime("2026:09:23 13:11:47.123").as_deref(), Some("2026-09-23T13:11:47"));
    assert_eq!(exif_datetime("    :  :     :  :  "), None);
    assert_eq!(exif_datetime("0000:00:00 00:00:00"), None);
    assert_eq!(exif_datetime("2026:09:23 13:11:4\u{e9}"), None);
    assert_eq!(exif_datetime("2026-09-23 13:11:47"), None);
    assert_eq!(exif_datetime(""), None);
}

enum V {
    A(&'static str),
    R(u32, u32),
    S(u16),
}

fn tiff_value(v: &V) -> (u16, u32, Vec<u8>) {
    match v {
        V::A(s) => (2, s.len() as u32 + 1, [s.as_bytes(), &[0]].concat()),
        V::R(n, d) => (5, 1, [n.to_le_bytes(), d.to_le_bytes()].concat()),
        V::S(x) => (3, 1, x.to_le_bytes().to_vec()),
    }
}

fn tiff_ifd(out: &mut Vec<u8>, data: &mut Vec<u8>, data_base: usize, entries: &[(u16, V)]) {
    out.extend((entries.len() as u16).to_le_bytes());
    for (tag, v) in entries {
        let (ty, count, bytes) = tiff_value(v);
        out.extend(tag.to_le_bytes());
        out.extend(ty.to_le_bytes());
        out.extend(count.to_le_bytes());
        if bytes.len() <= 4 {
            let mut inline = bytes.clone();
            inline.resize(4, 0);
            out.extend(inline);
        } else {
            out.extend(((data_base + data.len()) as u32).to_le_bytes());
            data.extend(&bytes);
            if data.len() % 2 == 1 {
                data.push(0);
            }
        }
    }
    out.extend(0u32.to_le_bytes());
}

fn tiff(ifd0: Vec<(u16, V)>, exif: Vec<(u16, V)>) -> Vec<u8> {
    let exif_at = 8 + 2 + 12 * (ifd0.len() + 1) + 4;
    let data_at = exif_at + 2 + 12 * exif.len() + 4;
    let mut ifd0 = ifd0;
    ifd0.push((0x8769, V::S(0)));
    let mut out = b"II\x2a\x00".to_vec();
    out.extend(8u32.to_le_bytes());
    let mut data = Vec::new();
    tiff_ifd(&mut out, &mut data, data_at, &ifd0);
    let ptr = 8 + 2 + 12 * (ifd0.len() - 1);
    out[ptr + 2..ptr + 4].copy_from_slice(&4u16.to_le_bytes());
    out[ptr + 8..ptr + 12].copy_from_slice(&(exif_at as u32).to_le_bytes());
    tiff_ifd(&mut out, &mut data, data_at, &exif);
    assert_eq!(out.len(), data_at);
    out.extend(data);
    out
}

fn s(t: &str) -> Option<String> {
    Some(t.to_string())
}

#[test]
fn a_jpeg_originals_exif_is_its_metadata() {
    let exif = tiff(
        vec![(0x010F, V::A("SONY")), (0x0110, V::A("ILCE-7RM5"))],
        vec![
            (0x829A, V::R(1, 250)),
            (0x829D, V::R(28, 10)),
            (0x8827, V::S(400)),
            (0x9003, V::A("2026:05:01 09:30:15")),
            (0x920A, V::R(500, 10)),
            (0xA434, V::A("FE 24-70mm F2.8 GM II")),
        ],
    );
    let shot = exif_chunk_metadata(&exif).unwrap();
    assert_eq!(shot.camera, s("Sony ILCE-7RM5"));
    assert_eq!(shot.lens, s("FE 24-70mm F2.8 GM II"));
    assert_eq!(shot.captured_at, s("2026-05-01T09:30:15"));
    assert_eq!(shot.exposure, Some((1, 250)));
    assert_eq!(shot.fnumber, Some((28, 10)));
    assert_eq!(shot.focal, Some((500, 10)));
    assert_eq!(shot.iso, Some(400));
    let number = |t: &str| Json::Float(t.to_string());
    let m = metadata(&shot, number("0.004"), number("2.8"), number("50.0"), 16, 8);
    assert_eq!(m.text_field("camera").unwrap(), "Sony ILCE-7RM5");
    assert_eq!(m.field("exposure_s"), Some(&number("0.004")));
    assert_eq!(m.field("iso").unwrap().number(), Some(400));
    assert_eq!(m.field("width").unwrap().number(), Some(16));
    assert_eq!(m.field("height").unwrap().number(), Some(8));
}

#[test]
fn a_missing_exif_tag_is_null_on_its_own() {
    let exif = tiff(
        vec![(0x010F, V::A("Acme")), (0x0110, V::A("Acme Box 1")), (0x0112, V::S(6))],
        vec![(0x829D, V::R(8, 1))],
    );
    let shot = exif_chunk_metadata(&exif).unwrap();
    assert_eq!(shot.camera, s("Acme Box 1"));
    assert_eq!((shot.lens, shot.captured_at, shot.exposure), (None, None, None));
    assert_eq!(shot.fnumber, Some((8, 1)));
    assert_eq!((shot.focal, shot.iso), (None, None));
}

#[test]
fn a_jpeg_without_exif_has_only_its_size() {
    let m = metadata(&no_shot(), Json::Null, Json::Null, Json::Null, 16, 8);
    for f in ["camera", "lens", "captured_at", "exposure_s", "fnumber", "focal_mm", "iso"] {
        assert_eq!(m.field(f), Some(&Json::Null), "{f}");
    }
    assert_eq!(m.field("width").unwrap().number(), Some(16));
    assert_eq!(m.field("height").unwrap().number(), Some(8));
}

#[test]
fn broken_exif_is_no_metadata_not_a_failed_job() {
    for chunk in [&b"Exif\0\0II\x2a\x00\xff\xff\xff\x7f"[..], b"", b"not a tiff at all"] {
        if let Ok(v) = exif_chunk_metadata(chunk) {
            assert_eq!(v, no_shot());
        }
    }
    let mut truncated =
        tiff(vec![(0x010F, V::A("SONY"))], vec![(0x9003, V::A("2026:05:01 09:30:15"))]);
    truncated.truncate(truncated.len() - 12);
    let _ = exif_chunk_metadata(&truncated);

    let mut huge = tiff(
        vec![(0x010F, V::A("Acme")), (0x0110, V::A("Box"))],
        vec![(0x829A, V::R(1, 250)), (0x829D, V::R(4, 1))],
    );
    let exif_at = 8 + 2 + 12 * 3 + 4;
    huge[exif_at + 2 + 4..exif_at + 2 + 8].copy_from_slice(&u32::MAX.to_le_bytes());
    let v = exif_chunk_metadata(&huge).unwrap();
    assert_eq!((v.camera, v.exposure, v.fnumber), (s("Acme Box"), None, Some((4, 1))));
}

#[test]
fn a_marked_chunk_reads_as_the_bare_one() {
    let bare = tiff(vec![(0x010F, V::A("Acme"))], vec![(0x8833, V::S(100))]);
    let mut marked = b"Exif\0\0".to_vec();
    marked.extend(&bare);
    assert_eq!(exif_chunk_metadata(&marked), exif_chunk_metadata(&bare));
    assert_eq!(exif_chunk_metadata(&bare).unwrap().iso, Some(100));
    assert!(exif_chunk_metadata(b"nope").unwrap_err().starts_with("EXIF: "));
}

#[test]
fn a_zero_denominator_is_no_number() {
    let exif = tiff(vec![(0x010F, V::A("A"))], vec![(0x829A, V::R(1, 0))]);
    assert_eq!(exif_chunk_metadata(&exif).unwrap().exposure, None);
}

#[test]
fn a_camera_is_called_by_its_clean_name() {
    let known = |make: &str, model: &str, mode: &str, clean: &str| KnownCamera {
        make: make.to_string(),
        model: model.to_string(),
        mode: mode.to_string(),
        clean_make: "Clean".to_string(),
        clean_model: clean.to_string(),
    };
    let table = vec![known("M", "X", "crop", "X in a mode"), known("M", "X", "", "X")];
    assert_eq!(camera_name(&table, " M ", "X"), s("Clean X"));
    assert_eq!(camera_name(&table[..1].iter().map(|k| known("M", "X", &k.mode, "Y")).collect(), "M", "X"), s("Clean Y"));
    assert_eq!(camera_name(&table, "Canon", "CANON EOS R5"), s("CANON EOS R5"));
    assert_eq!(camera_name(&table, "ÉCLAIR", "éclair one"), s("éclair one"));
    assert_eq!(camera_name(&table, "", " "), None);
    assert_eq!(compose_camera("SONY", "ILCE-7RM5"), s("Sony ILCE-7RM5"));
}

#[test]
fn a_raw_file_keeps_its_own_names() {
    let shot = raw_shot(
        "Sony",
        "A",
        None,
        s("Lens"),
        s("2026:05:01 09:30:15"),
        (Some((1, 2)), Some((1, 0)), None),
        Some(100),
        Some(200),
    );
    assert_eq!(shot.camera, s("Sony A"));
    assert_eq!(shot.lens, s("Lens"));
    assert_eq!(shot.captured_at, s("2026-05-01T09:30:15"));
    assert_eq!((shot.exposure, shot.fnumber, shot.focal), (Some((1, 2)), None, None));
    assert_eq!(shot.iso, Some(100));
}

#[test]
fn green_is_summed_over_a_block() {
    let m = Mosaic { width: 2, height: 2, colors: vec![0, 1, 1, 2] };
    let data: Vec<u16> = (0..16).collect();
    let all = Area { x: 0, y: 0, w: 4, h: 4 };
    assert_eq!(green_block(&data, 4, 4, &m, &all, 0, 0), (1 + 4, 2));
    assert_eq!(green_block(&data, 4, 4, &m, &all, 1, 1), (11 + 14, 2));
    assert_eq!(
        picture(Some(Area { x: 3, y: 5, w: 8, h: 9 }), None, 100, 100),
        Area { x: 2, y: 4, w: 8, h: 9 }
    );
    assert_eq!(
        picture(None, Some(Area { x: 4, y: 1, w: 8, h: 9 }), 100, 100),
        Area { x: 4, y: 0, w: 8, h: 9 }
    );
    assert_eq!(picture(None, None, 7, 8), Area { x: 0, y: 0, w: 7, h: 8 });
}

// ---------------------------------------------------------------- worker --

#[test]
fn the_callback_signature_is_the_github_scheme() {
    assert_eq!(
        signature(b"what do ya want for nothing?", "Jefe"),
        "sha256=5bdcc146bf60754e6a042426089575c75a003f089d2739839dec58b964ec3843"
    );
}

fn rendered(name: &str) -> Rendition {
    Rendition { name: name.to_string(), width: 4, height: 2, bytes: 9 }
}

fn num(j: &Json, path: &[&str]) -> Option<u64> {
    let mut at = j;
    for p in path {
        at = at.field(p)?;
    }
    at.number()
}

fn came(chunks: &[&str]) -> Download {
    let mut d = Download::new(100);
    for c in chunks {
        assert!(d.take(c.as_bytes()));
    }
    d
}

#[test]
fn a_digest_is_of_all_that_came_however_it_was_cut() {
    let whole = came(&["abc"]).sha256();
    assert_eq!(whole, "ba7816bf8f01cfea414140de5dae2223b00361a396177a9cb410ff61f20015ad");
    for cut in [&["a", "bc"][..], &["ab", "", "c"], &["", "a", "b", "c"]] {
        let d = came(cut);
        assert_eq!(d.total, 3);
        assert_eq!(d.sha256(), whole, "{cut:?}");
    }
    assert_eq!(
        came(&[]).sha256(),
        "e3b0c44298fc1c149afbf4c8996fb92427ae41e4649b934ca495991b7852b855"
    );
    assert_ne!(came(&["acb"]).sha256(), whole);
}

/// A picture that does not pack: every pixel another.
fn busy(width: u32, height: u32) -> Picture {
    let mut x: u32 = 1;
    let rgb = (0..3 * width * height)
        .map(|_| {
            x ^= x << 13;
            x ^= x >> 17;
            x ^= x << 5;
            x as u8
        })
        .collect();
    Picture { rgb, width, height }
}

fn jpeg_size(jpeg: &[u8]) -> (u32, u32) {
    let img = image::load_from_memory(jpeg).expect("a JPEG");
    (img.width(), img.height())
}

#[test]
fn three_renditions_are_written_in_order() {
    let made = renditions_cpu(&vec![busy(8, 6), busy(40, 30), busy(16, 12)]).expect("renditions");
    let told: Vec<(&str, u32, u32)> = made.iter().map(|r| (r.name.as_str(), r.width, r.height)).collect();
    assert_eq!(told, [("thumb", 8, 6), ("share", 40, 30), ("ai", 16, 12)]);
    for r in &made {
        assert_eq!(jpeg_size(&r.bytes), (r.width, r.height));
    }
    let p = busy(40, 30);
    assert_eq!(write_rendition("share", &p.rgb, 40, 30).unwrap(), made[1].bytes);
    let thumb = write_rendition("thumb", &p.rgb, 40, 30).unwrap();
    assert!(thumb.len() < made[1].bytes.len(), "a thumbnail is written with less quality");
    let nothing = Picture { rgb: vec![], width: 0, height: 3 };
    assert!(write_rendition("ai", &[], 0, 3).is_err());
    assert!(renditions_cpu(&vec![busy(1, 1), nothing, busy(1, 1)]).is_err());
}

#[test]
fn a_busy_copy_for_sharing_is_written_again_until_it_fits() {
    let p = busy(2640, 2640);
    let ai = write_rendition("ai", &p.rgb, p.width, p.height).unwrap();
    assert!(ai.len() >= 10 * 1024 * 1024, "{}", ai.len());
    let share = write_rendition("share", &p.rgb, p.width, p.height).unwrap();
    assert!(share.len() < 10 * 1024 * 1024, "{}", share.len());
    assert_eq!(jpeg_size(&share), (2640, 2640));
}

#[test]
fn without_a_helper_the_photo_is_developed_here() {
    let j = job("j1", "p1", "originals/p1.arw", "http://app/cb");
    let mut e = evaluate(&j).unwrap();
    assert_eq!(
        e.action(),
        Action::Download("p1.arw".to_string(), "original.arw".to_string())
    );
    e.step(Event::Downloaded(came(&["a", "bc"]), 5));
    assert_eq!(e.action(), Action::Decode(true));
    e.step(Event::Decoded(Json::Bool(true), 6));
    assert_eq!(e.action(), Action::Help);
    e.step(Event::Unhelped);
    assert_eq!(e.action(), Action::Sharpness);
    e.step(Event::Sharp(Json::Unsigned(1), 7));
    assert_eq!(e.action(), Action::Develop("arw".to_string()));
    e.step(Event::Developed(vec![rendered("thumb"), rendered("ai")], "rawler".to_string(), 8));
    assert_eq!(e.action(), Action::Colour(Some(1)));
    e.step(Event::Coloured(Json::Unsigned(2)));
    assert_eq!(e.action(), Action::Put(0, "p1/thumb.jpg".to_string()));
    e.step(Event::Stored(1));
    assert_eq!(e.action(), Action::Put(1, "p1/ai.jpg".to_string()));
    e.step(Event::Stored(9));
    assert_eq!(e.action(), Action::Answer);
    e.step(Event::Broke("late".to_string()));
    assert_eq!(e.action(), Action::Answer);
    let r = e.result().unwrap();
    assert_eq!(r.text_field("status").unwrap(), "done");
    assert_eq!(
        r.text_field("sha256").unwrap(),
        "ba7816bf8f01cfea414140de5dae2223b00361a396177a9cb410ff61f20015ad"
    );
    assert_eq!(r.field("backend").unwrap().text_field("sharpness").unwrap(), "cpu");
    assert_eq!(r.field("backend").unwrap().text_field("develop").unwrap(), "rawler");
    assert_eq!(r.field("backend").unwrap().field("vision").unwrap().truth(), Some(false));
    assert_eq!(r.field("vision"), Some(&Json::Null));
    assert_eq!(num(&r, &["timings_ms", "download"]), Some(5));
    assert_eq!(num(&r, &["timings_ms", "upload"]), Some(9));
    assert_eq!(num(&r, &["renditions", "ai", "bytes"]), Some(9));
    assert_eq!(
        r.field("renditions").unwrap().field("ai").unwrap().text_field("key").unwrap(),
        "renditions/p1/ai.jpg"
    );
}

fn helper(names: &[&str], sharpness: Option<Json>) -> Helper {
    let mut renditions: TextMap<(u32, u32)> = TextMap::new();
    for n in names {
        renditions.insert(n.to_string(), (4, 3));
    }
    Helper {
        develop: None,
        renditions,
        sharpness,
        vision: Some(Json::Unsigned(3)),
        timings: vec![("metal".to_string(), 11), ("decode".to_string(), 12)],
    }
}

#[test]
fn with_a_helper_its_work_counts() {
    let j = job("j1", "p1", "originals/p1.jpg", "http://app/cb");
    let mut e = evaluate(&j).unwrap();
    e.step(Event::Downloaded(came(&["a", "bc"]), 5));
    assert_eq!(e.action(), Action::Decode(false));
    e.step(Event::Decoded(Json::Null, 6));
    e.step(Event::Helped(helper(&["thumb", "share", "ai"], Some(Json::Unsigned(1)))));
    for (name, size) in [("thumb", 1), ("share", 2), ("ai", 3)] {
        assert_eq!(e.action(), Action::Read(name.to_string()));
        e.step(Event::Bytes(size));
    }
    assert_eq!(e.action(), Action::Colour(Some(2)));
    e.step(Event::Coloured(Json::Null));
    for _ in 0..3 {
        e.step(Event::Stored(4));
    }
    let r = e.result().unwrap();
    let b = r.field("backend").unwrap();
    assert_eq!(b.text_field("sharpness").unwrap(), "metal");
    assert_eq!(b.text_field("develop").unwrap(), "coreimage");
    assert_eq!(b.field("vision").unwrap().truth(), Some(true));
    assert_eq!(num(&r, &["timings_ms", "decode"]), Some(12));
    assert_eq!(num(&r, &["renditions", "share", "width"]), Some(4));
    assert_eq!(num(&r, &["renditions", "share", "bytes"]), Some(2));
}

#[test]
fn a_helper_that_measures_no_sharpness_leaves_it_to_us() {
    let mut e = evaluate(&job("j1", "p1", "originals/p1.jpg", "u")).unwrap();
    e.step(Event::Downloaded(came(&["a", "bc"]), 5));
    e.step(Event::Decoded(Json::Null, 6));
    e.step(Event::Helped(helper(&["thumb", "share", "ai"], None)));
    for _ in 0..3 {
        e.step(Event::Bytes(1));
    }
    assert_eq!(e.action(), Action::Sharpness);
    e.step(Event::Sharp(Json::Null, 1));
    assert_eq!(e.action(), Action::Colour(Some(2)));
}

#[test]
fn a_helper_that_wrote_too_little_fails_the_job() {
    let mut e = evaluate(&job("j1", "p1", "originals/p1.jpg", "u")).unwrap();
    e.step(Event::Downloaded(came(&["a", "bc"]), 5));
    e.step(Event::Decoded(Json::Null, 6));
    e.step(Event::Helped(helper(&["thumb"], None)));
    e.step(Event::Bytes(1));
    assert_eq!(e.action(), Action::Fail);
    assert_eq!(e.error, "helper wrote no share rendition");
    assert_eq!(e.result(), None);
    assert_eq!(evaluate(&job("j1", "p1", "x", "u")).unwrap_err(), "bad key x");
    let mut e = evaluate(&job("j1", "p1", "originals/p1.jpg", "u")).unwrap();
    e.step(Event::Broke("no route".to_string()));
    assert_eq!((e.action(), e.error.as_str()), (Action::Fail, "no route"));
}

#[test]
fn a_result_is_sent_again_after_longer_and_longer() {
    let waits: Vec<Sent> = (1..=5).map(|a| deliver(a, 5, false)).collect();
    assert_eq!(
        waits,
        vec![Sent::Again(1), Sent::Again(2), Sent::Again(4), Sent::Again(8), Sent::GivenUp]
    );
    assert_eq!(deliver(1, 5, true), Sent::Accepted);
    assert_eq!(deliver(1, 1, false), Sent::GivenUp);
    assert_eq!(deliver(63, 64, false), Sent::Again(1 << 62));
    assert_eq!(deliver(64, 65, false), Sent::Again(1 << 63));
    assert_eq!(deliver(65, 65, false), Sent::GivenUp);
}

#[test]
fn a_result_that_nobody_took_ends_in_a_failure() {
    let j = job("j1", "p1", "originals/p1.jpg", "u");
    let w = last_word(&j, true, false).unwrap();
    assert_eq!(w, failed_body(&j, "callback not accepted after 5 attempts"));
    assert_eq!(w.text_field("status").unwrap(), "failed");
    assert_eq!(w.field("timings_ms"), Some(&Json::Null));
    assert_eq!(last_word(&j, true, true), None);
    assert_eq!(last_word(&j, false, false), None);
}

#[test]
fn the_copy_for_sharing_loses_quality_until_it_fits() {
    assert_eq!((first_quality("thumb"), first_quality("share")), (80, 85));
    let big = 10 * 1024 * 1024;
    let mut q = 85;
    while let Some(n) = next_quality("share", big, q) {
        q = n;
    }
    assert_eq!(q, 45);
    assert_eq!(next_quality("share", big - 1, 85), None);
    assert_eq!(next_quality("ai", big, 85), None);
    assert_eq!((rendition(0).as_str(), long_edge(0)), ("thumb", 512));
    assert_eq!((rendition(1).as_str(), long_edge(1)), ("share", 4096));
    assert_eq!((rendition(2).as_str(), long_edge(2)), ("ai", 1568));
    assert_eq!(
        helper_args("o", "g", 3, 2, "d").join(" "),
        "--original o --green g --green-width 3 --green-height 2 --out d"
    );
}

#[test]
fn a_document_reads_back() {
    assert_eq!(parse("{\"a\":[1]}").unwrap().field("a").unwrap().list().unwrap().len(), 1);
}
