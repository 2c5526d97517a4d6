//! Develop: how the three renditions of a picture are written as JPEGs.

use vstd::prelude::*;
use vstd::string::*;

use image::ImageEncoder;

use crate::media::worker::{SHARE_MAX_BYTES, first_quality, next_quality, quality_after, rendition, rendition_at};

verus! {

/// A picture: three bytes a pixel, row by row.
#[derive(Debug, PartialEq, Eq)]
pub struct Picture {
    pub rgb: Vec<u8>,
    pub width: u32,
    pub height: u32,
}

impl Picture {
    /// There are as many bytes as the pixels take.
    pub open spec fn wf(&self) -> bool {
        self.rgb@.len() == 3 * self.width * self.height
    }
}

/// A rendition with its bytes.
#[derive(Debug, PartialEq, Eq)]
pub struct Rendered {
    pub name: String,
    pub width: u32,
    pub height: u32,
    pub bytes: Vec<u8>,
}

/// A rendition as plain values.
pub struct RenderedView {
    pub name: Seq<char>,
    pub width: u32,
    pub height: u32,
    pub bytes: Seq<u8>,
}

impl View for Rendered {
    type V = RenderedView;

    open spec fn view(&self) -> RenderedView {
        RenderedView {
            name: self.name@,
            width: self.width,
            height: self.height,
            bytes: self.bytes@,
        }
    }
}

/// Renditions as plain values.
pub open spec fn rendered_views(v: Seq<Rendered>) -> Seq<RenderedView> {
    v.map_values(|r: Rendered| r@)
}

/// Some bytes or a text, as plain values.
pub open spec fn bytes_view(r: Result<Vec<u8>, String>) -> Result<Seq<u8>, Seq<char>> {
    match r {
        Ok(b) => Ok(b@),
        Err(e) => Err(e@),
    }
}

/// The JPEG of a picture at a quality, or why there is none.
pub uninterp spec fn jpeg_of(rgb: Seq<u8>, width: u32, height: u32, quality: u8) -> Result<
    Seq<u8>,
    Seq<char>,
>;

/// `image::codecs::jpeg::JpegEncoder::write_image`, made with a quality, of pixels of three
/// bytes: what it writes is a function of them, and so is its error, which is told with its
/// causes. It panics where the bytes are not as many as the pixels take.
#[verifier::external_body]
fn encode_jpeg(rgb: &[u8], width: u32, height: u32, quality: u8) -> (r: Result<Vec<u8>, String>)
    requires
        rgb@.len() == 3 * width * height,
    ensures
        bytes_view(r) == jpeg_of(rgb@, width, height, quality),
{
    let mut out = Vec::new();
    image::codecs::jpeg::JpegEncoder::new_with_quality(&mut out, quality)
        .write_image(rgb, width, height, image::ExtendedColorType::Rgb8)
        .map_err(|e| format!("{:#}", anyhow::Error::from(e)))?;
    Ok(out)
}

/// A rendition as it is written, beginning at a quality: again with less while it is too
/// large to share.
pub open spec fn written_as(
    name: Seq<char>,
    rgb: Seq<u8>,
    width: u32,
    height: u32,
    quality: u8,
) -> Result<Seq<u8>, Seq<char>>
    decreases quality,
{
    match jpeg_of(rgb, width, height, quality) {
        Err(e) => Err(e),
        Ok(b) => match quality_after(name, b.len(), quality) {
            None => Ok(b),
            Some(lower) => if lower < quality {
                written_as(name, rgb, width, height, lower)
            } else {
                Ok(b)
            },
        },
    }
}

/// The quality that a rendition is first written with.
pub open spec fn quality_of(name: Seq<char>) -> u8 {
    if name == "thumb"@ {
        80
    } else {
        85
    }
}

/// The bytes of a rendition: at its own quality, and the copy for sharing at less and less
/// while it is too large.
pub fn write_rendition(name: &str, rgb: &[u8], width: u32, height: u32) -> (r: Result<
    Vec<u8>,
    String,
>)
    requires
        rgb@.len() == 3 * width * height,
    ensures
        bytes_view(r) == written_as(name@, rgb@, width, height, quality_of(name@)),
{
    let mut q: u8 = first_quality(name);
    let mut bytes = match encode_jpeg(rgb, width, height, q) {
        Ok(b) => b,
        Err(e) => return Err(e),
    };
    loop
        invariant
            rgb@.len() == 3 * width * height,
            jpeg_of(rgb@, width, height, q) == Ok::<Seq<u8>, Seq<char>>(bytes@),
            written_as(name@, rgb@, width, height, q) == written_as(
                name@,
                rgb@,
                width,
                height,
                quality_of(name@),
            ),
        decreases q,
    {
        match next_quality(name, bytes.len(), q) {
            None => {
                return Ok(bytes);
            },
            Some(lower) => {
                match encode_jpeg(rgb, width, height, lower) {
                    Ok(b) => {
                        bytes = b;
                    },
                    Err(e) => {
                        assert(written_as(name@, rgb@, width, height, lower) == Err::<
                            Seq<u8>,
                            Seq<char>,
                        >(e@));
                        return Err(e);
                    },
                }
                q = lower;
            },
        }
    }
}

/// The copy for sharing stays under its limit, unless it is too large even at the lowest
/// quality that is tried.
pub proof fn law_a_shared_copy_fits_or_is_at_its_lowest(rgb: Seq<u8>, width: u32, height: u32)
    ensures
        written_as("share"@, rgb, width, height, quality_of("share"@)) matches Ok(b) ==> (b.len()
            < SHARE_MAX_BYTES || jpeg_of(rgb, width, height, 45) == Ok::<Seq<u8>, Seq<char>>(b)),
{
    reveal_strlit("share");
    reveal_strlit("thumb");
    assert("share"@[0] != "thumb"@[0]);
    reveal_with_fuel(written_as, 6);
}

/// The renditions of some pictures from the `i`th on, in order, or why the first that could
/// not be written could not.
pub open spec fn rendered_from(pictures: Seq<Picture>, i: int) -> Result<
    Seq<RenderedView>,
    Seq<char>,
>
    decreases pictures.len() - i,
{
    if i < 0 || i >= pictures.len() {
        Ok(Seq::empty())
    } else {
        let p = pictures[i];
        let name = rendition_at(i);
        match written_as(name, p.rgb@, p.width, p.height, quality_of(name)) {
            Err(e) => Err(e),
            Ok(bytes) => match rendered_from(pictures, i + 1) {
                Err(e) => Err(e),
                Ok(rest) => Ok(
                    seq![RenderedView { name, width: p.width, height: p.height, bytes }] + rest,
                ),
            },
        }
    }
}

/// The three renditions, each of the picture that it is made from, in order.
pub fn renditions_cpu(pictures: &Vec<Picture>) -> (r: Result<Vec<Rendered>, String>)
    requires
        pictures@.len() == 3,
        forall|i: int| 0 <= i < pictures@.len() ==> (#[trigger] pictures@[i]).wf(),
    ensures
        (match r {
            Ok(v) => Ok(rendered_views(v@)),
            Err(e) => Err(e@),
        }) == rendered_from(pictures@, 0),
{
    let ghost whole = rendered_from(pictures@, 0);
    let mut out: Vec<Rendered> = Vec::new();
    let mut i: usize = 0;
    proof {
        if let Ok(v) = whole {
            assert(rendered_views(out@) + v =~= v);
        }
    }
    while i < pictures.len()
        invariant
            i <= pictures.len(),
            whole == rendered_from(pictures@, 0),
            forall|k: int| 0 <= k < pictures@.len() ==> (#[trigger] pictures@[k]).wf(),
            whole == match rendered_from(pictures@, i as int) {
                Ok(v) => Ok::<Seq<RenderedView>, Seq<char>>(rendered_views(out@) + v),
                Err(e) => Err(e),
            },
        decreases pictures.len() - i,
    {
        let p = &pictures[i];
        assert(pictures@[i as int].wf());
        let name = rendition(i);
        match write_rendition(name.as_str(), p.rgb.as_slice(), p.width, p.height) {
            Err(e) => {
                assert(rendered_from(pictures@, i as int) == Err::<Seq<RenderedView>, Seq<char>>(e@));
                return Err(e);
            },
            Ok(bytes) => {
                let ghost o = rendered_views(out@);
                let r = Rendered { name, width: p.width, height: p.height, bytes };
                out.push(r);
                proof {
                    assert(rendered_views(out@) =~= o.push(r@));
                    if let Ok(v) = rendered_from(pictures@, i + 1) {
                        assert(o + (seq![r@] + v) =~= rendered_views(out@) + v);
                    }
                }
            },
        }
        i = i + 1;
    }
    assert(rendered_views(out@) + Seq::<RenderedView>::empty() =~= rendered_views(out@));
    Ok(out)
}

/// The renditions come in their order, one for each picture: each under its own name, in the
/// size of its picture, and with the bytes that its picture was written as.
pub proof fn law_each_picture_gives_its_rendition(pictures: Seq<Picture>, from: int, k: int)
    requires
        0 <= from <= k < pictures.len(),
        rendered_from(pictures, from) is Ok,
    ensures
        ({
            let v = rendered_from(pictures, from)->Ok_0;
            let p = pictures[k];
            &&& v.len() == pictures.len() - from
            &&& v[k - from].name == rendition_at(k)
            &&& v[k - from].width == p.width
            &&& v[k - from].height == p.height
            &&& written_as(rendition_at(k), p.rgb@, p.width, p.height, quality_of(rendition_at(k)))
                == Ok::<Seq<u8>, Seq<char>>(v[k - from].bytes)
        }),
    decreases pictures.len() - from,
{
    if from < k {
        law_each_picture_gives_its_rendition(pictures, from + 1, k);
    } else if from + 1 < pictures.len() {
        law_each_picture_gives_its_rendition(pictures, from + 1, from + 1);
    }
}

/// A rendition is seen by its name, its size and its bytes, a list of them one by one.
pub proof fn law_a_rendered_picture_is_seen_whole(rs: Seq<Rendered>, i: int)
    requires
        0 <= i < rs.len(),
    ensures
        rendered_views(rs).len() == rs.len(),
        rendered_views(rs)[i].name == rs[i].name@,
        rendered_views(rs)[i].width == rs[i].width,
        rendered_views(rs)[i].height == rs[i].height,
        rendered_views(rs)[i].bytes == rs[i].bytes@,
{
}

} // verus!
