//! Raster images held as RGB8 bytes: decoding, turning upright, shrinking and
//! JPEG encoding with the `image` crate, and the preview and thumbnail
//! pipelines built on them.
use vstd::prelude::*;

use crate::cr3::bytes_view;
use crate::hashing::{base64_len, jpeg_data_uri, JPEG_DATA_URI_PREFIX};
use crate::imageproc::{
    buffer_orientation, buffer_orientation_spec, embedded_preview, embedded_preview_spec, spec_exif_fields, Orientation,
};

verus! {

/// Width and height of the image the `image` crate decodes from the bytes
/// (format guessed from the content), or `None` when it cannot decode them.
pub uninterp spec fn spec_decoded_size(bytes: Seq<u8>) -> Option<(u32, u32)>;

/// `ImageReader::with_guessed_format` and `decode` over the bytes, then
/// `to_rgb8`: the image's size and its pixels, three bytes each, row by row;
/// the decoder's error message otherwise. Whether it decodes and the size it
/// finds are named by `spec_decoded_size`; the pixel values are not stated
/// (decoders may compute them differently on different machines).
#[verifier::external_body]
pub(crate) fn decode_rgb8(bytes: &[u8]) -> (r: Result<(u32, u32, Vec<u8>), String>)
    ensures
        r is Ok <==> spec_decoded_size(bytes@) is Some,
        r matches Ok((w, h, px)) ==> spec_decoded_size(bytes@) == Some((w, h)) && px@.len() == 3 * w * h,
{
    let img = image::ImageReader::new(std::io::Cursor::new(bytes))
        .with_guessed_format()
        .map_err(|e| e.to_string())?
        .decode()
        .map_err(|e| e.to_string())?
        .to_rgb8();
    Ok((img.width(), img.height(), img.into_raw()))
}

/// The orientations that turn an image a quarter: width and height swap.
pub open spec fn turns_sideways(o: Orientation) -> bool {
    ||| o == Orientation::Rotate90
    ||| o == Orientation::Rotate270
    ||| o == Orientation::Rotate90AndFlipHorizontal
    ||| o == Orientation::Rotate90AndFlipVertical
}

/// `DynamicImage::apply_orientation` on an RGB8 image, with the orientation
/// the EXIF value of `o` stands for (`Orientation::from_exif`): the same
/// pixels rearranged, width and height swapped by a quarter turn. Which
/// pixel goes where is not stated.
#[verifier::external_body]
pub(crate) fn orient_rgb8(w: u32, h: u32, px: Vec<u8>, o: Orientation) -> (r: (u32, u32, Vec<u8>))
    requires
        px@.len() == 3 * w * h,
    ensures
        r.0 == (if turns_sideways(o) { h } else { w }),
        r.1 == (if turns_sideways(o) { w } else { h }),
        r.2@.len() == px@.len(),
{
    let mut img = image::DynamicImage::ImageRgb8(image::RgbImage::from_raw(w, h, px).unwrap());
    img.apply_orientation(match o {
        Orientation::Normal => image::metadata::Orientation::NoTransforms,
        Orientation::FlipHorizontal => image::metadata::Orientation::FlipHorizontal,
        Orientation::Rotate180 => image::metadata::Orientation::Rotate180,
        Orientation::FlipVertical => image::metadata::Orientation::FlipVertical,
        Orientation::Rotate90AndFlipHorizontal => image::metadata::Orientation::Rotate90FlipH,
        Orientation::Rotate90 => image::metadata::Orientation::Rotate90,
        Orientation::Rotate90AndFlipVertical => image::metadata::Orientation::Rotate270FlipH,
        Orientation::Rotate270 => image::metadata::Orientation::Rotate270,
    });
    let img = img.to_rgb8();
    (img.width(), img.height(), img.into_raw())
}

/// The side a thumbnail asked to fit in `max_dim` fits in: `max_dim`, and 1
/// when `max_dim` is 0 (the crate never makes an empty image).
pub open spec fn thumb_bound(max_dim: u32) -> int {
    if max_dim == 0 {
        1
    } else {
        max_dim as int
    }
}

/// `DynamicImage::thumbnail(max_dim, max_dim)` on an RGB8 image: the image
/// scaled, keeping its aspect ratio, to fit within `max_dim x max_dim` (at
/// least one pixel each way). Both sides are scaled by the same ratio and
/// rounded, so a landscape image stays landscape (or square) and a portrait
/// one portrait (or square). The pixel values are not stated. `requires`
/// keeps the result's allocation within `isize::MAX`.
#[verifier::external_body]
pub(crate) fn thumbnail_rgb8(w: u32, h: u32, px: Vec<u8>, max_dim: u32) -> (r: (u32, u32, Vec<u8>))
    requires
        px@.len() == 3 * w * h,
        w >= 1,
        h >= 1,
        3 * thumb_bound(max_dim) * thumb_bound(max_dim) <= isize::MAX,
    ensures
        1 <= r.0 <= thumb_bound(max_dim),
        1 <= r.1 <= thumb_bound(max_dim),
        r.2@.len() == 3 * r.0 * r.1,
        w >= h ==> r.0 >= r.1,
        w <= h ==> r.0 <= r.1,
{
    let img = image::DynamicImage::ImageRgb8(image::RgbImage::from_raw(w, h, px).unwrap());
    let t = img.thumbnail(max_dim, max_dim).to_rgb8();
    (t.width(), t.height(), t.into_raw())
}

/// `JpegEncoder::new` (default quality) and `encode` of an RGB8 image: the
/// JPEG bytes, or the encoder's error message. The JPEG records the image's
/// width and height, and the crate's decoder reads them back: for images of
/// at most 2000 pixels a side (well within the decoders' default limits) the
/// bytes decode to a `w x h` image. Nothing else is stated of the bytes; the
/// encoder panics on a buffer of the wrong length, which `requires` rules out.
#[verifier::external_body]
pub(crate) fn encode_jpeg_rgb8(w: u32, h: u32, px: &[u8]) -> (r: Result<Vec<u8>, String>)
    requires
        px@.len() == 3 * w * h,
    ensures
        w <= 2000 && h <= 2000 ==> (r matches Ok(v) ==> spec_decoded_size(v@) == Some((w, h))),
{
    let mut out: Vec<u8> = Vec::new();
    image::codecs::jpeg::JpegEncoder::new(&mut out)
        .encode(px, w, h, image::ExtendedColorType::Rgb8)
        .map_err(|e| e.to_string())?;
    Ok(out)
}

/// The error for an image the decoder reads as empty.
pub open spec fn empty_image_message() -> Seq<char> {
    "imagem vazia"@
}

/// `thumb` is a thumbnail of the image in `bytes` turned upright: it decodes
/// to a size within `max_dim x max_dim` whose shape (landscape, portrait or
/// square) is that of the decoded image after its EXIF orientation, with
/// width and height exchanged for the quarter turns (orientations 5 to 8).
pub open spec fn upright_thumbnail(bytes: Seq<u8>, thumb: Seq<u8>, max_dim: u32) -> bool {
    let o = buffer_orientation_spec(spec_exif_fields(bytes));
    let quarter = o == Orientation::Rotate90AndFlipHorizontal || o == Orientation::Rotate90
        || o == Orientation::Rotate90AndFlipVertical || o == Orientation::Rotate270;
    match (spec_decoded_size(bytes), spec_decoded_size(thumb)) {
        (Some((w, h)), Some((tw, th))) => {
            let (uw, uh) = if quarter { (h, w) } else { (w, h) };
            &&& 1 <= tw <= thumb_bound(max_dim)
            &&& 1 <= th <= thumb_bound(max_dim)
            &&& uw >= uh ==> tw >= th
            &&& uw <= uh ==> tw <= th
        },
        _ => false,
    }
}

/// A JPEG thumbnail of an encoded image: decoded, turned upright by its EXIF
/// orientation, scaled to fit `max_dim x max_dim` and encoded as JPEG. Fails
/// when the bytes cannot be decoded, when they decode to an empty image, or
/// when the encoder fails.
pub fn thumbnail_from_jpeg(bytes: &[u8], max_dim: u32) -> (r: Result<Vec<u8>, String>)
    requires
        3 * thumb_bound(max_dim) * thumb_bound(max_dim) <= isize::MAX,
    ensures
        spec_decoded_size(bytes@) is None ==> r is Err,
        max_dim <= 2000 ==> (r matches Ok(v) ==> upright_thumbnail(bytes@, v@, max_dim)),
        spec_decoded_size(bytes@) matches Some((w, h)) && (w == 0 || h == 0) ==> (r matches Err(e)
            && e@ == empty_image_message()),
{
    let o = buffer_orientation(bytes);
    let (w, h, px) = match decode_rgb8(bytes) {
        Ok(d) => d,
        Err(e) => return Err(e),
    };
    if w == 0 || h == 0 {
        return Err("imagem vazia".to_owned());
    }
    let (w2, h2, px2) = orient_rgb8(w, h, px, o);
    assert(px2@.len() == 3 * w2 * h2) by (nonlinear_arith)
        requires
            px2@.len() == 3 * w * h,
            (w2 == w && h2 == h) || (w2 == h && h2 == w),
    ;
    let (tw, th, tpx) = thumbnail_rgb8(w2, h2, px2, max_dim);
    encode_jpeg_rgb8(tw, th, tpx.as_slice())
}

/// The preview bytes of a file: its embedded JPEG (see
/// `embedded_preview_spec`) when it has one, else the file decoded and
/// encoded as JPEG.
pub fn preview_bytes(data: &[u8]) -> (r: Result<Vec<u8>, String>)
    ensures
        embedded_preview_spec(data@) matches Some(p) ==> (r matches Ok(v) && v@ == p),
        embedded_preview_spec(data@) is None && spec_decoded_size(data@) is None ==> r is Err,
{
    match embedded_preview(data) {
        Some(j) => Ok(j),
        None => {
            let (w, h, px) = match decode_rgb8(data) {
                Ok(d) => d,
                Err(e) => return Err(e),
            };
            encode_jpeg_rgb8(w, h, px.as_slice())
        },
    }
}

/// The error when a data URI would not fit in memory.
pub open spec fn too_large_message() -> Seq<char> {
    "capacity overflow"@
}

/// A thumbnail of a file's bytes as a JPEG data URI: its preview bytes (see
/// `preview_bytes`) through `thumbnail_from_jpeg`, in base64 after the JPEG
/// data-URI prefix. Fails as those steps fail, and with "capacity overflow"
/// when the URI could not be allocated.
pub fn thumbnail_base64(data: &[u8], max_dim: u32) -> (r: Result<String, String>)
    requires
        3 * thumb_bound(max_dim) * thumb_bound(max_dim) <= isize::MAX,
    ensures
        embedded_preview_spec(data@) is None && spec_decoded_size(data@) is None ==> r is Err,
        embedded_preview_spec(data@) matches Some(p) && spec_decoded_size(p) is None ==> r is Err,
        r matches Ok(s) ==> s@.len() >= JPEG_DATA_URI_PREFIX@.len() && s@.subrange(
            0,
            JPEG_DATA_URI_PREFIX@.len() as int,
        ) == JPEG_DATA_URI_PREFIX@,
{
    let bytes = match preview_bytes(data) {
        Ok(b) => b,
        Err(e) => return Err(e),
    };
    let thumb = match thumbnail_from_jpeg(bytes.as_slice(), max_dim) {
        Ok(t) => t,
        Err(e) => return Err(e),
    };
    let n = thumb.len();
    proof {
        reveal_strlit("data:image/jpeg;base64,");
    }
    assert(JPEG_DATA_URI_PREFIX@.len() == 23);
    let limit: usize = (isize::MAX as usize - 23) / 4;
    if n / 3 + 1 > limit {
        return Err("capacity overflow".to_owned());
    }
    assert(base64_len(n as nat) + JPEG_DATA_URI_PREFIX@.len() <= isize::MAX);
    let s = jpeg_data_uri(thumb.as_slice());
    assert(s@.subrange(0, JPEG_DATA_URI_PREFIX@.len() as int) =~= JPEG_DATA_URI_PREFIX@);
    Ok(s)
}

/// The pixels `decode_rgb8` could give: a size and three bytes a pixel.
pub open spec fn decodes_to(bytes: Seq<u8>, w: u32, h: u32, px: Seq<u8>) -> bool {
    spec_decoded_size(bytes) == Some((w, h)) && px.len() == 3 * w * h
}

/// Whether the embedded preview of a file decodes.
pub open spec fn preview_decodes(data: Seq<u8>) -> bool {
    embedded_preview_spec(data) matches Some(p) && spec_decoded_size(p) is Some
}

/// A photo's full-size pixels: its embedded preview decoded when that
/// works, else the file itself decoded; `None` when neither decodes.
pub fn decode_full_rgb(data: &[u8]) -> (r: Option<(Vec<u8>, u32, u32)>)
    ensures
        r is Some <==> preview_decodes(data@) || spec_decoded_size(data@) is Some,
        r matches Some((px, w, h)) ==> if preview_decodes(data@) {
            decodes_to(embedded_preview_spec(data@).unwrap(), w, h, px@)
        } else {
            decodes_to(data@, w, h, px@)
        },
{
    let e = embedded_preview(data);
    match e {
        Some(j) => match decode_rgb8(j.as_slice()) {
            Ok((w, h, px)) => return Some((px, w, h)),
            Err(_) => {},
        },
        None => {},
    }
    match decode_rgb8(data) {
        Ok((w, h, px)) => Some((px, w, h)),
        Err(_) => None,
    }
}

/// A photo's pixels from its embedded preview when it has one, else from the
/// file; fails with the decoder's message when the chosen bytes do not decode.
pub fn decode_preview_or_file(data: &[u8]) -> (r: Result<(u32, u32, Vec<u8>), String>)
    ensures
        match embedded_preview_spec(data@) {
            Some(p) => (r is Ok <==> spec_decoded_size(p) is Some) && (r matches Ok((w, h, px)) ==> decodes_to(p, w, h, px@)),
            None => (r is Ok <==> spec_decoded_size(data@) is Some) && (r matches Ok((w, h, px)) ==> decodes_to(data@, w, h, px@)),
        },
{
    match embedded_preview(data) {
        Some(j) => decode_rgb8(j.as_slice()),
        None => decode_rgb8(data),
    }
}

/// A photo's pixels from the file itself when it decodes, else from its
/// embedded preview; `None` when neither decodes.
pub fn decode_file_or_preview(data: &[u8]) -> (r: Option<(u32, u32, Vec<u8>)>)
    ensures
        r is Some <==> spec_decoded_size(data@) is Some || preview_decodes(data@),
        r matches Some((w, h, px)) ==> if spec_decoded_size(data@) is Some {
            decodes_to(data@, w, h, px@)
        } else {
            decodes_to(embedded_preview_spec(data@).unwrap(), w, h, px@)
        },
{
    match decode_rgb8(data) {
        Ok(d) => return Some(d),
        Err(_) => {},
    }
    match embedded_preview(data) {
        Some(j) => match decode_rgb8(j.as_slice()) {
            Ok(d) => Some(d),
            Err(_) => None,
        },
        None => None,
    }
}

/// An RGB8 image as a JPEG thumbnail data URI: scaled to fit
/// `max_dim x max_dim` and encoded as JPEG. Fails when the buffer does not
/// hold a whole non-empty `w x h` image, when the encoder fails, or with
/// "capacity overflow" when the URI could not be allocated.
pub fn rgb_thumbnail_base64(w: u32, h: u32, px: Vec<u8>, max_dim: u32) -> (r: Result<String, String>)
    requires
        3 * thumb_bound(max_dim) * thumb_bound(max_dim) <= isize::MAX,
    ensures
        px@.len() != 3 * w * h || w == 0 || h == 0 ==> r is Err,
        r matches Ok(s) ==> s@.len() >= JPEG_DATA_URI_PREFIX@.len() && s@.subrange(
            0,
            JPEG_DATA_URI_PREFIX@.len() as int,
        ) == JPEG_DATA_URI_PREFIX@,
{
    let w3: u128 = 3 * (w as u128);
    assert(w3 * (h as u128) <= 3 * 0xffff_ffffu128 * 0xffff_ffffu128) by (nonlinear_arith)
        requires
            w3 == 3 * w,
            w <= 0xffff_ffffu128,
            h <= 0xffff_ffffu128,
    ;
    if w == 0 || h == 0 || (px.len() as u128) != w3 * (h as u128) {
        return Err("buffer RGB inválido".to_owned());
    }
    let (tw, th, tpx) = thumbnail_rgb8(w, h, px, max_dim);
    let thumb = match encode_jpeg_rgb8(tw, th, tpx.as_slice()) {
        Ok(t) => t,
        Err(e) => return Err(e),
    };
    let n = thumb.len();
    proof {
        reveal_strlit("data:image/jpeg;base64,");
    }
    assert(JPEG_DATA_URI_PREFIX@.len() == 23);
    let limit: usize = (isize::MAX as usize - 23) / 4;
    if n / 3 + 1 > limit {
        return Err("capacity overflow".to_owned());
    }
    assert(base64_len(n as nat) + JPEG_DATA_URI_PREFIX@.len() <= isize::MAX);
    let s = jpeg_data_uri(thumb.as_slice());
    assert(s@.subrange(0, JPEG_DATA_URI_PREFIX@.len() as int) =~= JPEG_DATA_URI_PREFIX@);
    Ok(s)
}

} // verus!
