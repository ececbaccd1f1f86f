//! Photo file classification and the metadata gathered when a file is indexed.
use vstd::prelude::*;

use crate::cr3::{bytes_view, extract_cr3_preview, is_cr3_header, largest_jpeg, looks_like_cr3};
use crate::paths::{opt_chars, path_extension, path_ext};
use crate::text::{lower_case, str_eq, to_lowercase};

verus! {

/// Extensions indexed as photos (common formats and RAW), in lower case.
pub const PHOTO_EXTENSIONS: [&'static str; 28] = [
    "jpg", "jpeg", "png", "webp", "tif", "tiff", "bmp", "cr3", "cr2", "crw", "nef", "nrw", "arw",
    "sr2", "srf", "raf", "rw2", "dng", "orf", "pef", "x3f", "raw", "rwl", "3fr", "fff", "mef", "mos",
    "iiq",
];

/// Extensions of RAW formats, in lower case.
pub const RAW_EXTENSIONS: [&'static str; 20] = [
    "cr3", "cr2", "crw", "nef", "nrw", "arw", "sr2", "raf", "rw2", "dng", "orf", "pef", "x3f", "3fr",
    "fff", "mef", "iiq", "raw", "rwl", "mos",
];

/// `e` is one of the strings of `list`.
pub open spec fn listed(list: Seq<&str>, e: Seq<char>) -> bool {
    exists|k: int| 0 <= k < list.len() && #[trigger] list[k]@ == e
}

/// Whether `e` is one of the strings of `list`.
pub fn is_listed(list: &[&str], e: &str) -> (r: bool)
    ensures
        r == listed(list@, e@),
{
    let mut k: usize = 0;
    while k < list.len()
        invariant
            k <= list.len(),
            forall|m: int| 0 <= m < k ==> list@[m]@ != e@,
        decreases list.len() - k,
    {
        if str_eq(list[k], e) {
            return true;
        }
        k = k + 1;
    }
    false
}

/// A path names a photo: its extension, lower-cased, is a photo extension.
pub open spec fn is_photo_spec(p: Seq<char>) -> bool {
    match path_ext(p) {
        Some(e) => listed(PHOTO_EXTENSIONS@, lower_case(e)),
        None => false,
    }
}

/// Whether the file at `path` is a photo, judged by its extension.
pub fn is_photo_path(path: &str) -> (r: bool)
    ensures
        r == is_photo_spec(path@),
{
    match path_extension(path) {
        Some(e) => is_listed(&PHOTO_EXTENSIONS, &to_lowercase(&e)),
        None => false,
    }
}

/// Whether a lower-case extension belongs to a RAW format.
pub fn is_raw_ext(ext: &str) -> (r: bool)
    ensures
        r == listed(RAW_EXTENSIONS@, ext@),
{
    is_listed(&RAW_EXTENSIONS, ext)
}

/// The EXIF data the catalog keeps.
pub struct ExifBasic {
    /// Width and height, when both are recorded.
    pub dims: Option<(i64, i64)>,
    pub camera: String,
    pub taken_at: Option<String>,
    /// EXIF orientation, 1..8.
    pub orientation: u16,
}

/// What indexing records about a photo file.
pub struct FileMeta {
    pub path: String,
    pub sha256: String,
    pub file_size: i64,
    pub width: i64,
    pub height: i64,
    pub camera: String,
    pub taken_at: Option<String>,
    pub has_xmp: bool,
    pub preview_available: bool,
    pub indexed_at: String,
}

/// The first of two optional values that is present.
pub open spec fn first_some(a: Option<u32>, b: Option<u32>) -> Option<u32> {
    match a {
        Some(v) => Some(v),
        None => b,
    }
}

/// The recorded orientation, clamped to 1..8; 1 when absent.
pub open spec fn orientation_of(o: Option<u32>) -> u16 {
    match o {
        Some(v) => if v < 1 {
            1
        } else if v > 8 {
            8
        } else {
            v as u16
        },
        None => 1,
    }
}

/// `r` is the EXIF summary of the tags read (see `exif_basic`).
pub open spec fn is_exif_basic(
    r: ExifBasic,
    orientation: Option<u32>,
    pixel_x: Option<u32>,
    image_width: Option<u32>,
    pixel_y: Option<u32>,
    image_length: Option<u32>,
    model: Option<Seq<char>>,
    make: Option<Seq<char>>,
    date_time_original: Option<Seq<char>>,
) -> bool {
    &&& r.orientation == orientation_of(orientation)
    &&& r.dims == (match (first_some(pixel_x, image_width), first_some(pixel_y, image_length)) {
        (Some(w), Some(h)) => Some((w as i64, h as i64)),
        _ => None,
    })
    &&& r.camera@ == (match model {
        Some(m) => m,
        None => match make {
            Some(m) => m,
            None => Seq::<char>::empty(),
        },
    })
    &&& opt_chars(r.taken_at) == (match date_time_original {
        Some(d) => if d.len() > 0 {
            Some(d)
        } else {
            None
        },
        None => None,
    })
}

/// Builds the EXIF summary from the tags read: orientation; width from
/// PixelXDimension, else ImageWidth; height from PixelYDimension, else
/// ImageLength (dimensions only when both are known); camera from Model,
/// else Make; capture time from DateTimeOriginal when not empty.
pub fn exif_basic(
    orientation: Option<u32>,
    pixel_x: Option<u32>,
    image_width: Option<u32>,
    pixel_y: Option<u32>,
    image_length: Option<u32>,
    model: Option<String>,
    make: Option<String>,
    date_time_original: Option<String>,
) -> (r: ExifBasic)
    ensures
        is_exif_basic(
            r,
            orientation,
            pixel_x,
            image_width,
            pixel_y,
            image_length,
            opt_chars(model),
            opt_chars(make),
            opt_chars(date_time_original),
        ),
{
    let o: u16 = match orientation {
        Some(v) => {
            if v < 1 {
                1
            } else if v > 8 {
                8
            } else {
                v as u16
            }
        },
        None => 1,
    };
    let w = match pixel_x {
        Some(v) => Some(v),
        None => image_width,
    };
    let h = match pixel_y {
        Some(v) => Some(v),
        None => image_length,
    };
    let dims = match (w, h) {
        (Some(w), Some(h)) => Some((w as i64, h as i64)),
        _ => None,
    };
    let camera = match model {
        Some(m) => m,
        None => match make {
            Some(m) => m,
            None => String::new(),
        },
    };
    let taken_at = match date_time_original {
        Some(d) => {
            if d.as_str().is_empty() {
                None
            } else {
                Some(d)
            }
        },
        None => None,
    };
    ExifBasic { dims, camera, taken_at, orientation: o }
}

/// Whether a path names a RAW file: its extension, lower-cased, is a RAW one.
pub open spec fn is_raw_path_spec(path: Seq<char>) -> bool {
    match path_ext(path) {
        Some(e) => listed(RAW_EXTENSIONS@, lower_case(e)),
        None => listed(RAW_EXTENSIONS@, seq![]),
    }
}

/// Whether a path names a RAW file (see `is_raw_path_spec`).
pub fn is_raw_path(path: &str) -> (r: bool)
    ensures
        r == is_raw_path_spec(path@),
{
    let ext = match path_extension(path) {
        Some(e) => to_lowercase(e.as_str()),
        None => String::new(),
    };
    proof {
        assert(ext@ == (match path_ext(path@) {
            Some(e) => lower_case(e),
            None => Seq::<char>::empty(),
        }));
    }
    is_listed(&RAW_EXTENSIONS, ext.as_str())
}

/// What indexing records for a file: size, hash, capture time and camera from
/// EXIF, the dimensions turned when the orientation is a quarter turn (5..8),
/// and a preview marked available for RAW files (their embedded preview is
/// read later) and for files whose preview could be decoded.
pub fn file_meta(
    path: String,
    sha256: String,
    file_size: i64,
    exif: ExifBasic,
    has_xmp: bool,
    preview_decoded: bool,
    indexed_at: String,
) -> (r: FileMeta)
    ensures
        r.path@ == path@,
        r.sha256@ == sha256@,
        r.file_size == file_size,
        (r.width, r.height) == (match exif.dims {
            Some((w, h)) => if 5 <= exif.orientation <= 8 {
                (h, w)
            } else {
                (w, h)
            },
            None => (0i64, 0i64),
        }),
        r.camera@ == exif.camera@,
        r.taken_at == exif.taken_at,
        r.has_xmp == has_xmp,
        r.preview_available == (is_raw_path_spec(path@) || preview_decoded),
        r.indexed_at@ == indexed_at@,
{
    let (width, height) = match exif.dims {
        Some((w, h)) => {
            if 5 <= exif.orientation && exif.orientation <= 8 {
                (h, w)
            } else {
                (w, h)
            }
        },
        None => (0, 0),
    };
    let raw = is_raw_path(path.as_str());
    FileMeta {
        path,
        sha256,
        file_size,
        width,
        height,
        camera: exif.camera,
        taken_at: exif.taken_at,
        has_xmp,
        preview_available: raw || preview_decoded,
        indexed_at,
    }
}

/// An EXIF field as reading the embedded preview sees it: the preview's
/// offset (JPEGInterchangeFormat), its length (JPEGInterchangeFormatLength),
/// each with its first value when it reads as an unsigned integer, or any
/// other field.
pub enum PreviewTag {
    Offset(Option<u32>),
    Length(Option<u32>),
    Other,
}

/// The preview range the fields give: the value of the last offset field and
/// of the last length field met, in field order (any IFD).
pub open spec fn preview_range_spec(tags: Seq<PreviewTag>) -> (Option<u64>, Option<usize>)
    decreases tags.len(),
{
    if tags.len() == 0 {
        (None, None)
    } else {
        let (o, l) = preview_range_spec(tags.drop_last());
        match tags.last() {
            PreviewTag::Offset(v) => (
                match v {
                    Some(x) => Some(x as u64),
                    None => None,
                },
                l,
            ),
            PreviewTag::Length(v) => (
                o,
                match v {
                    Some(x) => Some(x as usize),
                    None => None,
                },
            ),
            PreviewTag::Other => (o, l),
        }
    }
}

/// The preview range the EXIF fields give (see `preview_range_spec`).
pub fn preview_range(tags: &Vec<PreviewTag>) -> (r: (Option<u64>, Option<usize>))
    ensures
        r == preview_range_spec(tags@),
{
    let mut offset: Option<u64> = None;
    let mut length: Option<usize> = None;
    let mut k: usize = 0;
    while k < tags.len()
        invariant
            k <= tags@.len(),
            (offset, length) == preview_range_spec(tags@.take(k as int)),
        decreases tags@.len() - k,
    {
        assert(tags@.take(k + 1).drop_last() == tags@.take(k as int));
        match &tags[k] {
            PreviewTag::Offset(v) => {
                offset = match v {
                    Some(x) => Some(*x as u64),
                    None => None,
                };
            },
            PreviewTag::Length(v) => {
                length = match v {
                    Some(x) => Some(*x as usize),
                    None => None,
                };
            },
            PreviewTag::Other => {},
        }
        k = k + 1;
    }
    assert(tags@.take(tags@.len() as int) == tags@);
    (offset, length)
}

/// The embedded JPEG an EXIF offset and length point at: present when the
/// length is positive, the range lies inside the data and starts with the
/// JPEG start-of-image marker.
pub open spec fn embedded_jpeg_spec(data: Seq<u8>, offset: Option<u64>, length: Option<usize>) -> Option<
    Seq<u8>,
> {
    match (offset, length) {
        (Some(s), Some(l)) => if l > 0 && s + l <= data.len() && data[s as int] == 0xFF && data[s + 1]
            == 0xD8 {
            Some(data.subrange(s as int, s + l))
        } else {
            None
        },
        _ => None,
    }
}

/// The range is one the caller's two-byte marker check can read: a range of
/// a single byte at the very end of the data would not be.
pub open spec fn marker_readable(data: Seq<u8>, offset: Option<u64>, length: Option<usize>) -> bool {
    match (offset, length) {
        (Some(s), Some(l)) => (l > 0 && s + l <= data.len()) ==> s + 2 <= data.len(),
        _ => true,
    }
}

/// Cuts the embedded JPEG out of a RAW file's data (see `embedded_jpeg_spec`).
pub fn embedded_jpeg(data: &[u8], offset: Option<u64>, length: Option<usize>) -> (r: Option<Vec<u8>>)
    requires
        marker_readable(data@, offset, length),
    ensures
        match r {
            Some(v) => embedded_jpeg_spec(data@, offset, length) == Some(v@),
            None => embedded_jpeg_spec(data@, offset, length) is None,
        },
{
    match (offset, length) {
        (Some(s), Some(l)) => {
            let n = data.len();
            if l == 0 || s > n as u64 || l > n - (s as usize) {
                return None;
            }
            let st = s as usize;
            if data[st] != 0xFF || data[st + 1] != 0xD8 {
                return None;
            }
            let out = vstd::slice::slice_to_vec(vstd::slice::slice_subrange(data, st, st + l));
            Some(out)
        },
        _ => None,
    }
}

/// How a stored image must be turned to be shown upright (EXIF tag 0x0112).
#[derive(PartialEq, Eq, Structural, Debug, Clone, Copy)]
pub enum Orientation {
    Normal,
    FlipHorizontal,
    Rotate180,
    FlipVertical,
    Rotate90AndFlipHorizontal,
    Rotate90,
    Rotate90AndFlipVertical,
    Rotate270,
}

/// The orientation an EXIF orientation value stands for: 2..8 as the
/// standard numbers them, anything else (1 or an invalid value) upright.
pub open spec fn orientation_spec(v: u32) -> Orientation {
    if v == 2 {
        Orientation::FlipHorizontal
    } else if v == 3 {
        Orientation::Rotate180
    } else if v == 4 {
        Orientation::FlipVertical
    } else if v == 5 {
        Orientation::Rotate90AndFlipHorizontal
    } else if v == 6 {
        Orientation::Rotate90
    } else if v == 7 {
        Orientation::Rotate90AndFlipVertical
    } else if v == 8 {
        Orientation::Rotate270
    } else {
        Orientation::Normal
    }
}

/// The orientation of an EXIF orientation value (see `orientation_spec`).
pub fn orientation_from_exif(v: u32) -> (r: Orientation)
    ensures
        r == orientation_spec(v),
{
    match v {
        2 => Orientation::FlipHorizontal,
        3 => Orientation::Rotate180,
        4 => Orientation::FlipVertical,
        5 => Orientation::Rotate90AndFlipHorizontal,
        6 => Orientation::Rotate90,
        7 => Orientation::Rotate90AndFlipVertical,
        8 => Orientation::Rotate270,
        _ => Orientation::Normal,
    }
}

/// An EXIF field as read from a file: the tag's context (`CONTEXT_TIFF`,
/// `CONTEXT_EXIF`, 2 for GPS, 3 for interoperability, 4 for any other), the tag number, the
/// number of the IFD it sits in (0 for the primary image), its first value
/// when that is an unsigned integer, and the value as the tag displays it,
/// with its unit.
pub struct ExifField {
    pub context: u8,
    pub number: u16,
    pub ifd: u16,
    pub uint: Option<u32>,
    pub display: String,
}

/// Context of the TIFF tags (0th and 1st IFD).
pub const CONTEXT_TIFF: u8 = 0;

/// Context of the Exif IFD's tags.
pub const CONTEXT_EXIF: u8 = 1;

/// A field as a value: context, number, IFD, unsigned value, display text.
pub open spec fn field_view(f: ExifField) -> (u8, u16, u16, Option<u32>, Seq<char>) {
    (f.context, f.number, f.ifd, f.uint, f.display@)
}

/// The fields of a list, as values.
pub open spec fn fields_view(o: Option<Vec<ExifField>>) -> Option<Seq<(u8, u16, u16, Option<u32>, Seq<char>)>> {
    match o {
        Some(v) => Some(v@.map_values(|f: ExifField| field_view(f))),
        None => None,
    }
}

/// The EXIF fields kamadak-exif reads from a file's bytes (TIFF-based RAW,
/// JPEG, HEIF, PNG or WebP), in the order it lists them, or `None` when it
/// finds no EXIF data it can parse.
pub uninterp spec fn spec_exif_fields(data: Seq<u8>) -> Option<Seq<(u8, u16, u16, Option<u32>, Seq<char>)>>;

/// `exif::Reader::read_from_container` over the bytes, then each field of
/// `Exif::fields` with its tag, IFD, `Value::get_uint(0)` and
/// `display_value().with_unit(..)` text. Its result is named by
/// `spec_exif_fields`: parsing depends on the bytes alone.
#[verifier::external_body]
fn exif_fields(data: &[u8]) -> (r: Option<Vec<ExifField>>)
    ensures
        fields_view(r) == spec_exif_fields(data@),
{
    let exif = exif::Reader::new().read_from_container(&mut std::io::Cursor::new(data)).ok()?;
    Some(exif.fields().map(|f| ExifField {
        context: match f.tag.0 {
            exif::Context::Tiff => 0,
            exif::Context::Exif => 1,
            exif::Context::Gps => 2,
            exif::Context::Interop => 3,
            _ => 4,
        },
        number: f.tag.1,
        ifd: f.ifd_num.0,
        uint: f.value.get_uint(0),
        display: f.display_value().with_unit(&exif).to_string(),
    }).collect())
}

/// How reading the embedded preview sees a field: JPEGInterchangeFormat
/// (TIFF tag 0x201) gives the offset, JPEGInterchangeFormatLength (0x202)
/// the length.
pub open spec fn preview_tag_of(f: (u8, u16, u16, Option<u32>, Seq<char>)) -> PreviewTag {
    if f.0 == CONTEXT_TIFF && f.1 == 0x201u16 {
        PreviewTag::Offset(f.3)
    } else if f.0 == CONTEXT_TIFF && f.1 == 0x202u16 {
        PreviewTag::Length(f.3)
    } else {
        PreviewTag::Other
    }
}

/// The preview tags of the fields, in order (see `preview_tag_of`).
pub fn preview_tags(fields: &Vec<ExifField>) -> (r: Vec<PreviewTag>)
    ensures
        r@ == fields@.map_values(|f: ExifField| preview_tag_of(field_view(f))),
{
    let mut out: Vec<PreviewTag> = Vec::new();
    let mut k: usize = 0;
    while k < fields.len()
        invariant
            k <= fields@.len(),
            out@ == fields@.take(k as int).map_values(|f: ExifField| preview_tag_of(field_view(f))),
        decreases fields@.len() - k,
    {
        let f = &fields[k];
        let t = if f.context == CONTEXT_TIFF && f.number == 0x201 {
            PreviewTag::Offset(f.uint)
        } else if f.context == CONTEXT_TIFF && f.number == 0x202 {
            PreviewTag::Length(f.uint)
        } else {
            PreviewTag::Other
        };
        out.push(t);
        assert(fields@.take(k + 1).map_values(|f: ExifField| preview_tag_of(field_view(f))) =~= fields@.take(
            k as int,
        ).map_values(|f: ExifField| preview_tag_of(field_view(f))).push(preview_tag_of(field_view(fields@[k as int]))));
        k = k + 1;
    }
    assert(fields@.take(fields@.len() as int) == fields@);
    out
}

/// The embedded JPEG preview of a file's bytes: the CR3 container's largest
/// JPEG when the bytes are a CR3 file that has one; else the range the EXIF
/// JPEGInterchangeFormat fields point at (the last offset and length met),
/// when it can be checked for the JPEG start marker and holds one.
pub open spec fn embedded_preview_spec(data: Seq<u8>) -> Option<Seq<u8>> {
    let cr3 = if is_cr3_header(data) {
        largest_jpeg(data)
    } else {
        None
    };
    if cr3 is Some {
        cr3
    } else {
        match spec_exif_fields(data) {
            None => None,
            Some(fs) => {
                let (o, l) = preview_range_spec(fs.map_values(|f: (u8, u16, u16, Option<u32>, Seq<char>)| preview_tag_of(f)));
                if marker_readable(data, o, l) {
                    embedded_jpeg_spec(data, o, l)
                } else {
                    None
                }
            },
        }
    }
}

/// Whether the range can be checked for the two-byte start marker.
fn range_readable(data: &[u8], offset: Option<u64>, length: Option<usize>) -> (r: bool)
    ensures
        r == marker_readable(data@, offset, length),
{
    match (offset, length) {
        (Some(s), Some(l)) => {
            let n = data.len() as u128;
            let inside = l > 0 && (s as u128) + (l as u128) <= n;
            !inside || (s as u128) + 2 <= n
        },
        _ => true,
    }
}

/// The embedded JPEG preview of a file's bytes (see `embedded_preview_spec`).
pub fn embedded_preview(data: &[u8]) -> (r: Option<Vec<u8>>)
    ensures
        bytes_view(r) == embedded_preview_spec(data@),
{
    if looks_like_cr3(data) {
        let c = extract_cr3_preview(data);
        if c.is_some() {
            return c;
        }
    }
    let fields = match exif_fields(data) {
        Some(f) => f,
        None => return None,
    };
    let tags = preview_tags(&fields);
    proof {
        assert(tags@ =~= fields_view(Some(fields)).unwrap().map_values(
            |f: (u8, u16, u16, Option<u32>, Seq<char>)| preview_tag_of(f),
        ));
    }
    let (offset, length) = preview_range(&tags);
    if !range_readable(data, offset, length) {
        return None;
    }
    embedded_jpeg(data, offset, length)
}

/// The last field of the primary image (IFD 0) with the given tag, as
/// `Exif::get_field` finds it.
pub open spec fn last_field(fs: Seq<(u8, u16, u16, Option<u32>, Seq<char>)>, context: u8, number: u16) -> Option<
    (u8, u16, u16, Option<u32>, Seq<char>),
>
    decreases fs.len(),
{
    if fs.len() == 0 {
        None
    } else if fs.last().0 == context && fs.last().1 == number && fs.last().2 == 0 {
        Some(fs.last())
    } else {
        last_field(fs.drop_last(), context, number)
    }
}

/// The unsigned value of an optional field.
pub open spec fn uint_of(f: Option<(u8, u16, u16, Option<u32>, Seq<char>)>) -> Option<u32> {
    match f {
        Some(x) => x.3,
        None => None,
    }
}

/// The display text of an optional field.
pub open spec fn text_of(f: Option<(u8, u16, u16, Option<u32>, Seq<char>)>) -> Option<Seq<char>> {
    match f {
        Some(x) => Some(x.4),
        None => None,
    }
}

/// Position of the last primary-image field with the given tag.
fn find_field(fields: &Vec<ExifField>, context: u8, number: u16) -> (r: Option<usize>)
    ensures
        match r {
            Some(i) => i < fields@.len() && last_field(fields_view(Some(*fields)).unwrap(), context, number)
                == Some(field_view(fields@[i as int])),
            None => last_field(fields_view(Some(*fields)).unwrap(), context, number) is None,
        },
{
    let ghost fs = fields_view(Some(*fields)).unwrap();
    let mut k: usize = fields.len();
    assert(fs.take(k as int) == fs);
    while k > 0
        invariant
            k <= fields@.len(),
            fs == fields@.map_values(|f: ExifField| field_view(f)),
            last_field(fs, context, number) == last_field(fs.take(k as int), context, number),
        decreases k,
    {
        let f = &fields[k - 1];
        assert(fs.take(k as int).last() == field_view(fields@[k - 1]));
        assert(fs.take(k as int).drop_last() == fs.take(k - 1));
        if f.context == context && f.number == number && f.ifd == 0 {
            return Some(k - 1);
        }
        k = k - 1;
    }
    None
}

fn uint_field(fields: &Vec<ExifField>, context: u8, number: u16) -> (r: Option<u32>)
    ensures
        r == uint_of(last_field(fields_view(Some(*fields)).unwrap(), context, number)),
{
    match find_field(fields, context, number) {
        Some(i) => fields[i].uint,
        None => None,
    }
}

fn text_field(fields: &Vec<ExifField>, context: u8, number: u16) -> (r: Option<String>)
    ensures
        opt_chars(r) == text_of(last_field(fields_view(Some(*fields)).unwrap(), context, number)),
{
    match find_field(fields, context, number) {
        Some(i) => Some(fields[i].display.clone()),
        None => None,
    }
}

/// The EXIF summary of the fields (see `exif_basic`): Orientation,
/// PixelXDimension, ImageWidth, PixelYDimension, ImageLength, Model, Make
/// and DateTimeOriginal of the primary image; the neutral summary when
/// there is no EXIF data.
pub open spec fn is_exif_summary(r: ExifBasic, f: Option<Seq<(u8, u16, u16, Option<u32>, Seq<char>)>>) -> bool {
    match f {
        None => is_exif_basic(r, None, None, None, None, None, None, None, None),
        Some(fs) => is_exif_basic(
            r,
            uint_of(last_field(fs, CONTEXT_TIFF, 0x112u16)),
            uint_of(last_field(fs, CONTEXT_EXIF, 0xa002u16)),
            uint_of(last_field(fs, CONTEXT_TIFF, 0x100u16)),
            uint_of(last_field(fs, CONTEXT_EXIF, 0xa003u16)),
            uint_of(last_field(fs, CONTEXT_TIFF, 0x101u16)),
            text_of(last_field(fs, CONTEXT_TIFF, 0x110u16)),
            text_of(last_field(fs, CONTEXT_TIFF, 0x10fu16)),
            text_of(last_field(fs, CONTEXT_EXIF, 0x9003u16)),
        ),
    }
}

/// The EXIF summary of a file's bytes (see `is_exif_summary`).
pub fn exif_summary(data: &[u8]) -> (r: ExifBasic)
    ensures
        is_exif_summary(r, spec_exif_fields(data@)),
{
    match exif_fields(data) {
        None => exif_basic(None, None, None, None, None, None, None, None),
        Some(fs) => exif_basic(
            uint_field(&fs, CONTEXT_TIFF, 0x112),
            uint_field(&fs, CONTEXT_EXIF, 0xa002),
            uint_field(&fs, CONTEXT_TIFF, 0x100),
            uint_field(&fs, CONTEXT_EXIF, 0xa003),
            uint_field(&fs, CONTEXT_TIFF, 0x101),
            text_field(&fs, CONTEXT_TIFF, 0x110),
            text_field(&fs, CONTEXT_TIFF, 0x10f),
            text_field(&fs, CONTEXT_EXIF, 0x9003),
        ),
    }
}

/// Camera settings shown in a photo's detail panel, as the tags display them.
pub struct ExifDetail {
    pub iso: Option<String>,
    pub aperture: Option<String>,
    pub focal_length: Option<String>,
    pub shutter_speed: Option<String>,
    pub lens: Option<String>,
    pub flash: Option<String>,
    pub white_balance: Option<String>,
}

/// The camera settings of the fields: PhotographicSensitivity, FNumber,
/// FocalLength, ExposureTime, LensModel, Flash and WhiteBalance of the
/// primary image, all absent when there is no EXIF data.
pub open spec fn is_exif_detail(r: ExifDetail, f: Option<Seq<(u8, u16, u16, Option<u32>, Seq<char>)>>) -> bool {
    let t = |n: u16|
        match f {
            Some(fs) => text_of(last_field(fs, CONTEXT_EXIF, n)),
            None => None,
        };
    &&& opt_chars(r.iso) == t(0x8827u16)
    &&& opt_chars(r.aperture) == t(0x829du16)
    &&& opt_chars(r.focal_length) == t(0x920au16)
    &&& opt_chars(r.shutter_speed) == t(0x829au16)
    &&& opt_chars(r.lens) == t(0xa434u16)
    &&& opt_chars(r.flash) == t(0x9209u16)
    &&& opt_chars(r.white_balance) == t(0xa403u16)
}

/// The camera settings recorded in a file's bytes (see `is_exif_detail`).
pub fn exif_detail(data: &[u8]) -> (r: ExifDetail)
    ensures
        is_exif_detail(r, spec_exif_fields(data@)),
{
    match exif_fields(data) {
        None => ExifDetail {
            iso: None,
            aperture: None,
            focal_length: None,
            shutter_speed: None,
            lens: None,
            flash: None,
            white_balance: None,
        },
        Some(fs) => ExifDetail {
            iso: text_field(&fs, CONTEXT_EXIF, 0x8827),
            aperture: text_field(&fs, CONTEXT_EXIF, 0x829d),
            focal_length: text_field(&fs, CONTEXT_EXIF, 0x920a),
            shutter_speed: text_field(&fs, CONTEXT_EXIF, 0x829a),
            lens: text_field(&fs, CONTEXT_EXIF, 0xa434),
            flash: text_field(&fs, CONTEXT_EXIF, 0x9209),
            white_balance: text_field(&fs, CONTEXT_EXIF, 0xa403),
        },
    }
}

/// The orientation recorded in an encoded image's EXIF (Orientation of the
/// primary image), upright when there is none.
pub open spec fn buffer_orientation_spec(f: Option<Seq<(u8, u16, u16, Option<u32>, Seq<char>)>>) -> Orientation {
    let v = match f {
        Some(fs) => uint_of(last_field(fs, CONTEXT_TIFF, 0x112u16)),
        None => None,
    };
    match v {
        Some(x) => orientation_spec(x),
        None => Orientation::Normal,
    }
}

/// The EXIF orientation of an encoded image held in memory (see
/// `buffer_orientation_spec`).
pub fn buffer_orientation(bytes: &[u8]) -> (r: Orientation)
    ensures
        r == buffer_orientation_spec(spec_exif_fields(bytes@)),
{
    let v = match exif_fields(bytes) {
        Some(fs) => uint_field(&fs, CONTEXT_TIFF, 0x112),
        None => None,
    };
    match v {
        Some(x) => orientation_from_exif(x),
        None => orientation_from_exif(1),
    }
}

} // verus!
