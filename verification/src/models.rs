//! Model files and export settings: which ONNX files the analysis and the
//! upscaler look for, and how export options are read.
use vstd::prelude::*;

verus! {

/// Face detector (SCRFD 2.5G with landmarks).
pub const FACE_DETECTOR_MODEL: &'static str = "scrfd_2.5g_bnkps.onnx";

/// Aesthetic quality model (NIMA on MobileNet).
pub const AESTHETIC_MODEL: &'static str = "nima_mobilenet_aesthetic.onnx";

/// Face embedding model (MobileFaceNet).
pub const EMBEDDING_MODEL: &'static str = "mobilefacenet.onnx";

/// The upscale model used when none is named (a 4x ESRGAN model).
pub fn upscale_default_model() -> (r: &'static str)
    ensures
        r@ == "4x-UltraSharp"@,
{
    "4x-UltraSharp"
}

/// The upscale model asked for: the given name, or the default one when the
/// name is absent or empty.
pub fn upscale_model_name(model_name: Option<String>) -> (r: String)
    ensures
        match model_name {
            Some(m) => if m@.len() > 0 {
                r@ == m@
            } else {
                r@ == "4x-UltraSharp"@
            },
            None => r@ == "4x-UltraSharp"@,
        },
{
    match model_name {
        Some(m) => {
            if m.as_str().is_empty() {
                upscale_default_model().to_owned()
            } else {
                m
            }
        },
        None => upscale_default_model().to_owned(),
    }
}

/// The file an upscale model is loaded from: `<model>.onnx`.
pub fn upscale_model_file(model: &str) -> (r: String)
    ensures
        r@ == model@ + ".onnx"@,
{
    let mut f = model.to_owned();
    f.append(".onnx");
    f
}

/// The upscale factor asked for: 4 by default, clamped to 1..4.
pub fn upscale_scale(scale: Option<u32>) -> (r: u32)
    ensures
        r == (match scale {
            Some(s) => if s < 1 {
                1
            } else if s > 4 {
                4
            } else {
                s
            },
            None => 4,
        }),
{
    match scale {
        Some(s) => {
            if s < 1 {
                1
            } else if s > 4 {
                4
            } else {
                s
            }
        },
        None => 4,
    }
}

/// ASCII case folding of one character.
pub open spec fn ascii_lower(c: char) -> char {
    if 'A' <= c && c <= 'Z' {
        ((c as u32) + 32) as char
    } else {
        c
    }
}

/// Whether a format name is "png", ignoring ASCII case.
pub open spec fn is_png_name(format: Seq<char>) -> bool {
    format.len() == 3 && ascii_lower(format[0]) == 'p' && ascii_lower(format[1]) == 'n'
        && ascii_lower(format[2]) == 'g'
}

/// The output format of an export, and its file extension: PNG when the
/// format is "png" (any ASCII case), JPEG otherwise.
pub fn export_format(format: &str) -> (r: (&'static str, &'static str))
    ensures
        is_png_name(format@) ==> r.0@ == "png"@ && r.1@ == "png"@,
        !is_png_name(format@) ==> r.0@ == "jpeg"@ && r.1@ == "jpg"@,
{
    let v = crate::text::chars_of(format);
    let png = v.len() == 3 && (v[0] == 'p' || v[0] == 'P') && (v[1] == 'n' || v[1] == 'N') && (v[2]
        == 'g' || v[2] == 'G');
    assert(png == is_png_name(format@));
    if png {
        ("png", "png")
    } else {
        ("jpeg", "jpg")
    }
}

/// The JPEG quality of an export, clamped to 1..100.
pub fn export_quality(quality: i64) -> (r: u8)
    ensures
        r == (if quality < 1 {
            1
        } else if quality > 100 {
            100
        } else {
            quality
        }),
{
    if quality < 1 {
        1
    } else if quality > 100 {
        100
    } else {
        quality as u8
    }
}

} // verus!
