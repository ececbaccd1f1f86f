use openshoot_core::imageproc::{
    buffer_orientation, embedded_jpeg, embedded_preview, exif_basic, exif_detail, exif_summary, file_meta, is_photo_path, is_raw_ext, is_raw_path, orientation_from_exif,
    preview_range, ExifBasic, Orientation, PreviewTag,
};

#[test]
fn is_photo_extension() {
    assert!(is_photo_path("a.jpg"));
    assert!(is_photo_path("a.CR3"));
    assert!(!is_photo_path("a.txt"));
}

#[test]
fn photo_and_raw_extensions() {
    assert!(is_photo_path("/fotos/casamento/IMG_0001.NEF"));
    assert!(!is_photo_path("/fotos/sem_extensao"));
    assert!(!is_photo_path("/fotos/.jpg"));
    assert!(is_raw_ext("cr3"));
    assert!(!is_raw_ext("CR3"));
    assert!(!is_raw_ext("jpg"));
}

#[test]
fn raw_path_is_case_insensitive() {
    assert!(is_raw_path("/a/b/IMG_1.CR3"));
    assert!(is_raw_path("x.dng"));
    assert!(!is_raw_path("x.jpg"));
    assert!(!is_raw_path("semextensao"));
}

#[test]
fn exif_basic_prefers_pixel_dimensions_and_model() {
    let e = exif_basic(
        Some(6),
        Some(4000),
        Some(160),
        Some(3000),
        Some(120),
        Some("Canon EOS R6".to_string()),
        Some("Canon".to_string()),
        Some("2024:05:10 14:30:00".to_string()),
    );
    assert_eq!(e.dims, Some((4000, 3000)));
    assert_eq!(e.camera, "Canon EOS R6");
    assert_eq!(e.taken_at.as_deref(), Some("2024:05:10 14:30:00"));
    assert_eq!(e.orientation, 6);
}

#[test]
fn exif_basic_falls_back_and_clamps() {
    let e = exif_basic(Some(12), None, Some(160), None, Some(120), None, Some("NIKON".to_string()), Some(String::new()));
    assert_eq!(e.dims, Some((160, 120)));
    assert_eq!(e.camera, "NIKON");
    assert_eq!(e.taken_at, None);
    assert_eq!(e.orientation, 8);

    let e = exif_basic(Some(0), Some(10), None, None, None, None, None, None);
    assert_eq!(e.dims, None);
    assert_eq!(e.camera, "");
    assert_eq!(e.orientation, 1);

    let e = exif_basic(None, None, None, None, None, None, None, None);
    assert_eq!(e.orientation, 1);
}

#[test]
fn file_meta_swaps_dimensions_for_portrait_orientation() {
    let exif = ExifBasic { dims: Some((4000, 3000)), camera: "X".to_string(), taken_at: None, orientation: 6 };
    let m = file_meta("/f/a.jpg".to_string(), "h".to_string(), 10, exif, true, false, "t".to_string());
    assert_eq!((m.width, m.height), (3000, 4000));
    assert!(m.has_xmp);
    assert!(!m.preview_available);
    assert_eq!(m.file_size, 10);

    let exif = ExifBasic { dims: Some((4000, 3000)), camera: String::new(), taken_at: None, orientation: 3 };
    let m = file_meta("/f/a.NEF".to_string(), "h".to_string(), 10, exif, false, false, "t".to_string());
    assert_eq!((m.width, m.height), (4000, 3000));
    assert!(m.preview_available);

    let exif = ExifBasic { dims: None, camera: String::new(), taken_at: None, orientation: 1 };
    let m = file_meta("/f/a.png".to_string(), "h".to_string(), 10, exif, false, true, "t".to_string());
    assert_eq!((m.width, m.height), (0, 0));
    assert!(m.preview_available);
}

#[test]
fn embedded_jpeg_cuts_marked_range() {
    let data: Vec<u8> = vec![0, 1, 0xFF, 0xD8, 7, 8, 9];
    assert_eq!(embedded_jpeg(&data, Some(2), Some(4)), Some(vec![0xFF, 0xD8, 7, 8]));
    assert_eq!(embedded_jpeg(&data, Some(2), Some(6)), None);
    assert_eq!(embedded_jpeg(&data, Some(1), Some(3)), None);
    assert_eq!(embedded_jpeg(&data, Some(2), Some(0)), None);
    assert_eq!(embedded_jpeg(&data, None, Some(3)), None);
    assert_eq!(embedded_jpeg(&data, Some(2), None), None);
}

#[test]
fn exif_orientation_values() {
    assert_eq!(orientation_from_exif(1), Orientation::Normal);
    assert_eq!(orientation_from_exif(3), Orientation::Rotate180);
    assert_eq!(orientation_from_exif(6), Orientation::Rotate90);
    assert_eq!(orientation_from_exif(8), Orientation::Rotate270);
    assert_eq!(orientation_from_exif(0), Orientation::Normal);
    assert_eq!(orientation_from_exif(9), Orientation::Normal);
}

#[test]
fn preview_range_keeps_the_last_fields() {
    let tags = vec![
        PreviewTag::Offset(Some(10)),
        PreviewTag::Other,
        PreviewTag::Length(Some(500)),
        PreviewTag::Offset(Some(4000)),
        PreviewTag::Other,
    ];
    assert_eq!(preview_range(&tags), (Some(4000), Some(500)));
    assert_eq!(preview_range(&vec![PreviewTag::Length(Some(3)), PreviewTag::Length(None)]), (None, None));
    assert_eq!(preview_range(&vec![]), (None, None));
}

fn tiff_with_preview(orientation: u16, jpeg: &[u8]) -> Vec<u8> {
    let entries: u16 = 4;
    let ifd_len = 2 + 12 * entries as usize + 4;
    let jpeg_at = (8 + ifd_len) as u32;
    let mut v = vec![0x49, 0x49, 0x2A, 0x00, 8, 0, 0, 0];
    v.extend_from_slice(&entries.to_le_bytes());
    let mut entry = |tag: u16, typ: u16, count: u32, value: [u8; 4]| {
        v.extend_from_slice(&tag.to_le_bytes());
        v.extend_from_slice(&typ.to_le_bytes());
        v.extend_from_slice(&count.to_le_bytes());
        v.extend_from_slice(&value);
    };
    entry(0x110, 2, 4, *b"Cam\0");
    let o = orientation.to_le_bytes();
    entry(0x112, 3, 1, [o[0], o[1], 0, 0]);
    entry(0x201, 4, 1, jpeg_at.to_le_bytes());
    entry(0x202, 4, 1, (jpeg.len() as u32).to_le_bytes());
    v.extend_from_slice(&0u32.to_le_bytes());
    v.extend_from_slice(jpeg);
    v
}

#[test]
fn preview_and_summary_are_read_from_the_exif_of_the_bytes() {
    let jpeg = vec![0xFF, 0xD8, 0xFF, 0xE0, 1, 2, 3, 0xFF, 0xD9];
    let data = tiff_with_preview(6, &jpeg);
    assert_eq!(embedded_preview(&data), Some(jpeg.clone()));
    let s = exif_summary(&data);
    assert_eq!(s.orientation, 6);
    assert_eq!(s.camera, "\"Cam\"");
    assert_eq!(s.dims, None);
    assert_eq!(s.taken_at, None);
    assert!(buffer_orientation(&data) == Orientation::Rotate90);
    let d = exif_detail(&data);
    assert_eq!(d.iso, None);
}

#[test]
fn bytes_without_exif_give_the_neutral_summary() {
    let data = vec![1u8, 2, 3, 4, 5];
    assert_eq!(embedded_preview(&data), None);
    let s = exif_summary(&data);
    assert_eq!(s.orientation, 1);
    assert_eq!(s.camera, "");
    assert!(buffer_orientation(&data) == Orientation::Normal);
    assert_eq!(exif_detail(&data).lens, None);
}
