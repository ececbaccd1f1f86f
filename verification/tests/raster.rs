use openshoot_core::raster::{
    decode_file_or_preview, decode_full_rgb, decode_preview_or_file, rgb_thumbnail_base64, preview_bytes, thumbnail_base64, thumbnail_from_jpeg,
};

fn jpeg(w: u32, h: u32) -> Vec<u8> {
    let mut px = Vec::new();
    for y in 0..h {
        for x in 0..w {
            px.push((x * 20) as u8);
            px.push((y * 30) as u8);
            px.push(90);
        }
    }
    let mut out = Vec::new();
    image::codecs::jpeg::JpegEncoder::new(&mut out)
        .encode(&px, w, h, image::ExtendedColorType::Rgb8)
        .unwrap();
    out
}

#[test]
fn full_pixels_of_a_jpeg_have_its_size() {
    let data = jpeg(10, 6);
    let (px, w, h) = decode_full_rgb(&data).unwrap();
    assert_eq!((w, h), (10, 6));
    assert_eq!(px.len(), 10 * 6 * 3);
    let (w2, h2, px2) = decode_preview_or_file(&data).unwrap();
    assert_eq!((w2, h2, px2.len()), (10, 6, 180));
}

#[test]
fn bytes_that_are_no_image_are_refused() {
    let data = vec![1u8, 2, 3, 4, 5, 6];
    assert!(decode_full_rgb(&data).is_none());
    assert!(decode_preview_or_file(&data).is_err());
    assert!(preview_bytes(&data).is_err());
    assert!(thumbnail_from_jpeg(&data, 64).is_err());
    assert!(thumbnail_base64(&data, 64).is_err());
}

#[test]
fn thumbnails_fit_the_asked_size() {
    let data = jpeg(40, 20);
    let thumb = thumbnail_from_jpeg(&data, 8).unwrap();
    let img = image::load_from_memory(&thumb).unwrap();
    assert_eq!((img.width(), img.height()), (8, 4));
    let uri = thumbnail_base64(&data, 8).unwrap();
    assert!(uri.starts_with("data:image/jpeg;base64,"));
    assert!(uri.len() > "data:image/jpeg;base64,".len());
}

#[test]
fn rgb_buffers_become_thumbnail_uris() {
    let px = vec![120u8; 30 * 10 * 3];
    let uri = rgb_thumbnail_base64(30, 10, px, 6).unwrap();
    assert!(uri.starts_with("data:image/jpeg;base64,"));
    assert!(rgb_thumbnail_base64(30, 10, vec![0u8; 5], 6).is_err());
    assert!(rgb_thumbnail_base64(0, 10, vec![], 6).is_err());
}

#[test]
fn file_first_decoding_uses_the_file() {
    let data = jpeg(12, 5);
    let (w, h, px) = decode_file_or_preview(&data).unwrap();
    assert_eq!((w, h, px.len()), (12, 5, 180));
    assert!(decode_file_or_preview(&[0u8; 4]).is_none());
}
