use openshoot_core::hashing::{content_hash, jpeg_data_uri};
use openshoot_core::upscale::{simple_upscale, upscale_rgb_with, upscale_tiles, Tile};

fn grad(w: u32, h: u32) -> Vec<u8> {
    let mut rgb = Vec::with_capacity((w * h * 3) as usize);
    for y in 0..h {
        for x in 0..w {
            rgb.push((x as f32 / w as f32 * 255.0) as u8);
            rgb.push((y as f32 / h as f32 * 255.0) as u8);
            rgb.push(128);
        }
    }
    rgb
}

#[test]
fn simple_upscale_doubles_dimensions() {
    let rgb = grad(32, 24);
    let out = simple_upscale(&rgb, 32, 24, 2);
    assert_eq!(out.len(), (32 * 2 * 24 * 2 * 3) as usize);
}

#[test]
fn upscale_rgb_fallback_without_model() {
    let rgb = grad(16, 16);
    let out = upscale_rgb_with(&rgb, 16, 16, None, 4);
    assert_eq!(out.len(), (16 * 4 * 16 * 4 * 3) as usize);
}

#[test]
fn short_buffer_is_returned_unchanged() {
    let rgb = vec![1u8, 2, 3];
    assert_eq!(simple_upscale(&rgb, 4, 4, 2), rgb);
}

#[test]
fn model_output_is_resized_to_the_asked_scale() {
    let rgb = grad(8, 6);
    let native = simple_upscale(&rgb, 8, 6, 4);
    assert_eq!(native.len(), 32 * 24 * 3);
    let out = upscale_rgb_with(&rgb, 8, 6, Some(native.clone()), 2);
    assert_eq!(out.len(), 16 * 12 * 3);
    let out4 = upscale_rgb_with(&rgb, 8, 6, Some(native.clone()), 9);
    assert_eq!(out4, native);
    let out1 = upscale_rgb_with(&rgb, 8, 6, Some(native), 0);
    assert_eq!(out1.len(), 8 * 6 * 3);
}

#[test]
fn model_output_of_the_wrong_size_falls_back() {
    let rgb = grad(8, 6);
    let out = upscale_rgb_with(&rgb, 8, 6, Some(vec![0u8; 10]), 3);
    assert_eq!(out, simple_upscale(&rgb, 8, 6, 3));
    assert_eq!(out.len(), 24 * 18 * 3);
}

#[test]
fn content_hash_is_base64_sha256() {
    assert_eq!(content_hash(b"abc"), "ungWv48Bz+pBQUDeXa4iI7ADYaOWF3qctBD/YfIAFa0=");
    assert_eq!(content_hash(b""), "47DEQpj8HBSa+/TImW+5JCeuQeRkm5NMpJWZG3hSuFU=");
    assert_eq!(content_hash(b"abc").len(), 44);
}

#[test]
fn jpeg_data_uri_prefixes_base64() {
    assert_eq!(jpeg_data_uri(&[0xFF, 0xD8]), "data:image/jpeg;base64,/9g=");
    assert_eq!(jpeg_data_uri(&[]), "data:image/jpeg;base64,");
}

#[test]
fn tiles_step_by_224_and_cover_the_image() {
    let tiles = upscale_tiles(500, 300);
    let t = |x, y, width, height| Tile { x, y, width, height };
    assert_eq!(
        tiles,
        vec![
            t(0, 0, 256, 256),
            t(224, 0, 256, 256),
            t(448, 0, 52, 256),
            t(0, 224, 256, 76),
            t(224, 224, 256, 76),
            t(448, 224, 52, 76),
        ]
    );
    for py in 0..300usize {
        for px in 0..500usize {
            assert!(tiles.iter().any(|t| t.x <= px && px < t.x + t.width && t.y <= py && py < t.y + t.height));
        }
    }
    assert!(upscale_tiles(0, 10).is_empty());
    assert_eq!(upscale_tiles(1, 1), vec![t(0, 0, 1, 1)]);
}

#[test]
fn model_output_of_the_wrong_size_falls_back_at_scale_four() {
    let rgb = grad(8, 6);
    let out = upscale_rgb_with(&rgb, 8, 6, Some(vec![7u8; 30]), 4);
    assert_eq!(out.len(), 32 * 24 * 3);
    assert_ne!(out, vec![7u8; 30]);
}
