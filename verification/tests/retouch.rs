use openshoot_core::edit::box_blur;
use openshoot_core::retouch::{box_blur_radius, inpaint};

#[test]
fn inpaint_fills_region() {
    // Imagem 8x8 branca com um bloco 2x2 preto no centro.
    let w = 8u32;
    let h = 8u32;
    let mut rgb = vec![255u8; (w * h * 3) as usize];
    for y in 3..5 {
        for x in 3..5 {
            let i = (y * w + x) as usize * 3;
            rgb[i] = 0;
            rgb[i + 1] = 0;
            rgb[i + 2] = 0;
        }
    }
    // Máscara: bloco central.
    let mut mask = vec![0u8; (w * h) as usize];
    for y in 3..5 {
        for x in 3..5 {
            mask[(y * w + x) as usize] = 1;
        }
    }
    let out = inpaint(&rgb, w, h, &mask, 200);
    // O centro deve ter sido preenchido (não mais preto).
    let center = (4 * w + 4) as usize * 3;
    assert!(out[center] > 100, "centro deveria ser preenchido, got {}", out[center]);
    assert_eq!(out.len(), rgb.len());
}

#[test]
fn inpaint_empty_mask_keeps_original() {
    let rgb = vec![100u8, 150, 200, 10, 20, 30];
    let mask = vec![0u8; 2]; // nada a preencher
    let out = inpaint(&rgb, 1, 2, &mask, 100);
    assert_eq!(out, rgb);
}

#[test]
fn inpaint_takes_floored_mean_of_resolved_neighbours() {
    // 3x3 image, only the centre is masked: it takes the mean of its four neighbours.
    let mut rgb = vec![0u8; 27];
    let px = |x: usize, y: usize| (y * 3 + x) * 3;
    rgb[px(1, 0)] = 10;
    rgb[px(1, 2)] = 20;
    rgb[px(0, 1)] = 30;
    rgb[px(2, 1)] = 41;
    rgb[px(1, 1)] = 200;
    let mut mask = vec![0u8; 9];
    mask[4] = 1;
    let out = inpaint(&rgb, 3, 3, &mask, 1);
    assert_eq!(out[px(1, 1)], 25); // (10 + 20 + 30 + 41) / 4 = 25.25
    assert_eq!(out[px(1, 1) + 1], 0);
    // Border pixels are never written.
    assert_eq!(out[px(1, 0)], 10);
}

#[test]
fn inpaint_fills_from_kept_pixels_only() {
    // 4x4 white image with a black 2x2 hole in the middle: each hole pixel
    // sees two kept white neighbours, so the hole fills white in one pass.
    let mut rgb = vec![255u8; 48];
    let mut mask = vec![0u8; 16];
    for &k in &[5usize, 6, 9, 10] {
        mask[k] = 1;
        rgb[k * 3] = 0;
        rgb[k * 3 + 1] = 0;
        rgb[k * 3 + 2] = 0;
    }
    let out = inpaint(&rgb, 4, 4, &mask, 1);
    assert!(out.iter().all(|&v| v == 255));
}

#[test]
fn inpaint_moves_inward_one_ring_per_pass() {
    // 5x5 grey image with a black 3x3 hole: the centre has no kept
    // neighbour in the first pass, so it waits for the second.
    let mut rgb = vec![90u8; 75];
    let mut mask = vec![0u8; 25];
    for y in 1..4 {
        for x in 1..4 {
            let k = y * 5 + x;
            mask[k] = 1;
            rgb[k * 3] = 0;
        }
    }
    let one = inpaint(&rgb, 5, 5, &mask, 1);
    assert_eq!(one[12 * 3], 0);
    assert_eq!(one[6 * 3], 90);
    assert_eq!(one[7 * 3], 90);
    let two = inpaint(&rgb, 5, 5, &mask, 2);
    assert_eq!(two[12 * 3], 90);
    assert_eq!(inpaint(&rgb, 5, 5, &mask, 10), two);
}

#[test]
fn box_blur_radius_uniform_image_unchanged() {
    let rgb = vec![77u8; 4 * 3 * 3];
    let out = box_blur_radius(&rgb, 4, 3, 4);
    assert_eq!(out, rgb);
}

#[test]
fn box_blur_radius_averages_and_keeps_tail() {
    // 2x1 image plus two trailing bytes.
    let rgb = vec![0u8, 10, 20, 100, 110, 121, 7, 8];
    let out = box_blur_radius(&rgb, 2, 1, 0);
    assert_eq!(out, vec![50, 60, 70, 50, 60, 70, 7, 8]);
}

#[test]
fn box_blur_three_by_three() {
    // 3x1 image: corners average 2 pixels, the middle 3.
    let rgb = vec![0u8, 0, 0, 30, 30, 30, 61, 61, 61, 99, 99];
    let out = box_blur(&rgb, 3, 1, 5);
    assert_eq!(out, vec![15, 15, 15, 30, 30, 30, 45, 45, 45]);
}
