use openshoot_core::cr3::{extract_cr3_preview, extract_largest_jpeg, looks_like_cr3};

fn fake_jpeg(size: usize, seed: u8) -> Vec<u8> {
    let mut v = Vec::with_capacity(size);
    v.extend_from_slice(&[0xFF, 0xD8, 0xFF]);
    let mut s = seed as u32;
    for _ in 3..size - 2 {
        s = s.wrapping_mul(1664525).wrapping_add(1013904223);
        v.push(((s >> 24) as u8 & 0xFD) + 1);
    }
    v.extend_from_slice(&[0xFF, 0xD9]);
    v
}

fn fake_cr3(preview: &[u8]) -> Vec<u8> {
    let mut v = Vec::new();
    v.extend_from_slice(&[0, 0, 0, 24, b'f', b't', b'y', b'p', b'c', b'r', b'x', b' ']);
    v.extend_from_slice(&[0, 0, 0, 1, b'm', b'i', b'f', b'1']);
    v.extend_from_slice(&[0, 0, 0, 0]);
    let size = (8 + preview.len()) as u32;
    v.extend_from_slice(&size.to_be_bytes());
    v.extend_from_slice(b"mdat");
    v.extend_from_slice(preview);
    v
}

#[test]
fn detects_cr3_brand() {
    let data = fake_cr3(&fake_jpeg(2000, 1));
    assert!(looks_like_cr3(&data));
    assert!(!looks_like_cr3(&[0u8; 32]));
}

#[test]
fn extracts_largest_jpeg() {
    let small = fake_jpeg(2000, 1);
    let large = fake_jpeg(5000, 2);
    let mut data = fake_cr3(&small);
    data.extend_from_slice(&large);
    let found = extract_largest_jpeg(&data).unwrap();
    assert_eq!(found.len(), large.len());
    assert_eq!(&found[0..3], &[0xFF, 0xD8, 0xFF]);
    assert_eq!(&found[found.len() - 2..], &[0xFF, 0xD9]);
}

#[test]
fn ignores_non_cr3() {
    assert!(extract_cr3_preview(&[0u8; 64]).is_none());
}

#[test]
fn crx_nul_brand_is_accepted() {
    let mut data = fake_cr3(&fake_jpeg(2000, 3));
    data[11] = 0;
    assert!(looks_like_cr3(&data));
    data[11] = b'y';
    assert!(!looks_like_cr3(&data));
}

#[test]
fn small_jpegs_are_not_previews() {
    let data = fake_jpeg(1023, 4);
    assert!(extract_largest_jpeg(&data).is_none());
    let data = fake_jpeg(1024, 4);
    assert_eq!(extract_largest_jpeg(&data).unwrap(), data);
}

#[test]
fn preview_of_cr3_is_the_largest_embedded_jpeg() {
    let small = fake_jpeg(1500, 5);
    let large = fake_jpeg(4000, 6);
    let mut data = fake_cr3(&large);
    data.extend_from_slice(&small);
    assert_eq!(extract_cr3_preview(&data).unwrap(), large);
}

#[test]
fn unterminated_jpeg_is_ignored() {
    let mut data = fake_jpeg(2000, 7);
    data.truncate(1990);
    assert!(extract_largest_jpeg(&data).is_none());
}

#[test]
fn start_marker_needs_a_third_ff_byte() {
    let mut data = fake_jpeg(2000, 8);
    data[2] = 0x00;
    assert!(extract_largest_jpeg(&data).is_none());
}

#[test]
fn a_later_larger_jpeg_wins_even_past_three_megabytes() {
    let first = fake_jpeg(3_000_100, 9);
    let second = fake_jpeg(3_000_200, 10);
    let mut data = first.clone();
    data.extend_from_slice(&second);
    assert_eq!(extract_largest_jpeg(&data).unwrap().len(), second.len());
}
