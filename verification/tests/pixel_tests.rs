use pdf2other::pixels::PixelFormatError;
use pdf2other::pixels::normalize;

#[test]
fn rgb_buffer_passes_through_unchanged() {
    let raw: Vec<u8> = (0u8..12u8).collect();
    let img = normalize(&raw, 2, 2).unwrap();
    assert_eq!(img.width, 2);
    assert_eq!(img.height, 2);
    assert_eq!(img.bytes, raw);
}

#[test]
fn bgra_buffer_becomes_rgb_triples_in_order() {
    // Two pixels as (B, G, R, A) quadruples.
    let raw: Vec<u8> = vec![
        10, 20, 30, 255, // pixel 0: B=10 G=20 R=30 A=255
        40, 50, 60, 128, // pixel 1: B=40 G=50 R=60 A=128
    ];
    let img = normalize(&raw, 2, 1).unwrap();
    assert_eq!(img.bytes.len() * 4, raw.len() * 3);
    assert_eq!(img.bytes, vec![30, 20, 10, 60, 50, 40]);
}

#[test]
fn bgra_larger_buffer_keeps_pixel_order() {
    let mut raw: Vec<u8> = Vec::new();
    for p in 0u8..6u8 {
        raw.extend_from_slice(&[4 * p, 4 * p + 1, 4 * p + 2, 0]);
    }
    let img = normalize(&raw, 3, 2).unwrap();
    assert_eq!(img.bytes.len(), 18);
    for p in 0usize..6usize {
        let b = 4 * p as u8;
        assert_eq!(&img.bytes[3 * p..3 * p + 3], &[b + 2, b + 1, b]);
    }
}

#[test]
fn wrong_length_is_pixel_format_error() {
    let raw: Vec<u8> = vec![0; 10];
    let err = normalize(&raw, 2, 2).unwrap_err();
    assert_eq!(
        err,
        PixelFormatError { expected_rgb: 12, expected_bgra: 16, actual: 10 }
    );
}

#[test]
fn empty_buffer_with_zero_dimension_is_accepted() {
    let raw: Vec<u8> = vec![];
    let img = normalize(&raw, 0, 5).unwrap();
    assert_eq!(img.bytes.len(), 0);
}
