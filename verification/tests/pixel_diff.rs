use wham_ui::pixel_diff::{compare_pixels, decode_png, pixels_differ, RgbaBuffer, ScreenshotError};

#[test]
fn identical_pixels_do_not_differ() {
    let a = image::Rgba([100u8, 150, 200, 255]);
    assert!(!pixels_differ(&a.0, &a.0));
}

#[test]
fn within_tolerance_does_not_differ() {
    let a = image::Rgba([100u8, 150, 200, 255]);
    let b = image::Rgba([103u8, 147, 200, 255]); // within 3
    assert!(!pixels_differ(&a.0, &b.0));
}

#[test]
fn beyond_tolerance_differs() {
    let a = image::Rgba([100u8, 150, 200, 255]);
    let b = image::Rgba([104u8, 150, 200, 255]); // 4 > 3
    assert!(pixels_differ(&a.0, &b.0));
}

#[test]
fn alpha_channel_matters() {
    let a = image::Rgba([100u8, 150, 200, 255]);
    let b = image::Rgba([100u8, 150, 200, 250]); // alpha diff = 5
    assert!(pixels_differ(&a.0, &b.0));
}

#[test]
fn tolerance_is_symmetric_in_direction() {
    assert!(!pixels_differ(&[0, 0, 0, 0], &[3, 3, 3, 3]));
    assert!(!pixels_differ(&[3, 3, 3, 3], &[0, 0, 0, 0]));
    assert!(pixels_differ(&[4, 0, 0, 0], &[0, 0, 0, 0]));
    assert!(pixels_differ(&[0, 0, 0, 0], &[0, 0, 4, 0]));
}

fn buf(w: u32, h: u32, data: Vec<u8>) -> RgbaBuffer {
    RgbaBuffer::from_raw(w, h, data).expect("size")
}

#[test]
fn from_raw_checks_length() {
    assert!(RgbaBuffer::from_raw(2, 1, vec![0; 8]).is_some());
    assert!(RgbaBuffer::from_raw(2, 1, vec![0; 7]).is_none());
    assert!(RgbaBuffer::from_raw(2, 1, vec![0; 9]).is_none());
    assert!(RgbaBuffer::from_raw(0, 5, vec![]).is_some());
}

#[test]
fn compare_counts_and_builds_diff_image() {
    let baseline = buf(2, 1, vec![100, 150, 200, 255, 10, 20, 30, 255]);
    let actual = buf(2, 1, vec![101, 150, 200, 255, 90, 20, 30, 255]);
    let out = match compare_pixels(&baseline, &actual) {
        Ok(o) => o,
        Err(_) => panic!("sizes match"),
    };
    assert_eq!(out.total_pixels, 2);
    assert_eq!(out.diff_pixels, 1);
    assert_eq!(out.diff_image.width(), 2);
    assert_eq!(out.diff_image.height(), 1);
    assert_eq!(out.diff_image.as_bytes(), &[33, 50, 66, 255, 255, 0, 255, 255]);
}

#[test]
fn compare_identical_images_has_no_diff() {
    let baseline = buf(1, 2, vec![1, 2, 3, 4, 5, 6, 7, 8]);
    let actual = buf(1, 2, vec![1, 2, 3, 4, 5, 6, 7, 8]);
    let out = match compare_pixels(&baseline, &actual) {
        Ok(o) => o,
        Err(_) => panic!("sizes match"),
    };
    assert_eq!(out.diff_pixels, 0);
    assert_eq!(out.diff_image.into_raw(), vec![0, 0, 1, 255, 1, 2, 2, 255]);
}

#[test]
fn compare_reports_size_mismatch() {
    let baseline = buf(2, 1, vec![0; 8]);
    let actual = buf(1, 2, vec![0; 8]);
    match compare_pixels(&baseline, &actual) {
        Err(ScreenshotError::SizeMismatch { baseline_width, baseline_height, actual_width, actual_height }) => {
            assert_eq!((baseline_width, baseline_height, actual_width, actual_height), (2, 1, 1, 2));
        }
        _ => panic!("expected a size mismatch"),
    }
}

#[test]
fn decode_rejects_non_png() {
    match decode_png(b"not a png") {
        Err(ScreenshotError::Decode(msg)) => assert!(!msg.is_empty()),
        _ => panic!("expected a decode error"),
    }
}

#[test]
fn decode_roundtrips_encoded_png() {
    let img = image::RgbaImage::from_raw(2, 1, vec![10, 20, 30, 255, 40, 50, 60, 128]).unwrap();
    let mut bytes: Vec<u8> = Vec::new();
    img.write_to(&mut std::io::Cursor::new(&mut bytes), image::ImageFormat::Png).unwrap();
    let decoded = match decode_png(&bytes) {
        Ok(b) => b,
        Err(_) => panic!("valid png"),
    };
    assert_eq!(decoded.width(), 2);
    assert_eq!(decoded.height(), 1);
    assert_eq!(decoded.as_bytes(), &[10, 20, 30, 255, 40, 50, 60, 128]);
}
