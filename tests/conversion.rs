use coverconv::{
    needs_conversion, process_cover, status_line, tally, thumbnail, ConvertError, Existing,
    Outcome, TARGET_SIZE,
};
use image::{DynamicImage, GenericImageView, ImageFormat, RgbImage};
use std::io::Cursor;

fn encoded(width: u32, height: u32, format: ImageFormat) -> Vec<u8> {
    let img = DynamicImage::ImageRgb8(RgbImage::new(width, height));
    let mut out = Cursor::new(Vec::new());
    img.write_to(&mut out, format).unwrap();
    out.into_inner()
}

fn bitmap_dims(bytes: &[u8]) -> (u32, u32) {
    assert_eq!(image::guess_format(bytes).unwrap(), ImageFormat::Bmp);
    image::load_from_memory(bytes).unwrap().dimensions()
}

fn outcome(source: &[u8]) -> Outcome {
    match process_cover(source) {
        Ok(_) => Outcome::Converted,
        Err(e) => Outcome::Failed(e.message()),
    }
}

#[test]
fn landscape_png_becomes_square_bitmap() {
    let out = process_cover(&encoded(800, 600, ImageFormat::Png)).unwrap();
    assert_eq!(bitmap_dims(&out), (500, 500));
}

#[test]
fn square_jpeg_becomes_square_bitmap() {
    let out = process_cover(&encoded(1000, 1000, ImageFormat::Jpeg)).unwrap();
    assert_eq!(bitmap_dims(&out), (500, 500));
}

#[test]
fn aspect_ratio_is_not_kept() {
    let out = process_cover(&encoded(100, 900, ImageFormat::Png)).unwrap();
    assert_eq!(bitmap_dims(&out), (500, 500));
    let small = process_cover(&encoded(20, 10, ImageFormat::Bmp)).unwrap();
    assert_eq!(bitmap_dims(&small), (500, 500));
}

#[test]
fn thumbnail_has_target_size() {
    let p = thumbnail(&encoded(800, 600, ImageFormat::Png)).unwrap();
    assert_eq!((p.width(), p.height()), (TARGET_SIZE, TARGET_SIZE));
}

#[test]
fn garbage_fails_to_decode() {
    match process_cover(&[0u8, 1, 2, 3, 4, 5]) {
        Err(ConvertError::Decode(m)) => assert!(!m.is_empty()),
        _ => panic!("expected a decode error"),
    }
    assert!(matches!(thumbnail(&[]), Err(ConvertError::Decode(_))));
}

#[test]
fn truncated_png_fails_to_decode() {
    let full = encoded(64, 64, ImageFormat::Png);
    let cut = &full[..full.len() / 2];
    assert!(matches!(process_cover(cut), Err(ConvertError::Decode(_))));
}

#[test]
fn second_run_skips_converted_outputs() {
    let out = process_cover(&encoded(800, 600, ImageFormat::Png)).unwrap();
    assert!(needs_conversion(&Existing::Absent));
    assert!(!needs_conversion(&Existing::Present(out)));
}

#[test]
fn status_lines_have_two_shapes() {
    assert_eq!(status_line("a/cover.png", &Outcome::Converted), "Converted a/cover.png");
    assert_eq!(
        status_line("c/cover.jpg", &Outcome::Failed("bad data".to_string())),
        "Error while converting c/cover.jpg\n\tbad data"
    );
}

#[test]
fn tally_counts_each_outcome() {
    assert_eq!(tally(&Vec::new()), (0, 0));
    let outcomes = vec![
        Outcome::Converted,
        Outcome::Failed("x".to_string()),
        Outcome::Converted,
        Outcome::Failed("y".to_string()),
    ];
    assert_eq!(tally(&outcomes), (2, 2));
}

#[test]
fn one_bad_file_among_many() {
    let good_a = encoded(800, 600, ImageFormat::Png);
    let good_b = encoded(1000, 1000, ImageFormat::Jpeg);
    let full = encoded(64, 64, ImageFormat::Png);
    let bad = full[..10].to_vec();
    let good_c = encoded(30, 40, ImageFormat::Gif);
    let outcomes: Vec<Outcome> = [&good_a, &bad, &good_b, &good_c].iter().map(|s| outcome(s)).collect();
    assert_eq!(tally(&outcomes), (3, 1));
    assert!(matches!(outcomes[1], Outcome::Failed(_)));
    assert!(matches!(outcomes[0], Outcome::Converted));
    assert!(matches!(outcomes[2], Outcome::Converted));
    assert!(matches!(outcomes[3], Outcome::Converted));
}

#[test]
fn scenario_two_conversions_no_errors() {
    let sources = [
        ("a/cover.png", encoded(800, 600, ImageFormat::Png)),
        ("c/cover.jpg", encoded(1000, 1000, ImageFormat::Jpeg)),
    ];
    let mut lines = Vec::new();
    let mut outcomes = Vec::new();
    for (path, bytes) in sources.iter() {
        let out = process_cover(bytes).unwrap();
        assert_eq!(bitmap_dims(&out), (500, 500));
        lines.push(status_line(path, &Outcome::Converted));
        outcomes.push(Outcome::Converted);
    }
    assert_eq!(lines, vec!["Converted a/cover.png", "Converted c/cover.jpg"]);
    assert_eq!(tally(&outcomes), (2, 0));
}

#[test]
fn equal_sources_give_equal_thumbnails() {
    let src = encoded(300, 1200, ImageFormat::Png);
    let a = process_cover(&src).unwrap();
    let b = process_cover(&src).unwrap();
    assert_eq!(a, b);
    assert_eq!(bitmap_dims(&a), (500, 500));
}

#[test]
fn existing_thumbnail_is_ignored_by_conversion() {
    // the skip policy belongs to discovery; conversion always produces a fresh thumbnail
    let src = encoded(800, 600, ImageFormat::Png);
    let out = process_cover(&src).unwrap();
    assert!(!out.is_empty());
    assert_eq!(bitmap_dims(&out), (500, 500));
}
