use winxmerge::image_compare::{compare_images, compare_rgba, is_image_path, ImageCompareResult};

/// Encode a single solid-color RGBA image as an in-memory PNG.
fn png(w: u32, h: u32, px: [u8; 4]) -> Vec<u8> {
    let img = image::RgbaImage::from_pixel(w, h, image::Rgba(px));
    let mut buf = Vec::new();
    img.write_to(&mut std::io::Cursor::new(&mut buf), image::ImageFormat::Png).unwrap();
    buf
}

/// Compares two 1x1 images with the given pixel colors.
fn compare_1x1(left: [u8; 4], right: [u8; 4], tolerance: u8) -> ImageCompareResult {
    let left_data = png(1, 1, left);
    let right_data = png(1, 1, right);
    compare_images(&left_data, &right_data, tolerance).unwrap()
}

#[test]
fn zero_tolerance_one_step_diff_is_changed() {
    let result = compare_1x1([10, 10, 10, 255], [11, 10, 10, 255], 0);
    assert_eq!(result.diff_pixels, 1);
    assert_eq!(result.tolerated_pixels, 0);
}

#[test]
fn diff_within_tolerance_is_tolerated_not_changed() {
    let result = compare_1x1([10, 10, 10, 255], [15, 10, 10, 255], 5);
    assert_eq!(result.diff_pixels, 0);
    assert_eq!(result.tolerated_pixels, 1);
    assert_eq!(&result.diff_rgba[0..4], &[255, 200, 0, 255]);
    assert_eq!(result.overlay_rgba[3], 0);
}

#[test]
fn diff_above_tolerance_is_changed() {
    let result = compare_1x1([10, 10, 10, 255], [20, 10, 10, 255], 5);
    assert_eq!(result.diff_pixels, 1);
    assert_eq!(result.tolerated_pixels, 0);
}

#[test]
fn alpha_only_diff_above_tolerance_is_changed() {
    let result = compare_1x1([10, 10, 10, 200], [10, 10, 10, 220], 10);
    assert_eq!(result.diff_pixels, 1);
    assert_eq!(result.tolerated_pixels, 0);
}

#[test]
fn out_of_bounds_region_is_changed_even_at_max_tolerance() {
    let left_data = png(1, 1, [10, 10, 10, 255]);
    let right_data = png(2, 1, [10, 10, 10, 255]);
    let result = compare_images(&left_data, &right_data, 255).unwrap();
    assert_eq!(result.total_pixels, 2);
    assert_eq!(result.diff_pixels, 1);
    assert_eq!(result.tolerated_pixels, 0);
}

#[test]
fn identical_images_have_no_differences() {
    let data = png(2, 2, [1, 2, 3, 255]);
    let result = compare_images(&data, &data, 0).unwrap();
    assert_eq!(result.total_pixels, 4);
    assert_eq!(result.diff_pixels, 0);
    assert_eq!(result.tolerated_pixels, 0);
    assert_eq!(result.left_rgba, result.right_rgba);
    assert_eq!(result.left_rgba.len(), 16);
}

#[test]
fn undecodable_left_image_reports_left_error() {
    let right = png(1, 1, [0, 0, 0, 255]);
    let err = compare_images(b"not an image", &right, 0).unwrap_err();
    assert!(err.starts_with("Left: "), "{}", err);
}

#[test]
fn undecodable_right_image_reports_right_error() {
    let left = png(1, 1, [0, 0, 0, 255]);
    let err = compare_images(&left, b"garbage", 0).unwrap_err();
    assert!(err.starts_with("Right: "), "{}", err);
}

#[test]
fn image_paths_are_recognised_by_extension() {
    assert!(is_image_path("photo.PNG"));
    assert!(is_image_path("a/b/c.jpeg"));
    assert!(!is_image_path("notes.txt"));
}

#[test]
fn compare_rgba_marks_changed_pixel_red_in_diff() {
    let left = vec![0u8, 0, 0, 255];
    let right = vec![100u8, 0, 0, 255];
    let result = compare_rgba(1, 1, left, 1, 1, right, 0);
    assert_eq!(result.diff_pixels, 1);
    assert_eq!(result.diff_width, 1);
    assert_eq!(result.diff_rgba.len(), 4);
}
