use duskterm::background::{
    cache_covers, check_image_extension, check_source_dimensions, check_source_file, should_reuse_original,
    target_dimensions,
};

#[test]
fn does_not_upscale_small_images() {
    assert_eq!(target_dimensions(1200, 800, 3840, 2160), (1200, 800));
}

#[test]
fn covers_target_without_losing_aspect_ratio() {
    assert_eq!(target_dimensions(8000, 4000, 3840, 2160), (4320, 2160));
}

#[test]
fn reuses_reasonable_sized_images_for_fast_import() {
    assert!(should_reuse_original(3200, 1800, 3840, 2160));
}

#[test]
fn does_not_reuse_oversized_images() {
    assert!(!should_reuse_original(8000, 4000, 3840, 2160));
}

#[test]
fn scaling_respects_the_edge_limit_and_rounding() {
    assert_eq!(target_dimensions(20000, 100, 3840, 2160), (7680, 38));
    assert_eq!(target_dimensions(0, 100, 10, 10), (1, 100));
    assert_eq!(target_dimensions(3, 3, 2, 1), (2, 2));
    assert_eq!(target_dimensions(5000, 5000, 0, 0), (1, 1));
    assert_eq!(target_dimensions(16000, 9000, 99999, 99999), (7680, 4320));
    assert!(should_reuse_original(7680, 1, 10000, 0));
    assert!(!should_reuse_original(2, 2, 10000, 0));
}

#[test]
fn source_checks_in_order() {
    assert_eq!(check_source_file(false, 0).unwrap_err(), "Background image does not exist");
    assert_eq!(
        check_source_file(true, 128 * 1024 * 1024 + 1).unwrap_err(),
        "Background image file cannot exceed 128 MB"
    );
    assert!(check_source_file(true, 128 * 1024 * 1024).is_ok());
    assert_eq!(check_source_dimensions(10, 0).unwrap_err(), "Background image pixel count is too large");
    assert!(check_source_dimensions(10000, 10001).is_err());
    assert_eq!(check_source_dimensions(10000, 10000).unwrap(), (10000, 10000));
    assert_eq!(check_image_extension("JPEG").unwrap(), "jpeg");
    assert_eq!(
        check_image_extension("gif").unwrap_err(),
        "Only PNG, JPG, JPEG and WebP static images are supported"
    );
    assert!(cache_covers((100, 50), (100, 50)));
    assert!(!cache_covers((99, 50), (100, 50)));
}
