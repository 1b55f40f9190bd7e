use ascii_converter::config::ConversionConfig;
use ascii_converter::config::DetailLevel;
use ascii_converter::contrast::enhance_contrast;
use ascii_converter::blur::gaussian_blur;
use ascii_converter::format::ImageFormat;
use ascii_converter::glyph::map_intensity;
use ascii_converter::pipeline::AsciiConversionService;
use ascii_converter::quantize::adaptive_threshold;
use ascii_converter::raster::GrayRaster;
use ascii_converter::raster::RgbRaster;
use ascii_converter::web::build_conversion_config;
use ascii_converter::web::ImageUpload;
use ascii_converter::web::WebError;
use ascii_converter::web::MAX_FILE_SIZE;

#[test]
fn lib_compiles() {
    // Basic test to ensure lib compiles
    assert_eq!(2 + 2, 4);
}

#[test]
fn ascii_chars_exist() {
    // Test that we have some basic ASCII functionality concepts
    let ascii_chars = ['@', '#', '*', '.', ' '];
    assert!(!ascii_chars.is_empty());
}

#[test]
fn char_sets_have_expected_sizes() {
    assert_eq!(DetailLevel::Low.char_set().chars().count(), 10);
    assert_eq!(DetailLevel::High.char_set().chars().count(), 69);
    assert_eq!(DetailLevel::Low.char_set(), " .-:=+*#%@");
}

#[test]
fn config_defaults() {
    let c = ConversionConfig::new(80, DetailLevel::Low);
    assert_eq!(c.width, 80);
    assert_eq!(c.contrast_factor, 120);
    assert_eq!(c.blur_sigma, 50);
    let d = ConversionConfig::default();
    assert_eq!(d.width, 100);
    assert_eq!(d.detail_level, DetailLevel::High);
}

#[test]
fn config_validity_bounds() {
    assert!(ConversionConfig::with_params(1, DetailLevel::Low, 1, 0).is_valid());
    assert!(ConversionConfig::with_params(1000, DetailLevel::High, 300, 500).is_valid());
    assert!(!ConversionConfig::with_params(0, DetailLevel::Low, 120, 50).is_valid());
    assert!(!ConversionConfig::with_params(1001, DetailLevel::Low, 120, 50).is_valid());
    assert!(!ConversionConfig::with_params(100, DetailLevel::Low, 0, 50).is_valid());
    assert!(!ConversionConfig::with_params(100, DetailLevel::Low, 301, 50).is_valid());
    assert!(!ConversionConfig::with_params(100, DetailLevel::Low, 120, 501).is_valid());
}

#[test]
fn contrast_factor_one_is_identity() {
    let img = RgbRaster { width: 2, height: 1, pixels: vec![0, 10, 128, 200, 255, 77] };
    let out = enhance_contrast(&img, 100);
    assert_eq!(out.pixels, img.pixels);
}

#[test]
fn contrast_stretches_away_from_midpoint() {
    let img = RgbRaster { width: 1, height: 1, pixels: vec![200, 10, 128] };
    let out = enhance_contrast(&img, 120);
    assert_eq!(out.pixels, vec![214, 0, 128]);
    let hard = enhance_contrast(&img, 300);
    assert_eq!(hard.pixels, vec![255, 0, 128]);
}

#[test]
fn blur_sigma_zero_is_identity() {
    let img = GrayRaster { width: 3, height: 2, pixels: vec![0, 50, 100, 150, 200, 250] };
    let out = gaussian_blur(&img, 0);
    assert_eq!(out.pixels, img.pixels);
    assert_eq!(out.width, 3);
    assert_eq!(out.height, 2);
}

#[test]
fn blur_keeps_uniform_buffers_uniform() {
    let img = GrayRaster { width: 4, height: 4, pixels: vec![128; 16] };
    let out = gaussian_blur(&img, 50);
    assert_eq!(out.pixels, vec![128; 16]);
}

#[test]
fn blur_smooths_an_edge() {
    let img = GrayRaster { width: 4, height: 1, pixels: vec![0, 0, 255, 255] };
    let out = gaussian_blur(&img, 100);
    // The two middle pixels must move toward each other.
    assert!(out.pixels[1] > 0);
    assert!(out.pixels[2] < 255);
    assert_eq!(out.pixels.len(), 4);
}

#[test]
fn quantize_uniform_image_single_level() {
    let img = GrayRaster { width: 3, height: 3, pixels: vec![7; 9] };
    let out = adaptive_threshold(&img, 10);
    assert_eq!(out.pixels, vec![255; 9]);
}

#[test]
fn quantize_two_tone_image() {
    let img = GrayRaster { width: 2, height: 2, pixels: vec![0, 255, 0, 255] };
    let out = adaptive_threshold(&img, 10);
    assert_eq!(out.pixels, vec![113, 255, 113, 255]);
}

#[test]
fn quantize_is_a_fixed_point() {
    let img = GrayRaster { width: 2, height: 2, pixels: vec![0, 255, 0, 255] };
    let once = adaptive_threshold(&img, 10);
    let twice = adaptive_threshold(&once, 10);
    assert_eq!(once.pixels, twice.pixels);
}

#[test]
fn glyph_mapper_exact_values() {
    assert_eq!(map_intensity(0, 10), 0);
    assert_eq!(map_intensity(255, 10), 9);
    assert_eq!(map_intensity(128, 10), 6);
    assert_eq!(map_intensity(64, 10), 3);
    assert_eq!(map_intensity(1, 10), 0);
    assert_eq!(map_intensity(128, 69), 42);
    assert_eq!(map_intensity(255, 69), 68);
}

#[test]
fn glyph_mapper_is_monotone() {
    let service = AsciiConversionService::new();
    for n in [10usize, 69usize] {
        let mut prev = 0usize;
        for v in 0..=255u8 {
            let idx = service.map_intensity_to_char(v, n);
            assert!(idx >= prev);
            assert!(idx < n);
            prev = idx;
        }
    }
}

#[test]
fn format_names() {
    assert_eq!(ImageFormat::Jpeg.mime_type(), "image/jpeg");
    assert_eq!(ImageFormat::Png.mime_type(), "image/png");
    assert_eq!(ImageFormat::Webp.extension(), "webp");
    assert_eq!(ImageFormat::Bmp.extension(), "bmp");
    assert_eq!(ImageFormat::Gif.display_name(), "GIF");
    assert_eq!(ImageFormat::Webp.display_name(), "WebP");
}

#[test]
fn format_from_mime_type() {
    assert_eq!(ImageFormat::from_mime_type("image/jpeg"), Some(ImageFormat::Jpeg));
    assert_eq!(ImageFormat::from_mime_type("image/jpg"), Some(ImageFormat::Jpeg));
    assert_eq!(ImageFormat::from_mime_type("image/png"), Some(ImageFormat::Png));
    assert_eq!(ImageFormat::from_mime_type("image/gif"), Some(ImageFormat::Gif));
    assert_eq!(ImageFormat::from_mime_type("image/webp"), Some(ImageFormat::Webp));
    assert_eq!(ImageFormat::from_mime_type("image/bmp"), Some(ImageFormat::Bmp));
    assert_eq!(ImageFormat::from_mime_type("text/plain"), None);
    assert_eq!(ImageFormat::from_mime_type("IMAGE/PNG"), None);
}

#[test]
fn format_from_extension_ignores_case() {
    assert_eq!(ImageFormat::from_extension("jpg"), Some(ImageFormat::Jpeg));
    assert_eq!(ImageFormat::from_extension("JPEG"), Some(ImageFormat::Jpeg));
    assert_eq!(ImageFormat::from_extension("Png"), Some(ImageFormat::Png));
    assert_eq!(ImageFormat::from_extension("GIF"), Some(ImageFormat::Gif));
    assert_eq!(ImageFormat::from_extension("WebP"), Some(ImageFormat::Webp));
    assert_eq!(ImageFormat::from_extension("BMP"), Some(ImageFormat::Bmp));
    assert_eq!(ImageFormat::from_extension("tiff"), None);
}

#[test]
fn upload_from_parts_rejects_missing_fields() {
    let r = ImageUpload::from_parts(None, Some("image/png".to_string()), Some(vec![1]));
    assert!(matches!(r, Err(WebError::BadRequest(m)) if m == "Missing filename in image field"));
    let r = ImageUpload::from_parts(Some("a.png".to_string()), None, Some(vec![1]));
    assert!(
        matches!(r, Err(WebError::BadRequest(m)) if m == "Missing content type in image field")
    );
    let r = ImageUpload::from_parts(
        Some("a.png".to_string()),
        Some("image/png".to_string()),
        None,
    );
    assert!(matches!(r, Err(WebError::BadRequest(m)) if m == "Missing image data"));
}

#[test]
fn upload_from_parts_checks_type_and_size() {
    let r = ImageUpload::from_parts(
        Some("a.txt".to_string()),
        Some("text/plain".to_string()),
        Some(vec![1]),
    );
    assert!(matches!(r, Err(WebError::UnsupportedMediaType)));
    let r = ImageUpload::from_parts(
        Some("a.png".to_string()),
        Some("image/png".to_string()),
        Some(vec![0; MAX_FILE_SIZE + 1]),
    );
    assert!(matches!(r, Err(WebError::PayloadTooLarge)));
    let r = ImageUpload::from_parts(
        Some("a.png".to_string()),
        Some("image/png".to_string()),
        Some(vec![1, 2, 3]),
    );
    let upload = r.unwrap_or_else(|_| panic!("expected an accepted upload"));
    assert_eq!(upload.filename, "a.png");
    assert_eq!(upload.content_type, "image/png");
    assert_eq!(upload.data, vec![1, 2, 3]);
}

#[test]
fn build_config_defaults_and_bounds() {
    let c = build_conversion_config(None, None, None, None).unwrap_or_else(|_| {
        panic!("default query must be valid")
    });
    assert_eq!(c.width, 100);
    assert_eq!(c.detail_level, DetailLevel::High);
    assert_eq!(c.contrast_factor, 120);
    assert_eq!(c.blur_sigma, 50);

    let c = build_conversion_config(Some(40), Some("low"), Some(150), Some(0)).unwrap_or_else(
        |_| panic!("low-detail query must be valid"),
    );
    assert_eq!(c.detail_level, DetailLevel::Low);
    assert_eq!(c.width, 40);
    assert_eq!(c.contrast_factor, 150);
    assert_eq!(c.blur_sigma, 0);

    let r = build_conversion_config(Some(40), Some("medium"), None, None);
    assert!(
        matches!(r, Err(WebError::BadRequest(m)) if m == "Invalid detail level. Use 'low' or 'high'")
    );
    let r = build_conversion_config(Some(0), None, None, None);
    assert!(matches!(r, Err(WebError::BadRequest(m)) if m == "Invalid conversion parameters"));
}

#[test]
fn web_error_status_codes() {
    assert_eq!(WebError::BadRequest("x".to_string()).http_status(), 400);
    assert_eq!(WebError::NotFound("x".to_string()).http_status(), 404);
    assert_eq!(WebError::InternalServerError("x".to_string()).http_status(), 500);
    assert_eq!(WebError::PayloadTooLarge.http_status(), 413);
    assert_eq!(WebError::UnsupportedMediaType.http_status(), 415);
}
