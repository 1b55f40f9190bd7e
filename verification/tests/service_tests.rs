use ascii_converter::config::ConversionConfig;
use ascii_converter::config::DetailLevel;
use ascii_converter::entities::AsciiArt;
use ascii_converter::entities::ImageData;
use ascii_converter::imaging::resize_rgb;
use ascii_converter::imaging::rgb_to_luma;
use ascii_converter::pipeline::AsciiConversionService;
use ascii_converter::pipeline::ConversionError;
use ascii_converter::raster::RgbRaster;
use ascii_converter::repository::InMemoryAsciiArtRepository;
use ascii_converter::repository::InMemoryImageRepository;
use ascii_converter::use_cases::ConvertImageRequest;
use ascii_converter::use_cases::ConvertImageToAsciiUseCase;
use ascii_converter::use_cases::ConvertImageError;
use ascii_converter::use_cases::UploadImageError;
use ascii_converter::use_cases::UploadImageRequest;
use ascii_converter::use_cases::UploadImageUseCase;

fn png_bytes(width: u32, height: u32, rgb: [u8; 3]) -> Vec<u8> {
    let mut pixels = Vec::new();
    for _ in 0..width * height {
        pixels.extend_from_slice(&rgb);
    }
    let img = image::RgbImage::from_raw(width, height, pixels).unwrap();
    let mut bytes: Vec<u8> = Vec::new();
    image::DynamicImage::ImageRgb8(img)
        .write_to(&mut std::io::Cursor::new(&mut bytes), image::ImageFormat::Png)
        .unwrap();
    bytes
}

fn stored_image(width: u32, height: u32, rgb: [u8; 3]) -> ImageData {
    ImageData::new(
        "test.png".to_string(),
        "image/png".to_string(),
        png_bytes(width, height, rgb),
        width,
        height,
    )
}

#[test]
fn white_two_by_two_low_detail() {
    // A tiny pure-white image at target width 2: the aspect formula
    // yields a single row, which must still be emitted.
    let service = AsciiConversionService::new();
    let config = ConversionConfig::with_params(2, DetailLevel::Low, 100, 0);
    let image = stored_image(2, 2, [255, 255, 255]);
    let art = service.convert_to_ascii(&image, &config).unwrap();
    assert_eq!(art, "@@");
}

#[test]
fn gray_hundred_square_high_detail() {
    // A 100x100 solid mid-gray at width 10 gives a 10x4 grid, and a
    // uniform input stays uniform through every stage.
    let service = AsciiConversionService::new();
    let config = ConversionConfig::with_params(10, DetailLevel::High, 120, 50);
    let image = stored_image(100, 100, [128, 128, 128]);
    let art = service.convert_to_ascii(&image, &config).unwrap();
    let lines: Vec<&str> = art.lines().collect();
    assert_eq!(lines.len(), 4);
    for line in &lines {
        assert_eq!(line.chars().count(), 10);
    }
    for c in art.chars() {
        if c != '\n' {
            assert_eq!(c, '$');
        }
    }
}

#[test]
fn decode_failure_is_reported() {
    let service = AsciiConversionService::new();
    let config = ConversionConfig::new(10, DetailLevel::Low);
    let image = ImageData::new(
        "junk.png".to_string(),
        "image/png".to_string(),
        vec![1, 2, 3, 4],
        0,
        0,
    );
    let err = service.convert_to_ascii(&image, &config).err().unwrap();
    assert!(matches!(err, ConversionError::ImageDecodeError(_)));
    let msg = err.message();
    assert!(msg.starts_with("Failed to decode image: "));
}

#[test]
fn conversion_error_messages() {
    assert_eq!(ConversionError::InvalidImageData.message(), "Invalid image data");
    assert_eq!(
        ConversionError::ImageDecodeError("bad header".to_string()).message(),
        "Failed to decode image: bad header"
    );
}

#[test]
fn resize_changes_dimensions() {
    let img = RgbRaster { width: 1, height: 1, pixels: vec![255, 0, 0] };
    let out = resize_rgb(&img, 3, 2);
    assert_eq!(out.width, 3);
    assert_eq!(out.height, 2);
    assert_eq!(out.pixels.len(), 18);
}

#[test]
fn luma_of_black_and_white() {
    let img = RgbRaster { width: 2, height: 1, pixels: vec![255, 255, 255, 0, 0, 0] };
    let out = rgb_to_luma(&img);
    assert_eq!(out.width, 2);
    assert_eq!(out.height, 1);
    assert_eq!(out.pixels, vec![255, 0]);
}

#[test]
fn ascii_art_entity_measures_its_text() {
    let art = AsciiArt::new(7, "ab\ncd\nef".to_string(), 2, 3, DetailLevel::Low);
    assert_eq!(art.line_count(), 3);
    assert!(art.is_valid());
    assert_eq!(art.image_id, 7);
    let empty = AsciiArt::new(7, String::new(), 0, 0, DetailLevel::Low);
    assert!(!empty.is_valid());
    assert_eq!(empty.line_count(), 0);
}

#[test]
fn image_data_entity_validity() {
    let img = ImageData::new("a.png".to_string(), "image/png".to_string(), vec![1], 2, 3);
    assert!(img.is_valid());
    assert_eq!(img.width, 2);
    assert_eq!(img.height, 3);
    let empty = ImageData::new("a.png".to_string(), "image/png".to_string(), vec![], 2, 3);
    assert!(!empty.is_valid());
}

#[test]
fn image_repository_round_trip() {
    let mut repo = InMemoryImageRepository::new();
    let img = ImageData::new("a.png".to_string(), "image/png".to_string(), vec![1, 2], 4, 4);
    let id = img.id;
    repo.save(&img).unwrap();
    let found = repo.find_by_id(id).unwrap().unwrap();
    assert_eq!(found.original_filename, "a.png");
    assert_eq!(found.data, vec![1, 2]);
    repo.delete(id).unwrap();
    assert!(repo.find_by_id(id).unwrap().is_none());
}

#[test]
fn art_repository_finds_by_image_id() {
    let mut repo = InMemoryAsciiArtRepository::new();
    let a1 = AsciiArt::new(1, "x".to_string(), 1, 1, DetailLevel::Low);
    let a2 = AsciiArt::new(1, "y".to_string(), 1, 1, DetailLevel::Low);
    let b = AsciiArt::new(2, "z".to_string(), 1, 1, DetailLevel::Low);
    repo.save(&a1).unwrap();
    repo.save(&a2).unwrap();
    repo.save(&b).unwrap();
    let for_one = repo.find_by_image_id(1).unwrap();
    assert_eq!(for_one.len(), 2);
    for art in &for_one {
        assert_eq!(art.image_id, 1);
    }
    let for_two = repo.find_by_image_id(2).unwrap();
    assert_eq!(for_two.len(), 1);
    assert_eq!(for_two[0].content, "z");
    repo.delete(a1.id).unwrap();
    assert_eq!(repo.find_by_image_id(1).unwrap().len(), 1);
    assert!(repo.find_by_id(a1.id).unwrap().is_none());
    assert!(repo.find_by_id(a2.id).unwrap().is_some());
}

#[test]
fn upload_use_case_accepts_valid_png() {
    let mut repo = InMemoryImageRepository::new();
    let use_case = UploadImageUseCase::new(10 * 1024 * 1024);
    let response = use_case
        .execute(
            &mut repo,
            UploadImageRequest {
                filename: "img.png".to_string(),
                content_type: "image/png".to_string(),
                data: png_bytes(5, 3, [9, 9, 9]),
            },
        )
        .unwrap();
    assert_eq!(response.width, 5);
    assert_eq!(response.height, 3);
    assert!(matches!(response.format, ascii_converter::format::ImageFormat::Png));
    let stored = repo.find_by_id(response.image_id).unwrap().unwrap();
    assert_eq!(stored.original_filename, "img.png");
}

#[test]
fn upload_use_case_rejections() {
    let mut repo = InMemoryImageRepository::new();
    let use_case = UploadImageUseCase::new(4);
    let too_large = use_case.execute(
        &mut repo,
        UploadImageRequest {
            filename: "big.png".to_string(),
            content_type: "image/png".to_string(),
            data: vec![0; 5],
        },
    );
    assert!(matches!(too_large, Err(UploadImageError::ImageTooLarge { max_size: 4 })));

    let bad_mime = use_case.execute(
        &mut repo,
        UploadImageRequest {
            filename: "a.txt".to_string(),
            content_type: "text/plain".to_string(),
            data: vec![0; 2],
        },
    );
    assert!(matches!(bad_mime, Err(UploadImageError::UnsupportedFormat)));

    let bad_data = use_case.execute(
        &mut repo,
        UploadImageRequest {
            filename: "a.png".to_string(),
            content_type: "image/png".to_string(),
            data: vec![0; 3],
        },
    );
    assert!(matches!(bad_data, Err(UploadImageError::InvalidImageData)));
}

#[test]
fn convert_use_case_full_flow() {
    let mut images = InMemoryImageRepository::new();
    let mut arts = InMemoryAsciiArtRepository::new();
    let upload = UploadImageUseCase::new(10 * 1024 * 1024);
    let response = upload
        .execute(
            &mut images,
            UploadImageRequest {
                filename: "gray.png".to_string(),
                content_type: "image/png".to_string(),
                data: png_bytes(100, 100, [128, 128, 128]),
            },
        )
        .unwrap();

    let convert = ConvertImageToAsciiUseCase::new(AsciiConversionService::new());
    let converted = convert
        .execute(
            &images,
            &mut arts,
            ConvertImageRequest {
                image_id: response.image_id,
                config: ConversionConfig::with_params(10, DetailLevel::High, 120, 50),
            },
        )
        .unwrap();
    assert_eq!(converted.width, 10);
    assert_eq!(converted.height, 4);
    assert_eq!(converted.content.lines().count(), 4);
    let stored = arts.find_by_id(converted.ascii_art_id).unwrap().unwrap();
    assert_eq!(stored.content, converted.content);
    assert_eq!(stored.image_id, response.image_id);
    assert_eq!(stored.width, 10);
    assert_eq!(stored.height, 4);
}

#[test]
fn convert_use_case_rejections() {
    let images = InMemoryImageRepository::new();
    let mut arts = InMemoryAsciiArtRepository::new();
    let convert = ConvertImageToAsciiUseCase::new(AsciiConversionService::new());

    let bad_config = convert.execute(
        &images,
        &mut arts,
        ConvertImageRequest {
            image_id: 1,
            config: ConversionConfig::with_params(0, DetailLevel::Low, 120, 50),
        },
    );
    assert!(matches!(bad_config, Err(ConvertImageError::InvalidConfig)));

    let missing = convert.execute(
        &images,
        &mut arts,
        ConvertImageRequest { image_id: 1, config: ConversionConfig::new(10, DetailLevel::Low) },
    );
    assert!(matches!(missing, Err(ConvertImageError::ImageNotFound)));
}

#[test]
fn conversion_failure_surfaces_through_use_case() {
    let mut images = InMemoryImageRepository::new();
    let mut arts = InMemoryAsciiArtRepository::new();
    let broken = ImageData::new(
        "junk.png".to_string(),
        "image/png".to_string(),
        vec![9, 9, 9],
        1,
        1,
    );
    let id = broken.id;
    images.save(&broken).unwrap();
    let convert = ConvertImageToAsciiUseCase::new(AsciiConversionService::new());
    let result = convert.execute(
        &images,
        &mut arts,
        ConvertImageRequest { image_id: id, config: ConversionConfig::new(10, DetailLevel::Low) },
    );
    match result {
        Err(ConvertImageError::ConversionFailed(msg)) => {
            assert!(msg.starts_with("Failed to decode image: "));
        }
        other => panic!("expected a conversion failure, got {:?}", other.is_ok()),
    }
}

#[test]
fn repository_overwrites_same_id() {
    let mut repo = InMemoryImageRepository::new();
    let mut img = ImageData::new("a.png".to_string(), "image/png".to_string(), vec![1], 1, 1);
    repo.save(&img).unwrap();
    img.original_filename = "b.png".to_string();
    repo.save(&img).unwrap();
    let found = repo.find_by_id(img.id).unwrap().unwrap();
    assert_eq!(found.original_filename, "b.png");
}

#[test]
fn art_repository_scan_with_no_matches() {
    let mut repo = InMemoryAsciiArtRepository::new();
    let art = AsciiArt::new(5, "x".to_string(), 1, 1, DetailLevel::High);
    repo.save(&art).unwrap();
    assert!(repo.find_by_image_id(6).unwrap().is_empty());
}
