//! Use cases: uploading and validating an image, and converting a
//! stored image to ASCII art. Each use case works against the
//! in-memory repositories handed to it by the caller.

use vstd::prelude::*;
use crate::config::spec_char_set;
use crate::config::ConversionConfig;
use crate::entities::AsciiArt;
use crate::entities::first_line_len_of;
use crate::entities::line_count_of;
use crate::entities::ImageData;
use crate::format::spec_from_mime_type;
use crate::format::ImageFormat;
use crate::imaging::decode_rgb;
use crate::imaging::decoded_image;
use crate::imaging::resampled;
use crate::pipeline::glyph_grid_shaped;
use crate::pipeline::lemma_shaped_text_measures;
use crate::pipeline::pipeline_text;
use crate::pipeline::target_height;
use crate::pipeline::AsciiConversionService;
use crate::repository::preserves_others;
use crate::repository::InMemoryAsciiArtRepository;
use crate::repository::InMemoryImageRepository;

verus! {

/// Why an upload was rejected.
#[derive(Debug)]
pub enum UploadImageError {
    UnsupportedFormat,
    InvalidImageData,
    ImageTooLarge { max_size: usize },
    Repository(String),
}

/// Why a conversion request failed.
#[derive(Debug)]
pub enum ConvertImageError {
    ImageNotFound,
    InvalidConfig,
    ConversionFailed(String),
    Repository(String),
}

pub struct UploadImageRequest {
    pub filename: String,
    pub content_type: String,
    pub data: Vec<u8>,
}

pub struct UploadImageResponse {
    pub image_id: u128,
    pub format: ImageFormat,
    pub width: u32,
    pub height: u32,
}

pub struct ConvertImageRequest {
    pub image_id: u128,
    pub config: ConversionConfig,
}

pub struct ConvertImageResponse {
    pub ascii_art_id: u128,
    pub content: String,
    pub width: u32,
    pub height: u32,
}

/// Use case for uploading and validating images.
pub struct UploadImageUseCase {
    max_file_size: usize,
}

impl UploadImageUseCase {
    /// The size cap uploads are checked against.
    pub closed spec fn spec_max_file_size(self) -> usize {
        self.max_file_size
    }

    /// Create a new upload image use case with the given size cap.
    pub fn new(max_file_size: usize) -> (r: Self)
        ensures
            r.spec_max_file_size() == max_file_size,
    {
        Self { max_file_size }
    }

    /// Validate an upload and store it: the data must fit the size
    /// cap, carry a recognized MIME type, and decode as an image.
    #[verifier::rlimit(50)]
    pub fn execute(
        &self,
        repository: &mut InMemoryImageRepository,
        request: UploadImageRequest,
    ) -> (r: Result<UploadImageResponse, UploadImageError>)
        ensures
            r is Err ==> final(repository).images() == old(repository).images(),
            request.data@.len() > self.spec_max_file_size() <==> r == Err::<
                UploadImageResponse,
                UploadImageError,
            >(UploadImageError::ImageTooLarge { max_size: self.spec_max_file_size() }),
            (request.data@.len() <= self.spec_max_file_size() && spec_from_mime_type(
                request.content_type@,
            ) is None) <==> r == Err::<UploadImageResponse, UploadImageError>(
                UploadImageError::UnsupportedFormat,
            ),
            !(r matches Err(UploadImageError::Repository(_))),
            (request.data@.len() <= self.spec_max_file_size() && spec_from_mime_type(
                request.content_type@,
            ) is Some && decoded_image(request.data@) is None) <==> r == Err::<
                UploadImageResponse,
                UploadImageError,
            >(UploadImageError::InvalidImageData),
            (request.data@.len() <= self.spec_max_file_size() && spec_from_mime_type(
                request.content_type@,
            ) is Some && decoded_image(request.data@) is Some) <==> r is Ok,
            r is Ok ==> Some(r->Ok_0.format) == spec_from_mime_type(request.content_type@),
            r is Ok ==> ({
                let dims = decoded_image(request.data@)->0;
                r->Ok_0.width as int == dims.0 && r->Ok_0.height as int == dims.1
            }),
            r is Ok ==> final(repository).images().dom() =~= old(repository).images().dom().insert(r->Ok_0.image_id),
            r is Ok ==> ({
                let img = final(repository).images()[r->Ok_0.image_id];
                &&& img.id == r->Ok_0.image_id
                &&& img.original_filename@ == request.filename@
                &&& img.content_type@ == request.content_type@
                &&& img.data@ == request.data@
                &&& img.width == r->Ok_0.width
                &&& img.height == r->Ok_0.height
            }),
            r is Ok ==> preserves_others(
                old(repository).images(),
                final(repository).images(),
                r->Ok_0.image_id,
            ),
    {
        if request.data.len() > self.max_file_size {
            return Err(UploadImageError::ImageTooLarge { max_size: self.max_file_size });
        }
        let format = match ImageFormat::from_mime_type(request.content_type.as_str()) {
            Some(f) => f,
            None => {
                return Err(UploadImageError::UnsupportedFormat);
            },
        };
        let decoded = match decode_rgb(&request.data) {
            Ok(d) => d,
            Err(_) => {
                return Err(UploadImageError::InvalidImageData);
            },
        };
        let width = decoded.width as u32;
        let height = decoded.height as u32;
        let image_data = ImageData::new(
            request.filename,
            request.content_type,
            request.data,
            width,
            height,
        );
        let image_id = image_data.id;
        match repository.save(&image_data) {
            Ok(()) => Ok(UploadImageResponse { image_id, format, width, height }),
            Err(_) => Err(UploadImageError::Repository(String::new())),
        }
    }
}

/// Use case for converting stored images to ASCII art.
pub struct ConvertImageToAsciiUseCase {
    conversion_service: AsciiConversionService,
}

impl ConvertImageToAsciiUseCase {
    /// Create a new convert image use case around a conversion
    /// service.
    pub fn new(conversion_service: AsciiConversionService) -> Self {
        Self { conversion_service }
    }

    /// Convert a stored image: validate the configuration, fetch the
    /// image, run the pipeline, store the resulting art, and report
    /// its text and measured dimensions.
    #[verifier::rlimit(50)]
    pub fn execute(
        &self,
        image_repository: &InMemoryImageRepository,
        ascii_art_repository: &mut InMemoryAsciiArtRepository,
        request: ConvertImageRequest,
    ) -> (r: Result<ConvertImageResponse, ConvertImageError>)
        requires
            old(ascii_art_repository).wf(),
        ensures
            final(ascii_art_repository).wf(),
            r is Err ==> final(ascii_art_repository).arts() == old(ascii_art_repository).arts(),
            !request.config.valid() <==> r == Err::<ConvertImageResponse, ConvertImageError>(
                ConvertImageError::InvalidConfig,
            ),
            (request.config.valid() && !image_repository.images().contains_key(request.image_id))
                <==> r == Err::<ConvertImageResponse, ConvertImageError>(
                ConvertImageError::ImageNotFound,
            ),
            !(r matches Err(ConvertImageError::Repository(_))),
            ({
                let ready = request.config.valid() && image_repository.images().contains_key(
                    request.image_id,
                );
                let d = decoded_image(image_repository.images()[request.image_id].data@);
                let dims = d->0;
                let undecodable = d is None || dims.0 == 0 || dims.1 == 0 || target_height(
                    dims.0,
                    dims.1,
                    request.config.width as int,
                ) > u32::MAX;
                &&& ((ready && undecodable) <==> r matches Err(
                    ConvertImageError::ConversionFailed(_),
                ))
                &&& ((ready && !undecodable) <==> r is Ok)
            }),
            r is Ok ==> r->Ok_0.width == request.config.width,
            r is Ok ==> ({
                let g = spec_char_set(request.config.detail_level);
                let dims = decoded_image(
                    image_repository.images()[request.image_id].data@,
                )->0;
                let th = target_height(dims.0, dims.1, request.config.width as int);
                &&& 1 <= th <= u32::MAX
                &&& r->Ok_0.height == th
                &&& glyph_grid_shaped(r->Ok_0.content@, request.config.width as int, g, th)
                &&& r->Ok_0.content@ == pipeline_text(
                    resampled(dims.2, dims.0, dims.1, request.config.width as int, th),
                    request.config.width as int,
                    th,
                    request.config.contrast_factor as int,
                    request.config.blur_sigma as int,
                    g,
                )
            }),
            r is Ok ==> final(ascii_art_repository).arts().dom() =~= old(ascii_art_repository).arts().dom().insert(r->Ok_0.ascii_art_id),
            r is Ok ==> ({
                let art = final(ascii_art_repository).arts()[r->Ok_0.ascii_art_id];
                &&& art.id == r->Ok_0.ascii_art_id
                &&& art.image_id == request.image_id
                &&& art.content@ == r->Ok_0.content@
                &&& art.width == r->Ok_0.width
                &&& art.height == r->Ok_0.height
                &&& art.detail_level == request.config.detail_level
            }),
            r is Ok ==> preserves_others(
                old(ascii_art_repository).arts(),
                final(ascii_art_repository).arts(),
                r->Ok_0.ascii_art_id,
            ),
    {
        if !request.config.is_valid() {
            return Err(ConvertImageError::InvalidConfig);
        }
        let image_data = match image_repository.find_by_id(request.image_id) {
            Ok(Some(v)) => v,
            Ok(None) => {
                return Err(ConvertImageError::ImageNotFound);
            },
            Err(_) => {
                return Err(ConvertImageError::Repository(String::new()));
            },
        };
        let content = match self.conversion_service.convert_to_ascii(
            &image_data,
            &request.config,
        ) {
            Ok(t) => t,
            Err(e) => {
                return Err(ConvertImageError::ConversionFailed(e.message()));
            },
        };
        let ghost content_view = content@;
        let ghost glyphs = spec_char_set(request.config.detail_level);
        let ghost dims = decoded_image(image_data.data@)->0;
        let ghost rows = target_height(dims.0, dims.1, request.config.width as int);
        proof {
            assert(image_data.data@ == image_repository.images()[request.image_id].data@);
            lemma_shaped_text_measures(content_view, request.config.width as int, glyphs, rows);
        }
        let height_rows = line_count_of(content.as_str());
        let width_cols = first_line_len_of(content.as_str());
        let width = width_cols as u32;
        let height = height_rows as u32;
        let ascii_art = AsciiArt::new(
            request.image_id,
            content,
            width,
            height,
            request.config.detail_level,
        );
        match ascii_art_repository.save(&ascii_art) {
            Ok(()) => {
                let AsciiArt { id, content: art_content, .. } = ascii_art;
                let response = ConvertImageResponse {
                    ascii_art_id: id,
                    content: art_content,
                    width,
                    height,
                };
                proof {
                    assert(response.content@ == content_view);
                    assert(glyph_grid_shaped(
                        response.content@,
                        request.config.width as int,
                        glyphs,
                        rows,
                    ));
                    assert(preserves_others(
                        old(ascii_art_repository).arts(),
                        ascii_art_repository.arts(),
                        id,
                    ));
                }
                Ok(response)
            },
            Err(_) => Err(ConvertImageError::Repository(String::new())),
        }
    }
}

} // verus!
