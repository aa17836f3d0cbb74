//! From the bytes of an image file to its preview: the format that the file's
//! extension announces, decoding with a fallback, the size of the thumbnail,
//! and the thumbnail itself as a JPEG in base64.

use vstd::prelude::*;
use crate::codec::{
    base64_encode, base64_text, decode_as, decode_by_content, decoded_as, decoded_by_content,
    encode_jpeg, jpeg_encoded, resize_nearest, resized_nearest, PreviewFormat, RawImage,
};
use crate::paths::{extension_of, lowercase, path_extension, to_lowercase};
use crate::text::str_eq;

verus! {

/// Longest side, in pixels, that a preview may have.
pub const PREVIEW_MAX_SIZE: u32 = 200;

/// Quality, out of 100, at which previews are encoded as JPEG.
pub const PREVIEW_JPEG_QUALITY: u8 = 70;

/// Whether the pixel buffer is large enough for the image's size: four bytes
/// for every pixel.
pub open spec fn holds_image(image: RawImage) -> bool {
    image.pixels.len() >= image.width * image.height * 4
}

/// A decoded image: its size and its pixels, rows of RGBA at 8 bits a
/// channel. The buffer always holds at least the whole image.
#[derive(Debug, PartialEq, Eq)]
pub struct DecodedImage {
    width: u32,
    height: u32,
    pixels: Vec<u8>,
}

impl View for DecodedImage {
    type V = RawImage;

    closed spec fn view(&self) -> RawImage {
        RawImage { width: self.width, height: self.height, pixels: self.pixels@ }
    }
}

impl DecodedImage {
    #[verifier::type_invariant]
    spec fn well_formed(self) -> bool {
        self.pixels@.len() >= self.width * self.height * 4
    }

    /// The image of `width` by `height` whose pixels are the start of
    /// `pixels`; `None` where the buffer is too small for that size.
    pub fn from_raw(width: u32, height: u32, pixels: Vec<u8>) -> (image: Option<DecodedImage>)
        ensures
            match image {
                Some(image) => image@ == (RawImage { width, height, pixels: pixels@ })
                    && holds_image(image@),
                None => !holds_image(RawImage { width, height, pixels: pixels@ }),
            },
    {
        assert(width * height <= 0xffff_ffff * 0xffff_ffff) by (nonlinear_arith)
            requires
                width <= 0xffff_ffff,
                height <= 0xffff_ffff,
        ;
        let area: u64 = (width as u64) * (height as u64);
        let needed: u128 = (area as u128) * 4;
        if needed <= pixels.len() as u128 {
            Some(DecodedImage { width, height, pixels })
        } else {
            None
        }
    }

    /// Width in pixels.
    pub fn width(&self) -> (width: u32)
        ensures
            width == self@.width,
    {
        self.width
    }

    /// Height in pixels.
    pub fn height(&self) -> (height: u32)
        ensures
            height == self@.height,
    {
        self.height
    }

    /// The pixel buffer: four bytes for each pixel, row after row.
    pub fn pixels(&self) -> (pixels: &Vec<u8>)
        ensures
            pixels@ == self@.pixels,
            holds_image(self@),
    {
        proof {
            use_type_invariant(self);
        }
        &self.pixels
    }
}

/// What an answer that holds an image stands for.
pub open spec fn image_result(answer: Result<DecodedImage, String>) -> Result<RawImage, Seq<char>> {
    match answer {
        Ok(image) => Ok(image@),
        Err(message) => Err(message@),
    }
}

/// What an answer that holds a preview stands for.
pub open spec fn preview_result(answer: Result<(String, u32, u32), String>) -> Result<
    (Seq<char>, u32, u32),
    Seq<char>,
> {
    match answer {
        Ok(preview) => Ok((preview.0@, preview.1, preview.2)),
        Err(message) => Err(message@),
    }
}

/// The format that an extension, in lower case, stands for.
pub open spec fn format_named(extension: Seq<char>) -> Option<PreviewFormat> {
    if extension == "jpg"@ || extension == "jpeg"@ {
        Some(PreviewFormat::Jpeg)
    } else if extension == "png"@ {
        Some(PreviewFormat::Png)
    } else if extension == "gif"@ {
        Some(PreviewFormat::Gif)
    } else if extension == "webp"@ {
        Some(PreviewFormat::WebP)
    } else if extension == "bmp"@ {
        Some(PreviewFormat::Bmp)
    } else if extension == "tiff"@ || extension == "tif"@ {
        Some(PreviewFormat::Tiff)
    } else {
        None
    }
}

/// The format that the extension of `path` announces, whatever its case.
pub open spec fn format_of(path: Seq<char>) -> Option<PreviewFormat> {
    match path_extension(path) {
        Some(extension) => format_named(lowercase(extension)),
        None => None,
    }
}

/// The format that the extension of `path` announces: `jpg` and `jpeg`,
/// `png`, `gif`, `webp`, `bmp`, `tiff` and `tif`, in any case; `None` for any
/// other extension and for a path without one.
pub fn format_from_extension(path: &str) -> (format: Option<PreviewFormat>)
    ensures
        format == format_of(path@),
{
    let extension = match extension_of(path) {
        Some(extension) => to_lowercase(extension.as_str()),
        None => {
            return None;
        },
    };
    let ext = extension.as_str();
    if str_eq(ext, "jpg") || str_eq(ext, "jpeg") {
        Some(PreviewFormat::Jpeg)
    } else if str_eq(ext, "png") {
        Some(PreviewFormat::Png)
    } else if str_eq(ext, "gif") {
        Some(PreviewFormat::Gif)
    } else if str_eq(ext, "webp") {
        Some(PreviewFormat::WebP)
    } else if str_eq(ext, "bmp") {
        Some(PreviewFormat::Bmp)
    } else if str_eq(ext, "tiff") || str_eq(ext, "tif") {
        Some(PreviewFormat::Tiff)
    } else {
        None
    }
}

/// Whether the extension of `path` announces a JPEG, so that a faster JPEG
/// decoder is worth a try before the general one.
pub fn announces_jpeg(path: &str) -> (jpeg: bool)
    ensures
        jpeg == (format_of(path@) == Some(PreviewFormat::Jpeg)),
{
    match format_from_extension(path) {
        Some(format) => format == PreviewFormat::Jpeg,
        None => false,
    }
}

/// A decoder's answer, refused where its buffer does not hold the image it
/// announces.
pub open spec fn checked(answer: Result<RawImage, Seq<char>>) -> Result<RawImage, Seq<char>> {
    match answer {
        Ok(image) => if holds_image(image) {
            Ok(image)
        } else {
            Err("Failed to create image from decoded pixels"@)
        },
        Err(message) => Err(message),
    }
}

/// The image that a file stands for. `accelerated` is what a faster JPEG
/// decoder made of the bytes, if one was tried and succeeded; it is taken for
/// a file whose extension announces JPEG. Otherwise the bytes are decoded in
/// the announced format, and where that fails or none is announced, in the
/// format that their content shows.
pub open spec fn decoded_image(
    path: Seq<char>,
    bytes: Seq<u8>,
    accelerated: Option<RawImage>,
) -> Result<RawImage, Seq<char>> {
    match format_of(path) {
        Some(format) => if format == PreviewFormat::Jpeg && accelerated is Some {
            Ok(accelerated->0)
        } else {
            match checked(decoded_as(bytes, format)) {
                Ok(image) => Ok(image),
                Err(_) => checked(decoded_by_content(bytes)),
            }
        },
        None => checked(decoded_by_content(bytes)),
    }
}

fn check_decoded(answer: Result<(u32, u32, Vec<u8>), String>) -> (image: Result<
    DecodedImage,
    String,
>)
    ensures
        image_result(image) == checked(crate::codec::raw_result(answer)),
{
    match answer {
        Ok((width, height, pixels)) => match DecodedImage::from_raw(width, height, pixels) {
            Some(image) => Ok(image),
            None => Err(String::from_str("Failed to create image from decoded pixels")),
        },
        Err(message) => Err(message),
    }
}

/// Decodes the image file at `path`, whose content is `bytes`.
///
/// `accelerated` is the image that a faster JPEG decoder made of the same
/// bytes, or `None` where none was tried or it failed; it is used only for a
/// path whose extension announces JPEG. Fails with the decoder's message when
/// the bytes can be decoded neither in the announced format nor in the one
/// that their content shows.
pub fn load_image_fast(path: &str, bytes: &Vec<u8>, accelerated: Option<DecodedImage>) -> (image:
    Result<DecodedImage, String>)
    ensures
        image_result(image) == decoded_image(
            path@,
            bytes@,
            match accelerated {
                Some(image) => Some(image@),
                None => None,
            },
        ),
{
    match format_from_extension(path) {
        Some(format) => {
            if format == PreviewFormat::Jpeg {
                if let Some(image) = accelerated {
                    return Ok(image);
                }
            }
            match check_decoded(decode_as(bytes, format)) {
                Ok(image) => Ok(image),
                Err(_) => check_decoded(decode_by_content(bytes)),
            }
        },
        None => check_decoded(decode_by_content(bytes)),
    }
}

/// The size of the preview of an image of `width` by `height`: the image's
/// own size where neither side is over 200, else the size scaled down, and
/// rounded down, so that the longer side is 200.
pub open spec fn thumbnail_size(width: u32, height: u32) -> (u32, u32) {
    if width <= 200 && height <= 200 {
        (width, height)
    } else if width > height {
        (200u32, (height as int * 200 / width as int) as u32)
    } else {
        ((width as int * 200 / height as int) as u32, 200u32)
    }
}

/// Neither side of a preview is over 200 pixels, and a preview that was
/// scaled down has a longer side of exactly 200.
pub proof fn lemma_thumbnail_size_bounded(width: u32, height: u32)
    ensures
        thumbnail_size(width, height).0 <= 200,
        thumbnail_size(width, height).1 <= 200,
        thumbnail_size(width, height).0 <= width,
        thumbnail_size(width, height).1 <= height,
        width > 200 || height > 200 ==> thumbnail_size(width, height).0 == 200 || thumbnail_size(
            width,
            height,
        ).1 == 200,
{
    if width <= 200 && height <= 200 {
    } else if width > height {
        let w = width as int;
        let h = height as int;
        assert(0 <= h * 200 / w <= 200 && h * 200 / w <= h) by (nonlinear_arith)
            requires
                0 <= h < w,
                w > 200,
        ;
    } else {
        let w = width as int;
        let h = height as int;
        assert(0 <= w * 200 / h <= 200 && w * 200 / h <= w) by (nonlinear_arith)
            requires
                0 <= w <= h,
                h > 200,
        ;
    }
}

/// The size of the preview of an image of `width` by `height`.
pub fn thumbnail_dimensions(width: u32, height: u32) -> (size: (u32, u32))
    ensures
        size == thumbnail_size(width, height),
        size.0 <= 200,
        size.1 <= 200,
{
    proof {
        lemma_thumbnail_size_bounded(width, height);
    }
    if width <= PREVIEW_MAX_SIZE && height <= PREVIEW_MAX_SIZE {
        (width, height)
    } else if width > height {
        let scaled: u64 = (height as u64) * 200 / (width as u64);
        (PREVIEW_MAX_SIZE, scaled as u32)
    } else {
        let scaled: u64 = (width as u64) * 200 / (height as u64);
        (scaled as u32, PREVIEW_MAX_SIZE)
    }
}

/// The pixels of the preview of `image`: those of the image itself where
/// neither side is over 200, else the image resampled by nearest neighbour to
/// its preview size.
pub open spec fn thumbnail_pixels(image: RawImage) -> Result<Seq<u8>, Seq<char>> {
    let size = thumbnail_size(image.width, image.height);
    if image.width <= 200 && image.height <= 200 {
        Ok(image.pixels)
    } else {
        match resized_nearest(image.pixels, image.width, image.height, size.0, size.1) {
            Ok(pixels) => if pixels.len() >= size.0 * size.1 * 4 {
                Ok(pixels)
            } else {
                Err("Failed to create thumbnail image"@)
            },
            Err(message) => Err(message),
        }
    }
}

/// The preview of `image`: its thumbnail as a JPEG of quality 70 in base64,
/// with the width and height of the image itself.
pub open spec fn preview_of(image: RawImage) -> Result<(Seq<char>, u32, u32), Seq<char>> {
    let size = thumbnail_size(image.width, image.height);
    match thumbnail_pixels(image) {
        Ok(pixels) => match jpeg_encoded(pixels, size.0, size.1, 70) {
            Ok(jpeg) => Ok((base64_text(jpeg), image.width, image.height)),
            Err(message) => Err(message),
        },
        Err(message) => Err(message),
    }
}

/// The preview of the image file at `path` with content `bytes`.
pub open spec fn generated_preview(
    path: Seq<char>,
    bytes: Seq<u8>,
    accelerated: Option<RawImage>,
) -> Result<(Seq<char>, u32, u32), Seq<char>> {
    match decoded_image(path, bytes, accelerated) {
        Ok(image) => preview_of(image),
        Err(message) => Err(message),
    }
}

/// Makes the preview of a decoded image: the thumbnail, a JPEG in base64,
/// and the width and height of the image itself.
///
/// An image with no side over 200 pixels is encoded as it is; a larger one is
/// first resampled by nearest neighbour to `thumbnail_size`. Fails with the
/// message of the resizer or of the encoder.
pub fn render_preview(image: DecodedImage) -> (preview: Result<(String, u32, u32), String>)
    ensures
        preview_result(preview) == preview_of(image@),
{
    proof {
        use_type_invariant(&image);
    }
    let DecodedImage { width, height, pixels } = image;
    let held = pixels.len();
    assert(width * height * 4 <= held);
    let (thumb_width, thumb_height) = thumbnail_dimensions(width, height);
    let thumbnail = if width <= PREVIEW_MAX_SIZE && height <= PREVIEW_MAX_SIZE {
        pixels
    } else {
        assert(thumb_width * thumb_height * 4 <= usize::MAX) by (nonlinear_arith)
            requires
                thumb_width <= 200,
                thumb_height <= 200,
                usize::MAX >= 0xffff_ffff,
        ;
        let resized = match resize_nearest(pixels, width, height, thumb_width, thumb_height) {
            Ok(resized) => resized,
            Err(message) => {
                return Err(message);
            },
        };
        match DecodedImage::from_raw(thumb_width, thumb_height, resized) {
            Some(thumbnail) => thumbnail.pixels,
            None => {
                return Err(String::from_str("Failed to create thumbnail image"));
            },
        }
    };
    let jpeg = match encode_jpeg(thumbnail, thumb_width, thumb_height, PREVIEW_JPEG_QUALITY) {
        Ok(jpeg) => jpeg,
        Err(message) => {
            return Err(message);
        },
    };
    Ok((base64_encode(&jpeg), width, height))
}

/// Makes the preview of the image file at `path`, whose content is `bytes`:
/// decodes it as `load_image_fast` does and renders it as `render_preview`
/// does. Fails with the message of the step that failed.
pub fn generate_preview(path: &str, bytes: &Vec<u8>, accelerated: Option<DecodedImage>) -> (preview:
    Result<(String, u32, u32), String>)
    ensures
        preview_result(preview) == generated_preview(
            path@,
            bytes@,
            match accelerated {
                Some(image) => Some(image@),
                None => None,
            },
        ),
{
    match load_image_fast(path, bytes, accelerated) {
        Ok(image) => render_preview(image),
        Err(message) => Err(message),
    }
}

} // verus!
