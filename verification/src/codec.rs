//! The image codecs that the library calls: decoding, nearest-neighbour
//! resizing, JPEG encoding and base64. Each call stands behind one function
//! whose contract is trusted, not proved; each names its result, so that what
//! is built on it can be stated exactly.

use vstd::prelude::*;

verus! {

/// The image formats that a file's extension can announce.
#[derive(Clone, Copy, Debug, PartialEq, Eq, Structural)]
pub enum PreviewFormat {
    Jpeg,
    Png,
    Gif,
    WebP,
    Bmp,
    Tiff,
}

/// Pixels as a codec hands them out: rows of RGBA, 8 bits a channel.
pub struct RawImage {
    pub width: u32,
    pub height: u32,
    pub pixels: Seq<u8>,
}

/// What a decoder's answer stands for.
pub open spec fn raw_result(answer: Result<(u32, u32, Vec<u8>), String>) -> Result<
    RawImage,
    Seq<char>,
> {
    match answer {
        Ok(image) => Ok(RawImage { width: image.0, height: image.1, pixels: image.2@ }),
        Err(message) => Err(message@),
    }
}

/// What an answer in bytes stands for.
pub open spec fn bytes_result(answer: Result<Vec<u8>, String>) -> Result<Seq<u8>, Seq<char>> {
    match answer {
        Ok(bytes) => Ok(bytes@),
        Err(message) => Err(message@),
    }
}

/// What the `image` crate decodes from `bytes` when told that they are in
/// `format`, turned into RGBA; or the text of its error.
pub uninterp spec fn decoded_as(bytes: Seq<u8>, format: PreviewFormat) -> Result<
    RawImage,
    Seq<char>,
>;

/// What the `image` crate decodes from `bytes` when it tells the format from
/// their first bytes, turned into RGBA; or the text of its error.
pub uninterp spec fn decoded_by_content(bytes: Seq<u8>) -> Result<RawImage, Seq<char>>;

/// The pixels that `fast_image_resize` gives when it resamples an RGBA image
/// of `width` by `height` to `new_width` by `new_height` by nearest
/// neighbour; or the text of its error.
pub uninterp spec fn resized_nearest(
    pixels: Seq<u8>,
    width: u32,
    height: u32,
    new_width: u32,
    new_height: u32,
) -> Result<Seq<u8>, Seq<char>>;

/// The JPEG file that the `image` crate's encoder writes for an RGBA image at
/// `quality`; or the text of its error.
pub uninterp spec fn jpeg_encoded(pixels: Seq<u8>, width: u32, height: u32, quality: u8) -> Result<
    Seq<u8>,
    Seq<char>,
>;

/// The width and height that the `image` crate reads from the header of
/// `bytes`, taken to be in the format that the extension of `path` stands for
/// in that crate; `None` where the extension stands for none or the header
/// cannot be read.
pub uninterp spec fn probed_dimensions(path: Seq<char>, bytes: Seq<u8>) -> Option<(u32, u32)>;

/// `bytes` in base64, standard alphabet, padded.
pub uninterp spec fn base64_text(bytes: Seq<u8>) -> Seq<char>;

/// Decodes `bytes` with `image::ImageReader`, the format set to `format`, and
/// turns the image into RGBA with `DynamicImage::to_rgba8`.
///
/// Trusted: the answer is a function of the bytes and the format, named
/// `decoded_as`. That holds as the crate reads nothing but the bytes here; it
/// is not claimed when the image is decoded, nor how large it is.
#[verifier::external_body]
pub(crate) fn decode_as(bytes: &Vec<u8>, format: PreviewFormat) -> (answer: Result<
    (u32, u32, Vec<u8>),
    String,
>)
    ensures
        raw_result(answer) == decoded_as(bytes@, format),
{
    let mut reader = image::ImageReader::new(std::io::Cursor::new(bytes.as_slice()));
    reader.set_format(
        match format {
            PreviewFormat::Jpeg => image::ImageFormat::Jpeg,
            PreviewFormat::Png => image::ImageFormat::Png,
            PreviewFormat::Gif => image::ImageFormat::Gif,
            PreviewFormat::WebP => image::ImageFormat::WebP,
            PreviewFormat::Bmp => image::ImageFormat::Bmp,
            PreviewFormat::Tiff => image::ImageFormat::Tiff,
        },
    );
    let image = reader.decode().map_err(|e| e.to_string())?.to_rgba8();
    Ok((image.width(), image.height(), image.into_raw()))
}

/// Decodes `bytes` with `image::ImageReader` after `with_guessed_format`, and
/// turns the image into RGBA with `DynamicImage::to_rgba8`.
///
/// Trusted: the answer is a function of the bytes, named
/// `decoded_by_content`. That holds as long as the process has registered no
/// format hook of its own with the `image` crate, which this library never
/// does.
#[verifier::external_body]
pub(crate) fn decode_by_content(bytes: &Vec<u8>) -> (answer: Result<(u32, u32, Vec<u8>), String>)
    ensures
        raw_result(answer) == decoded_by_content(bytes@),
{
    let reader = image::ImageReader::new(std::io::Cursor::new(bytes.as_slice()))
        .with_guessed_format()
        .map_err(|e| e.to_string())?;
    let image = reader.decode().map_err(|e| e.to_string())?.to_rgba8();
    Ok((image.width(), image.height(), image.into_raw()))
}

/// Resamples an RGBA image by nearest neighbour with
/// `fast_image_resize::Resizer::resize`, from `Image::from_vec_u8` into an
/// `Image::new` of the new size.
///
/// Trusted: the answer is a function of the arguments, named
/// `resized_nearest`; sampling by nearest neighbour copies pixels, whatever
/// instruction set the processor offers. `requires` keeps the products that
/// the crate computes within `usize`.
#[verifier::external_body]
pub(crate) fn resize_nearest(
    pixels: Vec<u8>,
    width: u32,
    height: u32,
    new_width: u32,
    new_height: u32,
) -> (answer: Result<Vec<u8>, String>)
    requires
        width * height * 4 <= usize::MAX,
        new_width * new_height * 4 <= usize::MAX,
    ensures
        bytes_result(answer) == resized_nearest(pixels@, width, height, new_width, new_height),
{
    let kind = fast_image_resize::PixelType::U8x4;
    let source = fast_image_resize::images::Image::from_vec_u8(width, height, pixels, kind)
        .map_err(|e| e.to_string())?;
    let mut target = fast_image_resize::images::Image::new(new_width, new_height, kind);
    let options = fast_image_resize::ResizeOptions::new()
        .resize_alg(fast_image_resize::ResizeAlg::Nearest);
    fast_image_resize::Resizer::new()
        .resize(&source, &mut target, &options)
        .map_err(|e| e.to_string())?;
    Ok(target.into_vec())
}

/// Encodes an RGBA image as JPEG with `image::codecs::jpeg::JpegEncoder`,
/// made by `new_with_quality` and run by `encode_image`.
///
/// Trusted: the answer is a function of the arguments, named `jpeg_encoded`.
/// `requires` asks for a buffer that holds the image, so that
/// `ImageBuffer::from_raw` accepts it.
#[verifier::external_body]
pub(crate) fn encode_jpeg(pixels: Vec<u8>, width: u32, height: u32, quality: u8) -> (answer: Result<
    Vec<u8>,
    String,
>)
    requires
        pixels@.len() >= width * height * 4,
    ensures
        bytes_result(answer) == jpeg_encoded(pixels@, width, height, quality),
{
    let image = match image::RgbaImage::from_raw(width, height, pixels) {
        Some(image) => image,
        None => return Err(String::new()),
    };
    let mut buffer = std::io::Cursor::new(Vec::new());
    image::codecs::jpeg::JpegEncoder::new_with_quality(&mut buffer, quality)
        .encode_image(&image)
        .map_err(|e| e.to_string())?;
    Ok(buffer.into_inner())
}

/// Reads the size of an image from its header, without decoding it: the
/// format comes from `image::ImageFormat::from_path`, the size from
/// `into_dimensions` of an `image::ImageReader` made by `with_format`.
///
/// Trusted: the answer is a function of the path and the bytes, named
/// `probed_dimensions`.
#[verifier::external_body]
pub(crate) fn probe_dimensions(path: &str, bytes: &Vec<u8>) -> (size: Option<(u32, u32)>)
    ensures
        size == probed_dimensions(path@, bytes@),
{
    let format = image::ImageFormat::from_path(path).ok()?;
    image::ImageReader::with_format(std::io::Cursor::new(bytes.as_slice()), format)
        .into_dimensions()
        .ok()
}

/// Encodes `bytes` with `Engine::encode` of
/// `base64::engine::general_purpose::STANDARD`.
///
/// Trusted: the text is a function of the bytes, named `base64_text`. The
/// crate panics only where four thirds of the length overflow `usize`, and no
/// `Vec` is that long.
#[verifier::external_body]
pub(crate) fn base64_encode(bytes: &Vec<u8>) -> (text: String)
    ensures
        text@ == base64_text(bytes@),
{
    base64::Engine::encode(&base64::engine::general_purpose::STANDARD, bytes)
}

} // verus!
