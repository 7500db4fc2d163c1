use vstd::prelude::*;
use image::{DynamicImage, ImageError};

verus! {

/// `image::DynamicImage`, carried as an opaque value. What the library knows
/// of one is what `image_content` says.
#[verifier::external_type_specification]
#[verifier::external_body]
pub struct ExDynamicImage(image::DynamicImage);

/// `image::ImageError`, carried as an opaque value.
#[verifier::external_type_specification]
#[verifier::external_body]
pub struct ExImageError(image::ImageError);

/// The mathematical value of an image: its size in pixels, the layout
/// of its samples as the number of its color type, and the samples.
pub struct Pixels {
    pub width: u32,
    pub height: u32,
    pub layout: u8,
    pub samples: Seq<u8>,
}

/// What an image holds.
pub uninterp spec fn image_content(image: DynamicImage) -> Pixels;

/// The bytes that a `JpegEncoder` of the default quality writes for an
/// image; `None` where it reports an error.
pub uninterp spec fn jpeg_of(image: Pixels) -> Option<Seq<u8>>;

/// `DynamicImage::width`.
#[verifier::external_body]
pub(crate) fn image_width(image: &DynamicImage) -> (width: u32)
    ensures
        width == image_content(*image).width,
{
    image.width()
}

/// `DynamicImage::height`.
#[verifier::external_body]
pub(crate) fn image_height(image: &DynamicImage) -> (height: u32)
    ensures
        height == image_content(*image).height,
{
    image.height()
}

/// `JpegEncoder::encode_image` on a new encoder of the default quality that
/// writes to a byte vector. The outcome depends on the image alone.
#[verifier::external_body]
pub(crate) fn encode_jpeg(image: &DynamicImage) -> (r: Result<Vec<u8>, ImageError>)
    ensures
        match r {
            Ok(data) => jpeg_of(image_content(*image)) == Some(data@),
            Err(_) => jpeg_of(image_content(*image)) is None,
        },
{
    let mut out = Vec::new();
    image::codecs::jpeg::JpegEncoder::new(&mut out).encode_image(image)?;
    Ok(out)
}

} // verus!
