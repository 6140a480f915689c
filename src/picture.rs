use vstd::prelude::*;
use crate::naming::TARGET_SIZE;

verus! {

/// A decoded image from the `image` crate.
#[verifier::external_type_specification]
#[verifier::external_body]
pub struct ExDynamicImage(image::DynamicImage);

/// An error of the `image` crate.
#[verifier::external_type_specification]
#[verifier::external_body]
pub struct ExImageError(image::ImageError);

/// The width and height of the image that `bytes` decode to, in the format
/// that their leading magic bytes name, or `None` when that fails.
pub uninterp spec fn decoded_dims(bytes: Seq<u8>) -> Option<(u32, u32)>;

/// A decoded image together with its dimensions.
pub struct Picture {
    image: image::DynamicImage,
    width: u32,
    height: u32,
}

impl Picture {
    pub closed spec fn spec_width(&self) -> u32 {
        self.width
    }

    pub closed spec fn spec_height(&self) -> u32 {
        self.height
    }

    pub fn width(&self) -> (r: u32)
        ensures
            r == self.spec_width(),
    {
        self.width
    }

    pub fn height(&self) -> (r: u32)
        ensures
            r == self.spec_height(),
    {
        self.height
    }
}

/// Relies on image::guess_format, which names the format from the magic
/// bytes alone, and image::load_from_memory_with_format, which decodes in that
/// format; DynamicImage::width and height report the size. Neither call
/// consults the crate's run-time hook registries.
#[verifier::external_body]
pub(crate) fn decode(bytes: &[u8]) -> (r: Result<Picture, image::ImageError>)
    ensures
        r is Ok <==> decoded_dims(bytes@) is Some,
        r matches Ok(p) ==> decoded_dims(bytes@) == Some((p.spec_width(), p.spec_height())),
{
    match image::guess_format(bytes) {
        Ok(format) => match image::load_from_memory_with_format(bytes, format) {
            Ok(img) => Ok(Picture { width: img.width(), height: img.height(), image: img }),
            Err(e) => Err(e),
        },
        Err(e) => Err(e),
    }
}

/// Relies on DynamicImage::resize_exact with the Lanczos3 filter: the result
/// has exactly the requested width and height, whatever the aspect ratio.
#[verifier::external_body]
pub(crate) fn resize_exact(p: &Picture, width: u32, height: u32) -> (r: Picture)
    ensures
        r.spec_width() == width,
        r.spec_height() == height,
{
    let img = p.image.resize_exact(width, height, image::imageops::FilterType::Lanczos3);
    Picture { image: img, width, height }
}

/// Relies on DynamicImage::write_to with ImageFormat::Bmp into an in-memory
/// cursor: every pixel type is converted to one the BMP encoder takes, writing
/// to a `Vec` cannot fail, and the BMP header records the width and height,
/// which the BMP decoder reads back.
#[verifier::external_body]
pub(crate) fn encode_bmp(p: &Picture) -> (r: Result<Vec<u8>, image::ImageError>)
    requires
        1 <= p.spec_width() <= TARGET_SIZE,
        1 <= p.spec_height() <= TARGET_SIZE,
    ensures
        r is Ok,
        r matches Ok(b) ==> decoded_dims(b@) == Some((p.spec_width(), p.spec_height())),
{
    let mut out = std::io::Cursor::new(Vec::new());
    match p.image.write_to(&mut out, image::ImageFormat::Bmp) {
        Ok(()) => Ok(out.into_inner()),
        Err(e) => Err(e),
    }
}

/// Relies on the Display impl of ImageError: a readable description.
#[verifier::external_body]
pub(crate) fn error_text(e: &image::ImageError) -> (r: String) {
    e.to_string()
}

} // verus!
