//! Decoded GIF images as plain RGB pixel data.

use vstd::prelude::*;

verus! {

#[verifier::external_type_specification]
#[verifier::external_body]
pub struct ExImageError(image::ImageError);

/// An RGB8 image: pixel `(x, y)` occupies bytes `3 * (y * width + x) ..` of
/// `data`, red, green, blue.
#[derive(Debug, Clone)]
pub struct PageImage {
    pub width: u32,
    pub height: u32,
    pub data: Vec<u8>,
}

impl PageImage {
    /// `data` holds at least `width * height` pixels.
    pub open spec fn wf(&self) -> bool {
        self.data@.len() >= self.width * self.height * 3
    }

    /// Width in pixels.
    pub fn width(&self) -> (r: u32)
        ensures
            r == self.width,
    {
        self.width
    }

    /// Height in pixels.
    pub fn height(&self) -> (r: u32)
        ensures
            r == self.height,
    {
        self.height
    }
}

/// The image that the `image` crate's GIF decoder produces from `bytes`, as
/// width, height and RGB8 pixel bytes; `None` where it reports an error.
pub uninterp spec fn gif_decoded(bytes: Seq<u8>) -> Option<(u32, u32, Seq<u8>)>;

/// Decodes a GIF with `image::load_from_memory_with_format` and converts the
/// result to RGB8 (`DynamicImage::to_rgb8`). Claimed: the outcome is a
/// function of the bytes alone (`gif_decoded`), and the pixel buffer of an
/// `ImageBuffer` covers its `width * height` pixels.
#[verifier::external_body]
pub(crate) fn decode_gif_rgb(bytes: &[u8]) -> (r: Result<PageImage, image::ImageError>)
    ensures
        r is Ok <==> gif_decoded(bytes@) is Some,
        r matches Ok(img) ==> gif_decoded(bytes@) == Some((img.width, img.height, img.data@))
            && img.wf(),
{
    match image::load_from_memory_with_format(bytes, image::ImageFormat::Gif) {
        Ok(img) => {
            let rgb = img.to_rgb8();
            Ok(PageImage { width: rgb.width(), height: rgb.height(), data: rgb.into_raw() })
        },
        Err(e) => Err(e),
    }
}

} // verus!
