//! Decoding: from the bytes of an image file to a raster.

use crate::raster::{Raster, RasterView};
use crate::RenderError;
use vstd::prelude::*;

verus! {

#[verifier::external_type_specification]
#[verifier::external_body]
pub struct ExImageError(image::ImageError);

/// What the bytes of an image file decode to, as 8-bit red, green and blue:
/// `None` where the decoder refuses them.
pub uninterp spec fn decoded(bytes: Seq<u8>) -> Option<RasterView>;

/// Calls `image::io::Reader::new` on the bytes, then `with_guessed_format`
/// and `decode`, and turns the image that comes back into 8-bit red, green
/// and blue with `into_rgb8`; its width, height and bytes are handed out.
///
/// Trusted: the outcome is a function of the bytes alone. Nothing is claimed
/// of the size or the number of the bytes that come back.
#[verifier::external_body]
fn decode_rgb8(bytes: Vec<u8>) -> (found: Result<(u32, u32, Vec<u8>), image::ImageError>)
    ensures
        match found {
            Ok(image) => decoded(bytes@) == Some(
                RasterView {
                    width: image.0 as nat,
                    height: image.1 as nat,
                    pixels: image.2@,
                },
            ),
            Err(_) => decoded(bytes@) is None,
        },
{
    let reader = image::io::Reader::new(std::io::Cursor::new(bytes)).with_guessed_format()?;
    let rgb = reader.decode()?.into_rgb8();
    Ok((rgb.width(), rgb.height(), rgb.into_raw()))
}

/// Decodes the bytes of an image file. Where the decoder refuses them, its
/// error is handed on as it is; where what it hands back has not three bytes
/// for each pixel, the failure is `BufferConstructionFailure`.
pub fn decode(bytes: Vec<u8>) -> (image: Result<Raster, RenderError>)
    ensures
        match decoded(bytes@) {
            Some(found) => if found.wf() {
                image matches Ok(raster) && raster@ == found
            } else {
                image matches Err(error) && error is BufferConstructionFailure
            },
            None => image matches Err(error) && error is DecodeFailure,
        },
{
    match decode_rgb8(bytes) {
        Ok((width, height, pixels)) => match Raster::new(width, height, pixels) {
            Some(raster) => Ok(raster),
            None => Err(RenderError::BufferConstructionFailure),
        },
        Err(cause) => Err(RenderError::DecodeFailure(cause)),
    }
}

} // verus!
