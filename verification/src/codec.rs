//! The image codec as an opaque capability: encoded bytes to RGBA raster.

use vstd::prelude::*;

use crate::color::RgbaColor;
use crate::error::WszError;
use crate::raster::Raster;

verus! {

/// What the image codec decodes from the given bytes: width, height and the
/// raw RGBA bytes, four per pixel, row-major; nothing when the bytes are not
/// a decodable image.
pub uninterp spec fn image_decode(data: Seq<u8>) -> Option<(u32, u32, Seq<u8>)>;

/// Relies on `image::ImageReader` (`new`, `with_guessed_format`, `decode`)
/// and `image::DynamicImage::to_rgba8` with `ImageBuffer::into_raw`: decodes
/// a content-sniffed image into its dimensions and raw RGBA buffer, which
/// holds exactly four bytes per pixel.
#[verifier::external_body]
fn decode_image_bytes(data: &[u8]) -> (r: Result<(u32, u32, Vec<u8>), WszError>)
    ensures
        match r {
            Ok(d) => {
                &&& image_decode(data@) == Some((d.0, d.1, d.2@))
                &&& d.2@.len() == 4 * (d.0 * d.1)
            },
            Err(e) => {
                &&& image_decode(data@) is None
                &&& (e matches WszError::ImageError(_) || e matches WszError::Io(_))
            },
        },
{
    let cursor = std::io::Cursor::new(data);
    let reader = image::ImageReader::new(cursor)
        .with_guessed_format()
        .map_err(|e| WszError::Io(e.to_string()))?;
    let img = reader.decode().map_err(|e| WszError::ImageError(e.to_string()))?;
    let rgba = img.to_rgba8();
    let width = rgba.width();
    let height = rgba.height();
    Ok((width, height, rgba.into_raw()))
}

/// `img` is the raster the codec decodes from `data`.
pub open spec fn is_decoded_raster(data: Seq<u8>, img: Raster) -> bool {
    &&& image_decode(data) is Some
    &&& img.wf()
    &&& img.width_spec() == image_decode(data).unwrap().0
    &&& img.height_spec() == image_decode(data).unwrap().1
    &&& forall|x: int, y: int|
        0 <= x < img.width_spec() && 0 <= y < img.height_spec()
        ==> img.pix(x, y) == ({
            let raw = image_decode(data).unwrap().2;
            let w = image_decode(data).unwrap().0;
            RgbaColor {
                r: raw[4 * (y * w + x)],
                g: raw[4 * (y * w + x) + 1],
                b: raw[4 * (y * w + x) + 2],
                a: raw[4 * (y * w + x) + 3],
            }
        })
}

/// Decodes image bytes into a raster.
pub fn decode_raster(data: &[u8]) -> (r: Result<Raster, WszError>)
    ensures
        match r {
            Ok(img) => is_decoded_raster(data@, img),
            Err(e) => {
                &&& image_decode(data@) is None
                &&& (e matches WszError::ImageError(_) || e matches WszError::Io(_))
            },
        },
{
    let decoded = match decode_image_bytes(data) {
        Ok(d) => d,
        Err(e) => {
            return Err(e);
        },
    };
    let (width, height, raw) = decoded;
    match Raster::from_rgba_bytes(width, height, &raw) {
        Some(img) => Ok(img),
        None => {
            proof {
                assert(false);
            }
            Err(WszError::ImageError(String::new()))
        },
    }
}

} // verus!
