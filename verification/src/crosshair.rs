//! The crosshair drawn in the middle of the screen.
use vstd::prelude::*;

verus! {

/// The width, the height and the RGBA8 pixels (row by row, four bytes a
/// pixel) that the `image` crate decodes from the PNG file bytes `png`;
/// `None` when it cannot decode them.
pub uninterp spec fn spec_decode_png_rgba8(png: Seq<u8>) -> Option<(u32, u32, Seq<u8>)>;

/// Decodes PNG file bytes with `image::load_from_memory_with_format` (the
/// decoder and limits that `ImageReader::open(..).decode()` uses for a
/// ".png" file) and converts the picture with `DynamicImage::to_rgba8`,
/// taking its `dimensions` and `into_raw` pixels. The contract claims that
/// the outcome is a function of the bytes alone and that, whatever the
/// PNG's colour type, the pixels come four bytes each: `to_rgba8` builds an
/// `RgbaImage` of exactly `width * height` pixels. What that function is, the
/// PNG format and each colour type's conversion, is left unsaid.
#[verifier::external_body]
pub(crate) fn decode_png_rgba8(png: &[u8]) -> (r: Option<(u32, u32, Vec<u8>)>)
    ensures
        r is Some <==> spec_decode_png_rgba8(png@) is Some,
        r matches Some((w, h, px)) ==> spec_decode_png_rgba8(png@) == Some((w, h, px@)),
        r matches Some((w, h, px)) ==> px@.len() == 4 * w * h,
{
    match image::load_from_memory_with_format(png, image::ImageFormat::Png) {
        Ok(img) => {
            let rgba = img.to_rgba8();
            let (w, h) = rgba.dimensions();
            Some((w, h, rgba.into_raw()))
        },
        Err(_) => None,
    }
}

/// The width and height at which the crosshair is drawn, in pixels.
pub const CROSSHAIR_SIZE: u32 = 16;

/// The RGBA8 pixels of the crosshair, decoded from the bytes of its PNG
/// file, four bytes for each of its width times height pixels; `None` when
/// they do not decode.
pub fn decode_crosshair(png: &[u8]) -> (r: Option<Vec<u8>>)
    ensures
        match spec_decode_png_rgba8(png@) {
            Some((w, h, px)) => r matches Some(v) && v@ == px && v@.len() == 4 * w * h,
            None => r is None,
        },
{
    match decode_png_rgba8(png) {
        Some((_w, _h, px)) => Some(px),
        None => None,
    }
}

} // verus!
