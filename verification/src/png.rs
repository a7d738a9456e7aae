use crate::color::{color_bytes, spec_color_bytes, Rgb};
use vstd::prelude::*;

verus! {

/// What the `image` crate's PNG encoder produces for a raw 8-bit RGB
/// buffer of the given dimensions, under the encoder's fixed default
/// compression and filter: a function of the buffer and the dimensions
/// alone.
pub uninterp spec fn png_encoding(data: Seq<u8>, width: u32, height: u32) -> Seq<u8>;

/// The PNG stream could not be produced.
#[derive(Clone, Copy, Debug, PartialEq, Eq, Structural)]
pub struct PngError;

#[verifier::external_type_specification]
#[verifier::external_body]
pub struct ExImageError(image::error::ImageError);

/// Relies on `image::png::PngEncoder::encode` with `ColorType::Rgb8`: into
/// a fresh buffer it writes the PNG encoding of `data`, read as a `width`
/// by `height` image at three bytes per pixel.
#[verifier::external_body]
fn encode_png_rgb8(data: &Vec<u8>, width: u32, height: u32) -> (r: Result<
    Vec<u8>,
    image::error::ImageError,
>)
    requires
        data@.len() == 3 * width * height,
    ensures
        r matches Ok(v) ==> v@ == png_encoding(data@, width, height),
{
    let mut out: Vec<u8> = Vec::new();
    let encoder = image::png::PngEncoder::new(&mut out);
    match encoder.encode(data.as_slice(), width, height, image::ColorType::Rgb8) {
        Ok(()) => Ok(out),
        Err(e) => Err(e),
    }
}

/// Encode a row-major pixel buffer as a PNG byte stream, the bytes the
/// renderer hands to whatever writes the file.
pub fn write_image_png(pixels: &Vec<Rgb>, width: usize, height: usize) -> (r: Result<
    Vec<u8>,
    PngError,
>)
    requires
        pixels@.len() == width * height,
        width <= u32::MAX,
        height <= u32::MAX,
        3 * width * height <= usize::MAX,
    ensures
        r matches Ok(v) ==> v@ == png_encoding(
            spec_color_bytes(pixels@),
            width as u32,
            height as u32,
        ),
{
    let bytes = color_bytes(pixels);
    proof {
        assert(3 * ((width as int) * (height as int)) == 3 * (width as int) * (height as int))
            by (nonlinear_arith);
    }
    match encode_png_rgb8(&bytes, width as u32, height as u32) {
        Ok(v) => Ok(v),
        Err(_) => Err(PngError),
    }
}

} // verus!
