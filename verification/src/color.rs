use vstd::prelude::*;

verus! {

/// One quantized pixel: an 8-bit red, green and blue channel, the final
/// form every pixel takes after sampling, averaging and gamma correction.
#[derive(Clone, Copy, Debug, PartialEq, Eq, Structural)]
pub struct Rgb {
    pub r: u8,
    pub g: u8,
    pub b: u8,
}

impl Rgb {
    /// Build a pixel from its three channels, red first.
    pub fn with_values(r: u8, g: u8, b: u8) -> (c: Rgb)
        ensures
            c == (Rgb { r, g, b }),
    {
        Rgb { r, g, b }
    }
}

/// The three bytes of one pixel, red first: the unit of the row-major
/// byte buffer handed to an image encoder.
pub open spec fn spec_pixel_bytes(c: Rgb) -> Seq<u8> {
    seq![c.r, c.g, c.b]
}

/// The byte stream of a whole pixel buffer: each pixel's three bytes, in
/// pixel order.
pub open spec fn spec_color_bytes(pixels: Seq<Rgb>) -> Seq<u8>
    decreases pixels.len(),
{
    if pixels.len() == 0 {
        Seq::empty()
    } else {
        spec_color_bytes(pixels.drop_last()) + spec_pixel_bytes(pixels.last())
    }
}

/// The byte stream is three bytes long per pixel, and the bytes of pixel
/// `i` stand at offsets `3 * i` to `3 * i + 3`.
pub proof fn lemma_color_bytes_layout(pixels: Seq<Rgb>)
    ensures
        spec_color_bytes(pixels).len() == 3 * pixels.len(),
        forall|i: int|
            0 <= i < pixels.len() ==> #[trigger] spec_color_bytes(pixels).subrange(3 * i, 3 * i + 3)
                == spec_pixel_bytes(pixels[i]),
    decreases pixels.len(),
{
    if pixels.len() > 0 {
        lemma_color_bytes_layout(pixels.drop_last());
        let whole = spec_color_bytes(pixels);
        let front = spec_color_bytes(pixels.drop_last());
        assert forall|i: int|
            0 <= i < pixels.len() implies #[trigger] whole.subrange(3 * i, 3 * i + 3)
            == spec_pixel_bytes(pixels[i]) by {
            if i < pixels.len() - 1 {
                assert(whole.subrange(3 * i, 3 * i + 3) =~= front.subrange(3 * i, 3 * i + 3));
                assert(pixels.drop_last()[i] == pixels[i]);
            } else {
                assert(whole.subrange(3 * i, 3 * i + 3) =~= spec_pixel_bytes(pixels.last()));
            }
        }
    }
}

/// Flatten pixels into the encoder's byte layout: three bytes per pixel,
/// red, green, blue, in pixel order.
pub fn color_bytes(pixels: &Vec<Rgb>) -> (bytes: Vec<u8>)
    ensures
        bytes@ == spec_color_bytes(pixels@),
        bytes@.len() == 3 * pixels@.len(),
        forall|i: int|
            0 <= i < pixels@.len() ==> #[trigger] bytes@.subrange(3 * i, 3 * i + 3)
                == spec_pixel_bytes(pixels@[i]),
{
    let mut bytes: Vec<u8> = Vec::new();
    let mut i: usize = 0;
    while i < pixels.len()
        invariant
            i <= pixels@.len(),
            bytes@.len() == 3 * i,
            bytes@ == spec_color_bytes(pixels@.take(i as int)),
        decreases pixels@.len() - i,
    {
        let c = pixels[i];
        bytes.push(c.r);
        bytes.push(c.g);
        bytes.push(c.b);
        proof {
            assert(pixels@.take(i + 1).drop_last() =~= pixels@.take(i as int));
            assert(pixels@.take(i + 1).last() == pixels@[i as int]);
            assert(bytes@ =~= spec_color_bytes(pixels@.take(i + 1)));
        }
        i = i + 1;
    }
    proof {
        assert(pixels@.take(i as int) =~= pixels@);
        lemma_color_bytes_layout(pixels@);
    }
    bytes
}

/// Join independently rendered rows, top row first, into one row-major
/// buffer: the pixel of row `r`, column `c` stands at index `r * width + c`.
pub fn assemble_rows(rows: &Vec<Vec<Rgb>>, width: usize) -> (pixels: Vec<Rgb>)
    requires
        forall|r: int| 0 <= r < rows@.len() ==> #[trigger] rows@[r]@.len() == width,
        rows@.len() * width <= usize::MAX,
    ensures
        pixels@.len() == rows@.len() * width,
        forall|r: int, c: int|
            0 <= r < rows@.len() && 0 <= c < width ==> #[trigger] pixels@[r * width + c]
                == rows@[r]@[c],
{
    let mut pixels: Vec<Rgb> = Vec::new();
    let mut r: usize = 0;
    while r < rows.len()
        invariant
            r <= rows@.len(),
            forall|k: int| 0 <= k < rows@.len() ==> #[trigger] rows@[k]@.len() == width,
            rows@.len() * width <= usize::MAX,
            pixels@.len() == r * width,
            forall|k: int, c: int|
                0 <= k < r && 0 <= c < width ==> #[trigger] pixels@[k * width + c] == rows@[k]@[c],
        decreases rows@.len() - r,
    {
        proof {
            assert((r + 1) * width <= rows@.len() * width) by (nonlinear_arith)
                requires
                    r + 1 <= rows@.len(),
                    width >= 0,
            ;
            assert((r + 1) * width == r * width + width) by (nonlinear_arith);
        }
        let row = &rows[r];
        let mut c: usize = 0;
        while c < row.len()
            invariant
                row == &rows@[r as int],
                r < rows@.len(),
                forall|k: int| 0 <= k < rows@.len() ==> #[trigger] rows@[k]@.len() == width,
                c <= width,
                r * width + width <= usize::MAX,
                pixels@.len() == r * width + c,
                forall|k: int, cc: int|
                    0 <= k < r && 0 <= cc < width ==> #[trigger] pixels@[k * width + cc]
                        == rows@[k]@[cc],
                forall|cc: int|
                    0 <= cc < c ==> #[trigger] pixels@[r * width + cc] == rows@[r as int]@[cc],
            decreases row@.len() - c,
        {
            pixels.push(row[c]);
            proof {
                assert forall|k: int, cc: int|
                    0 <= k < r && 0 <= cc < width implies #[trigger] pixels@[k * width + cc]
                    == rows@[k]@[cc] by {
                    assert(k * width + cc < r * width) by (nonlinear_arith)
                        requires
                            k < r,
                            0 <= cc < width,
                            k >= 0,
                    ;
                }
            }
            c = c + 1;
        }
        r = r + 1;
    }
    pixels
}

} // verus!
