use vstd::prelude::*;
use vstd::slice::{slice_subrange, slice_to_vec};
use crate::buffer::PixelBuffer;
use crate::colour::Rgb;
use crate::err::Error;
use crate::quantize::{quantize, quantized};

verus! {

/// The representative colours that the palette extractor finds in raw RGB
/// bytes, in the order it ranks them.
pub uninterp spec fn extracted_palette(pixels: Seq<u8>) -> Seq<Rgb>;

/// The largest picture, in pixels, whose palette can be extracted. The
/// extractor samples every fifth pixel and adds up to 252 per sampled pixel
/// in a `u32` when it averages a colour box; past this size that sum could
/// overflow.
pub const MAX_PALETTE_PIXELS: usize = 80000000;

/// Relies on `palette_extract::get_palette_with_options`, called with RGB
/// encoding, the default quality and colour count and no pixel filter: the
/// palette is a function of the bytes alone, and it is never empty (the
/// extractor's queue of colour boxes starts with one box and no step
/// removes a box without putting one back). The extractor panics on a
/// picture without pixels, and its colour sums can overflow on one larger
/// than `MAX_PALETTE_PIXELS`; `requires` leaves both out.
#[verifier::external_body]
fn extract_palette(pixels: &[u8]) -> (r: Vec<Rgb>)
    requires
        3 <= pixels@.len() <= 3 * MAX_PALETTE_PIXELS,
    ensures
        r@ == extracted_palette(pixels@),
        r@.len() >= 1,
{
    palette_extract::get_palette_with_options(
        pixels,
        palette_extract::PixelEncoding::Rgb,
        palette_extract::Quality::default(),
        palette_extract::MaxColors::default(),
        palette_extract::PixelFilter::None,
    ).iter().map(|c| Rgb { r: c.r, g: c.g, b: c.b }).collect()
}

/// Reduces `image` to `colours` colours: the first `colours` entries of the
/// palette extracted from the picture, each pixel taking the nearest one.
///
/// Asking for no colour, or for more than the extractor found, fails with
/// `PaletteTooSmall`; one colour is always found.
pub fn reduce_colours(image: &PixelBuffer, colours: u8) -> (r: Result<PixelBuffer, Error>)
    requires
        image.wf(),
        1 <= image.num_pixels() <= MAX_PALETTE_PIXELS,
    ensures
        r is Ok <==> 1 <= colours <= extracted_palette(image.data@).len(),
        colours == 1 ==> r is Ok,
        r is Err ==> r == Err::<PixelBuffer, Error>(Error::PaletteTooSmall),
        r is Ok ==> {
            let out = r->Ok_0;
            &&& out.width == image.width
            &&& out.height == image.height
            &&& out.wf()
            &&& out.data@ == quantized(image.data@, extracted_palette(image.data@).subrange(0, colours as int))
        },
{
    let palette = extract_palette(image.data.as_slice());
    if colours == 0 || colours as usize > palette.len() {
        return Err(Error::PaletteTooSmall);
    }
    let chosen = slice_subrange(palette.as_slice(), 0, colours as usize);
    let mut out = PixelBuffer { width: image.width, height: image.height, data: slice_to_vec(image.data.as_slice()) };
    match quantize(&mut out, chosen) {
        Ok(()) => Ok(out),
        Err(e) => Err(e),
    }
}

} // verus!
