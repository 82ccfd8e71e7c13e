use vstd::prelude::*;
use crate::buffer::{pixel_at, pixel_in, PixelBuffer};
use crate::colour::{nearest, Rgb};
use crate::err::Error;
use crate::grid::{add_grid_to_image, gridded, lemma_gridded_pixel, on_grid, valid_grid};
use crate::palette::{extracted_palette, reduce_colours, MAX_PALETTE_PIXELS};
use crate::quantize::{lemma_quantized_pixel, quantized, quantized_from};
use crate::resample::{mosaic, resample_down_up};

verus! {

/// The finished pattern: the mosaic of the picture, reduced to the first
/// `colours` colours of the palette extracted from that mosaic, with the grid
/// drawn over it.
pub open spec fn pattern(data: Seq<u8>, width: u32, height: u32, grid_width: u32, grid_height: u32, colours: u8) -> Seq<u8> {
    let m = mosaic(data, width, height, grid_width, grid_height);
    gridded(
        quantized(m, extracted_palette(m).subrange(0, colours as int)),
        width as int,
        height as int,
        grid_width as int,
        grid_height as int,
    )
}

/// Makes the pattern chart from a (blurred) picture: mosaic of
/// `output_width` by `output_height` cells, colour reduction to `colours`
/// colours taken from the mosaic, then the grid. The result has the size
/// of the picture.
///
/// Stops at the first failing stage: `InvalidDimensions` for a grid that
/// does not fit the picture, `PaletteTooSmall` when the mosaic yields fewer
/// than `colours` colours or `colours` is zero.
pub fn transform_image(blurred: &PixelBuffer, output_width: u32, output_height: u32, colours: u8) -> (r: Result<PixelBuffer, Error>)
    requires
        blurred.wf(),
        blurred.num_pixels() <= MAX_PALETTE_PIXELS,
    ensures
        !valid_grid(blurred.width as int, blurred.height as int, output_width as int, output_height as int)
            ==> r == Err::<PixelBuffer, Error>(Error::InvalidDimensions),
        valid_grid(blurred.width as int, blurred.height as int, output_width as int, output_height as int) ==> {
            let m = mosaic(blurred.data@, blurred.width, blurred.height, output_width, output_height);
            &&& (r is Ok <==> 1 <= colours <= extracted_palette(m).len())
            &&& (r is Err ==> r == Err::<PixelBuffer, Error>(Error::PaletteTooSmall))
            &&& (colours == 1 ==> r is Ok)
        },
        r is Ok ==> {
            let out = r->Ok_0;
            &&& out.width == blurred.width
            &&& out.height == blurred.height
            &&& out.wf()
            &&& out.data@ == pattern(blurred.data@, blurred.width, blurred.height, output_width, output_height, colours)
            &&& forall|k: int|
                #![trigger pixel_at(out.data@, k)]
                0 <= k < out.num_pixels() ==> if on_grid(
                    k % (blurred.width as int),
                    k / (blurred.width as int),
                    blurred.width as int,
                    blurred.height as int,
                    output_width as int,
                    output_height as int,
                ) {
                    pixel_at(out.data@, k) == Rgb { r: 0, g: 0, b: 0 }
                } else {
                    quantized_from(
                        pixel_at(out.data@, k),
                        blurred.data@,
                        blurred.num_pixels(),
                        extracted_palette(
                            mosaic(blurred.data@, blurred.width, blurred.height, output_width, output_height),
                        ).subrange(0, colours as int),
                    )
                }
        },
{
    let mosaic_image = match resample_down_up(blurred, output_width, output_height) {
        Ok(m) => m,
        Err(e) => {
            return Err(e);
        },
    };
    proof {
        let w = mosaic_image.width as int;
        let h = mosaic_image.height as int;
        assert(w * h >= 1) by (nonlinear_arith)
            requires w >= 1, h >= 1;
    }
    let mut reduced = match reduce_colours(&mosaic_image, colours) {
        Ok(q) => q,
        Err(e) => {
            return Err(e);
        },
    };
    let ghost quantized_data = reduced.data@;
    match add_grid_to_image(&mut reduced, output_width, output_height) {
        Ok(()) => {
            proof {
                let w = blurred.width as int;
                let h = blurred.height as int;
                let palette = extracted_palette(mosaic_image.data@).subrange(0, colours as int);
                let n = reduced.num_pixels();
                assert forall|k: int| #![trigger pixel_at(reduced.data@, k)] 0 <= k < n implies if on_grid(
                    k % w,
                    k / w,
                    w,
                    h,
                    output_width as int,
                    output_height as int,
                ) {
                    pixel_at(reduced.data@, k) == Rgb { r: 0, g: 0, b: 0 }
                } else {
                    quantized_from(pixel_at(reduced.data@, k), blurred.data@, blurred.num_pixels(), palette)
                } by {
                    lemma_gridded_pixel(quantized_data, w, h, output_width as int, output_height as int, k);
                    if !on_grid(k % w, k / w, w, h, output_width as int, output_height as int) {
                        lemma_quantized_pixel(mosaic_image.data@, palette, k);
                        assert(pixel_in(pixel_at(mosaic_image.data@, k), blurred.data@, blurred.num_pixels()));
                        let j = choose|j: int| 0 <= j < blurred.num_pixels() && pixel_at(blurred.data@, j) == pixel_at(mosaic_image.data@, k);
                        assert(pixel_at(reduced.data@, k) == nearest(pixel_at(blurred.data@, j), palette));
                    }
                }
            }
            Ok(reduced)
        },
        Err(e) => Err(e),
    }
}

} // verus!
