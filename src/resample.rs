use vstd::prelude::*;
use crate::buffer::{colours_among, lemma_drawn_from_transitive, pixel_at, pixel_in, pixels_drawn_from, PixelBuffer};
use crate::colour::Rgb;
use crate::err::Error;
use crate::grid::valid_grid;

verus! {

/// The bytes of a `width` by `height` RGB picture resized to `new_width` by
/// `new_height` with nearest-neighbour sampling, as the image library
/// computes it.
pub uninterp spec fn nearest_resized(data: Seq<u8>, width: u32, height: u32, new_width: u32, new_height: u32) -> Seq<u8>;

/// Relies on `image::imageops::resize` with `FilterType::Nearest`: the
/// result has exactly the requested size, and each of its pixels is a copy
/// of one pixel of the source.
#[verifier::external_body]
fn resize_nearest(buffer: &PixelBuffer, new_width: u32, new_height: u32) -> (r: PixelBuffer)
    requires
        buffer.wf(),
        buffer.width >= 1,
        buffer.height >= 1,
        new_width >= 1,
        new_height >= 1,
        3 * (new_width as int) * (new_height as int) <= usize::MAX,
    ensures
        r.width == new_width,
        r.height == new_height,
        r.wf(),
        r.data@ == nearest_resized(buffer.data@, buffer.width, buffer.height, new_width, new_height),
        pixels_drawn_from(r.data@, r.num_pixels(), buffer.data@, buffer.num_pixels()),
{
    let source: image::RgbImage = image::ImageBuffer::from_raw(buffer.width, buffer.height, buffer.data.clone()).unwrap();
    let resized = image::imageops::resize(&source, new_width, new_height, image::imageops::FilterType::Nearest);
    PixelBuffer { width: new_width, height: new_height, data: resized.into_raw() }
}

/// The mosaic made from a picture: shrunk to one pixel per grid cell, then
/// grown back to its own size, both times by nearest-neighbour sampling.
pub open spec fn mosaic(data: Seq<u8>, width: u32, height: u32, grid_width: u32, grid_height: u32) -> Seq<u8> {
    nearest_resized(
        nearest_resized(data, width, height, grid_width, grid_height),
        grid_width,
        grid_height,
        width,
        height,
    )
}

/// Turns `buffer` into a mosaic of `grid_width` by `grid_height` uniform
/// cells of the picture's own size: nearest-neighbour down to one pixel
/// per cell, then nearest-neighbour back up.
///
/// The picture is expected to be blurred beforehand, so that each cell
/// takes a representative colour rather than a stray detail.
///
/// A grid dimension of zero, or larger than the picture, is refused.
pub fn resample_down_up(buffer: &PixelBuffer, grid_width: u32, grid_height: u32) -> (r: Result<PixelBuffer, Error>)
    requires
        buffer.wf(),
    ensures
        r is Ok <==> valid_grid(buffer.width as int, buffer.height as int, grid_width as int, grid_height as int),
        r is Err ==> r == Err::<PixelBuffer, Error>(Error::InvalidDimensions),
        r is Ok ==> {
            let out = r->Ok_0;
            &&& out.width == buffer.width
            &&& out.height == buffer.height
            &&& out.wf()
            &&& out.data@ == mosaic(buffer.data@, buffer.width, buffer.height, grid_width, grid_height)
            &&& pixels_drawn_from(out.data@, out.num_pixels(), buffer.data@, buffer.num_pixels())
            &&& exists|cells: Seq<Rgb>|
                #![trigger cells.len()]
                cells.len() == (grid_width as int) * (grid_height as int) && colours_among(
                    out.data@,
                    out.num_pixels(),
                    cells,
                )
        },
{
    if grid_width == 0 || grid_height == 0 || grid_width > buffer.width || grid_height > buffer.height {
        return Err(Error::InvalidDimensions);
    }
    let n: usize = buffer.data.len();
    proof {
        let gw = grid_width as int;
        let gh = grid_height as int;
        let w = buffer.width as int;
        let h = buffer.height as int;
        assert(3 * gw * gh <= 3 * w * h) by (nonlinear_arith)
            requires 1 <= gw <= w, 1 <= gh <= h;
        assert(3 * w * h == 3 * (w * h)) by (nonlinear_arith);
        assert(3 * gw * gh <= n);
    }
    let small = resize_nearest(buffer, grid_width, grid_height);
    let big = resize_nearest(&small, buffer.width, buffer.height);
    proof {
        let m = small.num_pixels();
        assert(pixels_drawn_from(big.data@, big.num_pixels(), small.data@, m));
        assert(pixels_drawn_from(small.data@, m, buffer.data@, buffer.num_pixels()));
        lemma_drawn_from_transitive(big.data@, big.num_pixels(), small.data@, m, buffer.data@, buffer.num_pixels());
        let cells = Seq::new(m as nat, |j: int| pixel_at(small.data@, j));
        assert forall|k: int| 0 <= k < big.num_pixels() implies cells.contains(#[trigger] pixel_at(big.data@, k)) by {
            assert(pixel_in(pixel_at(big.data@, k), small.data@, m));
            let j = choose|j: int| 0 <= j < m && pixel_at(small.data@, j) == pixel_at(big.data@, k);
            assert(cells[j] == pixel_at(big.data@, k));
        }
        assert(cells.len() == (grid_width as int) * (grid_height as int));
        assert(colours_among(big.data@, big.num_pixels(), cells));
        assert(pixels_drawn_from(big.data@, big.num_pixels(), buffer.data@, buffer.num_pixels()));
    }
    Ok(big)
}

} // verus!
