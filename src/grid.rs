use vstd::prelude::*;
use vstd::arithmetic::div_mod::{lemma_div_non_zero, lemma_fundamental_div_mod, lemma_fundamental_div_mod_converse};
use vstd::arithmetic::mul::lemma_mul_inequality;
use crate::buffer::{pixel_at, PixelBuffer};
use crate::colour::Rgb;
use crate::err::Error;

verus! {

/// A grid of `grid_width` by `grid_height` cells fits a picture of
/// `width` by `height` pixels: every cell is at least one pixel wide and high.
pub open spec fn valid_grid(width: int, height: int, grid_width: int, grid_height: int) -> bool {
    1 <= grid_width <= width && 1 <= grid_height <= height
}

/// `v` is one of the `count` line offsets `0, pitch, 2 * pitch, ...,
/// (count - 1) * pitch`.
pub open spec fn is_line_offset(v: int, pitch: int, count: int) -> bool {
    v % pitch == 0 && v / pitch < count
}

/// The line offsets are exactly the first `count` multiples of the pitch:
/// a grid of `count` cells has `count` lines each way, the first at 0 and
/// the last at `(count - 1) * pitch`.
pub proof fn lemma_line_offsets_are_multiples(v: int, pitch: int, count: int)
    requires
        pitch >= 1,
        v >= 0,
    ensures
        is_line_offset(v, pitch, count) <==> exists|i: int| 0 <= i < count && v == #[trigger] (i * pitch),
{
    if is_line_offset(v, pitch, count) {
        let i = v / pitch;
        lemma_fundamental_div_mod(v, pitch);
        assert(v == i * pitch) by (nonlinear_arith)
            requires v == pitch * (v / pitch) + v % pitch, v % pitch == 0, i == v / pitch;
        assert(0 <= i < count && v == i * pitch);
    }
    if exists|i: int| 0 <= i < count && v == #[trigger] (i * pitch) {
        let i = choose|i: int| 0 <= i < count && v == #[trigger] (i * pitch);
        lemma_fundamental_div_mod_converse(v, pitch, i, 0);
    }
}

/// The pixel at column `x`, row `y` lies on one of the grid's lines. The
/// cell pitch is the picture's size divided by the cell count, rounded down.
pub open spec fn on_grid(x: int, y: int, width: int, height: int, grid_width: int, grid_height: int) -> bool {
    is_line_offset(x, width / grid_width, grid_width) || is_line_offset(y, height / grid_height, grid_height)
}

/// The bytes of a `width`-pixel-wide picture after the grid's pixels have
/// been painted black.
pub open spec fn gridded(data: Seq<u8>, width: int, height: int, grid_width: int, grid_height: int) -> Seq<u8> {
    Seq::new(
        data.len(),
        |i: int|
            if on_grid((i / 3) % width, (i / 3) / width, width, height, grid_width, grid_height) {
                0u8
            } else {
                data[i]
            },
    )
}

/// Pixel `k` of a gridded picture is black on a grid line and unchanged
/// elsewhere.
pub proof fn lemma_gridded_pixel(data: Seq<u8>, width: int, height: int, grid_width: int, grid_height: int, k: int)
    requires
        data.len() % 3 == 0,
        0 <= k < data.len() / 3,
    ensures
        gridded(data, width, height, grid_width, grid_height).len() == data.len(),
        pixel_at(gridded(data, width, height, grid_width, grid_height), k) == if on_grid(
            k % width,
            k / width,
            width,
            height,
            grid_width,
            grid_height,
        ) {
            Rgb { r: 0, g: 0, b: 0 }
        } else {
            pixel_at(data, k)
        },
{
    let g = gridded(data, width, height, grid_width, grid_height);
    assert((3 * k) / 3 == k && (3 * k + 1) / 3 == k && (3 * k + 2) / 3 == k);
    assert(g[3 * k] == if on_grid(k % width, k / width, width, height, grid_width, grid_height) { 0u8 } else { data[3 * k] });
    assert(g[3 * k + 1] == if on_grid(k % width, k / width, width, height, grid_width, grid_height) { 0u8 } else { data[3 * k + 1] });
    assert(g[3 * k + 2] == if on_grid(k % width, k / width, width, height, grid_width, grid_height) { 0u8 } else { data[3 * k + 2] });
}

proof fn lemma_row_col(x: int, y: int, width: int)
    requires
        0 <= x < width,
        0 <= y,
    ensures
        (y * width + x) % width == x,
        (y * width + x) / width == y,
{
    lemma_fundamental_div_mod_converse(y * width + x, width, y, x);
}

/// Draws one-pixel black lines over `image` that mark a grid of
/// `grid_width` by `grid_height` cells: vertical lines at every multiple of
/// the cell width, horizontal lines at every multiple of the cell height,
/// the first of each on the picture's border.
///
/// A grid dimension of zero, or larger than the picture, is refused and the
/// picture is left as it was.
pub fn add_grid_to_image(image: &mut PixelBuffer, grid_width: u32, grid_height: u32) -> (r: Result<(), Error>)
    requires
        old(image).wf(),
    ensures
        final(image).width == old(image).width,
        final(image).height == old(image).height,
        r is Ok <==> valid_grid(old(image).width as int, old(image).height as int, grid_width as int, grid_height as int),
        r is Ok ==> final(image).data@ == gridded(
            old(image).data@,
            old(image).width as int,
            old(image).height as int,
            grid_width as int,
            grid_height as int,
        ),
        r is Err ==> r == Err::<(), Error>(Error::InvalidDimensions) && *final(image) == *old(image),
{
    let width = image.width;
    let height = image.height;
    if grid_width == 0 || grid_height == 0 || grid_width > width || grid_height > height {
        return Err(Error::InvalidDimensions);
    }
    let cell_w = width / grid_width;
    let cell_h = height / grid_height;
    let ghost before = image.data@;
    let ghost target = gridded(before, width as int, height as int, grid_width as int, grid_height as int);
    let ghost w = width as int;
    let ghost h = height as int;
    proof {
        lemma_div_non_zero(w, grid_width as int);
        lemma_div_non_zero(h, grid_height as int);
    }
    let n: usize = image.data.len();
    let mut i: usize = 0;
    let mut y: u32 = 0;
    while y < height
        invariant
            image.width == width,
            image.height == height,
            before.len() == 3 * (w * h),
            image.data@.len() == before.len(),
            n == before.len(),
            target == gridded(before, w, h, grid_width as int, grid_height as int),
            cell_w == w / (grid_width as int),
            cell_h == h / (grid_height as int),
            w == width as int,
            h == height as int,
            cell_w >= 1,
            cell_h >= 1,
            1 <= grid_width <= width,
            1 <= grid_height <= height,
            y <= height,
            i == 3 * (y * w),
            forall|j: int| 0 <= j < i ==> image.data@[j] == #[trigger] target[j],
            forall|j: int| i <= j < before.len() ==> image.data@[j] == #[trigger] before[j],
        decreases height - y,
    {
        let row_line = y % cell_h == 0 && y / cell_h < grid_height;
        let mut x: u32 = 0;
        while x < width
            invariant
                image.width == width,
                image.height == height,
                before.len() == 3 * (w * h),
                image.data@.len() == before.len(),
            n == before.len(),
            target == gridded(before, w, h, grid_width as int, grid_height as int),
                cell_w == w / (grid_width as int),
                cell_h == h / (grid_height as int),
                w == width as int,
                h == height as int,
                cell_w >= 1,
                cell_h >= 1,
                1 <= grid_width <= width,
                1 <= grid_height <= height,
                y < height,
                x <= width,
                row_line == is_line_offset(y as int, cell_h as int, grid_height as int),
                i == 3 * (y * w + x),
                forall|j: int| 0 <= j < i ==> image.data@[j] == #[trigger] target[j],
                forall|j: int| i <= j < before.len() ==> image.data@[j] == #[trigger] before[j],
            decreases width - x,
        {
            proof {
                lemma_row_col(x as int, y as int, w);
                lemma_mul_inequality(y as int + 1, h, w);
                assert(y * w + w == (y + 1) * w) by (nonlinear_arith);
                assert(y * w + x < h * w) by (nonlinear_arith)
                    requires x < w, y < h, y * w + w == (y + 1) * w, (y + 1) * w <= h * w;
                assert(h * w == w * h) by (nonlinear_arith);
                assert(i + 3 <= image.data@.len());
            }
            let k: usize = i;
            let ghost on = on_grid(x as int, y as int, w, h, grid_width as int, grid_height as int);
            proof {
                assert forall|j: int| k <= j < k + 3 implies #[trigger] target[j] == (if on { 0u8 } else { before[j] }) by {
                    assert(j / 3 == y * w + x);
                }
            }
            if row_line || (x % cell_w == 0 && x / cell_w < grid_width) {
                image.data.set(k, 0);
                image.data.set(k + 1, 0);
                image.data.set(k + 2, 0);
            }
            i = k + 3;
            x = x + 1;
        }
        proof {
            assert((y + 1) * w == y * w + w) by (nonlinear_arith);
        }
        y = y + 1;
    }
    proof {
        assert(h * w == w * h) by (nonlinear_arith);
    }
    assert(image.data@ =~= target);
    Ok(())
}

} // verus!
