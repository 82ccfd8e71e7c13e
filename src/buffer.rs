use vstd::prelude::*;
use crate::colour::Rgb;

verus! {

/// A picture of `width` by `height` pixels, stored row by row, three bytes
/// (red, green, blue) per pixel.
#[derive(Clone, Debug)]
pub struct PixelBuffer {
    pub width: u32,
    pub height: u32,
    pub data: Vec<u8>,
}

/// The colour of pixel number `k` in raw row-major RGB bytes.
pub open spec fn pixel_at(data: Seq<u8>, k: int) -> Rgb {
    Rgb { r: data[3 * k], g: data[3 * k + 1], b: data[3 * k + 2] }
}

/// Channel `c` (0 red, 1 green, 2 blue) of a colour.
pub open spec fn channel(p: Rgb, c: int) -> u8 {
    if c == 0 {
        p.r
    } else if c == 1 {
        p.g
    } else {
        p.b
    }
}

/// `p` is the colour of one of the first `m` pixels of `source`.
pub open spec fn pixel_in(p: Rgb, source: Seq<u8>, m: int) -> bool {
    exists|j: int| 0 <= j < m && pixel_at(source, j) == p
}

/// Each of the first `n` pixels of `data` is a copy of one of the first `m`
/// pixels of `source`.
pub open spec fn pixels_drawn_from(data: Seq<u8>, n: int, source: Seq<u8>, m: int) -> bool {
    forall|k: int| 0 <= k < n ==> pixel_in(#[trigger] pixel_at(data, k), source, m)
}

/// Copying is transitive: pixels copied from pixels that were themselves
/// copied from `c` are copies of pixels of `c`.
pub proof fn lemma_drawn_from_transitive(a: Seq<u8>, na: int, b: Seq<u8>, nb: int, c: Seq<u8>, nc: int)
    requires
        pixels_drawn_from(a, na, b, nb),
        pixels_drawn_from(b, nb, c, nc),
    ensures
        pixels_drawn_from(a, na, c, nc),
{
    assert forall|k: int| 0 <= k < na implies pixel_in(#[trigger] pixel_at(a, k), c, nc) by {
        assert(pixel_in(pixel_at(a, k), b, nb));
        let j = choose|j: int| 0 <= j < nb && pixel_at(b, j) == pixel_at(a, k);
        assert(pixel_in(pixel_at(b, j), c, nc));
        let i = choose|i: int| 0 <= i < nc && pixel_at(c, i) == pixel_at(b, j);
        assert(pixel_at(c, i) == pixel_at(a, k));
    }
}

/// Each of the first `n` pixels of `data` has one of the colours of
/// `colours`.
pub open spec fn colours_among(data: Seq<u8>, n: int, colours: Seq<Rgb>) -> bool {
    forall|k: int| 0 <= k < n ==> colours.contains(#[trigger] pixel_at(data, k))
}

impl PixelBuffer {
    /// The byte vector holds exactly three bytes for each pixel.
    pub open spec fn wf(&self) -> bool {
        self.data@.len() == 3 * self.num_pixels()
    }

    /// The number of pixels.
    pub open spec fn num_pixels(&self) -> int {
        (self.width as int) * (self.height as int)
    }
}

} // verus!
