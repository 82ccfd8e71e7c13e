use vstd::prelude::*;
use vstd::arithmetic::div_mod::lemma_mod_multiples_basic;
use crate::buffer::{channel, colours_among, pixel_at, PixelBuffer};
use crate::err::Error;
use crate::colour::{lemma_nearest_exists, lemma_nearest_idempotent, lemma_nearest_of_member, nearest, set_closest_colour, Rgb};

verus! {

/// The bytes of a picture after every pixel has been replaced by its nearest
/// palette colour.
pub open spec fn quantized(data: Seq<u8>, palette: Seq<Rgb>) -> Seq<u8> {
    Seq::new(data.len(), |i: int| channel(nearest(pixel_at(data, i / 3), palette), i % 3))
}

/// `p` is the nearest palette colour to one of the first `m` pixels of
/// `source`.
pub open spec fn quantized_from(p: Rgb, source: Seq<u8>, m: int, palette: Seq<Rgb>) -> bool {
    exists|j: int| 0 <= j < m && nearest(pixel_at(source, j), palette) == p
}

/// Over a picture of one colour that the palette holds, every colour
/// quantized from it is that colour.
pub proof fn lemma_solid_source(p: Rgb, source: Seq<u8>, m: int, palette: Seq<Rgb>, c: Rgb)
    requires
        forall|j: int| 0 <= j < m ==> #[trigger] pixel_at(source, j) == c,
        palette.contains(c),
        quantized_from(p, source, m, palette),
    ensures
        p == c,
{
    let j = choose|j: int| 0 <= j < m && nearest(pixel_at(source, j), palette) == p;
    let i = choose|i: int| 0 <= i < palette.len() && palette[i] == c;
    lemma_nearest_of_member(c, palette, i);
}

/// Maps every pixel of `buffer` to its nearest colour in `palette`, the
/// earliest entry winning a tie.
///
/// An empty palette fails with `PaletteTooSmall` and leaves the picture as
/// it was.
pub fn quantize(buffer: &mut PixelBuffer, palette: &[Rgb]) -> (r: Result<(), Error>)
    requires
        old(buffer).wf(),
    ensures
        final(buffer).width == old(buffer).width,
        final(buffer).height == old(buffer).height,
        r is Ok <==> palette@.len() >= 1,
        r is Ok ==> final(buffer).data@ == quantized(old(buffer).data@, palette@),
        r is Err ==> r == Err::<(), Error>(Error::PaletteTooSmall) && *final(buffer) == *old(buffer),
{
    if palette.len() == 0 {
        return Err(Error::PaletteTooSmall);
    }
    let ghost before = buffer.data@;
    let n: usize = buffer.data.len();
    let mut i: usize = 0;
    proof {
        lemma_mod_multiples_basic(buffer.num_pixels(), 3);
    }
    while i < n
        invariant
            palette@.len() >= 1,
            n == before.len(),
            n % 3 == 0,
            i % 3 == 0,
            i <= n,
            buffer.width == old(buffer).width,
            buffer.height == old(buffer).height,
            buffer.data@.len() == n,
            forall|j: int| 0 <= j < i ==> buffer.data@[j] == #[trigger] quantized(before, palette@)[j],
            forall|j: int| i <= j < n ==> buffer.data@[j] == #[trigger] before[j],
        decreases n - i,
    {
        let mut p = Rgb { r: buffer.data[i], g: buffer.data[i + 1], b: buffer.data[i + 2] };
        assert(p == pixel_at(before, i as int / 3));
        set_closest_colour(&mut p, palette);
        buffer.data.set(i, p.r);
        buffer.data.set(i + 1, p.g);
        buffer.data.set(i + 2, p.b);
        i = i + 3;
    }
    assert(buffer.data@ =~= quantized(before, palette@));
    Ok(())
}

/// Pixel `k` of a quantized picture is the nearest palette colour to pixel
/// `k` of the original.
pub proof fn lemma_quantized_pixel(data: Seq<u8>, palette: Seq<Rgb>, k: int)
    requires
        data.len() % 3 == 0,
        0 <= k < data.len() / 3,
    ensures
        quantized(data, palette).len() == data.len(),
        pixel_at(quantized(data, palette), k) == nearest(pixel_at(data, k), palette),
{
    let q = quantized(data, palette);
    let c = nearest(pixel_at(data, k), palette);
    assert(q[3 * k] == c.r);
    assert(q[3 * k + 1] == c.g);
    assert(q[3 * k + 2] == c.b);
}

/// Quantizing a picture whose colours all come from the palette changes
/// nothing: quantizing twice gives the same picture as quantizing once.
pub proof fn lemma_quantize_idempotent(data: Seq<u8>, palette: Seq<Rgb>)
    requires
        data.len() % 3 == 0,
        palette.len() >= 1,
    ensures
        quantized(quantized(data, palette), palette) == quantized(data, palette),
{
    let once = quantized(data, palette);
    let twice = quantized(once, palette);
    assert forall|i: int| 0 <= i < data.len() implies #[trigger] twice[i] == once[i] by {
        let k = i / 3;
        lemma_quantized_pixel(data, palette, k);
        lemma_nearest_idempotent(pixel_at(data, k), palette);
    }
    assert(twice =~= once);
}

/// Quantizing a picture whose every pixel already has a palette colour
/// leaves it unchanged.
pub proof fn lemma_palette_only_unchanged(data: Seq<u8>, palette: Seq<Rgb>)
    requires
        data.len() % 3 == 0,
        colours_among(data, data.len() as int / 3, palette),
    ensures
        quantized(data, palette) == data,
{
    let q = quantized(data, palette);
    assert forall|i: int| 0 <= i < data.len() implies #[trigger] q[i] == data[i] by {
        let k = i / 3;
        lemma_quantized_pixel(data, palette, k);
        assert(palette.contains(pixel_at(data, k)));
        let j = choose|j: int| 0 <= j < palette.len() && palette[j] == pixel_at(data, k);
        lemma_nearest_of_member(pixel_at(data, k), palette, j);
    }
    assert(q =~= data);
}

/// With a one-colour palette every pixel of the quantized picture is that
/// colour, whatever the picture held.
pub proof fn lemma_single_colour_palette(data: Seq<u8>, palette: Seq<Rgb>)
    requires
        data.len() % 3 == 0,
        palette.len() == 1,
    ensures
        forall|k: int| 0 <= k < data.len() / 3 ==> #[trigger] pixel_at(quantized(data, palette), k) == palette[0],
{
    assert forall|k: int| 0 <= k < data.len() / 3 implies #[trigger] pixel_at(quantized(data, palette), k) == palette[0] by {
        lemma_quantized_pixel(data, palette, k);
        lemma_nearest_exists(pixel_at(data, k), palette);
    }
}

} // verus!
