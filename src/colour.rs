use vstd::prelude::*;

verus! {

/// An opaque colour given by its red, green and blue channels.
#[derive(Clone, Copy, Debug, PartialEq, Eq, Structural)]
pub struct Rgb {
    pub r: u8,
    pub g: u8,
    pub b: u8,
}

/// The square of the Euclidean distance between two colours in RGB space.
pub open spec fn dist2(a: Rgb, b: Rgb) -> int {
    (a.r - b.r) * (a.r - b.r) + (a.g - b.g) * (a.g - b.g) + (a.b - b.b) * (a.b - b.b)
}

/// Squared Euclidean distance between two colours.
///
/// The square root is monotone, so comparing squared distances picks the
/// same nearest colour as comparing the distances themselves.
pub fn colour_distance(c1: &Rgb, c2: &Rgb) -> (d: u32)
    ensures
        d == dist2(*c1, *c2),
{
    let dr: i32 = c1.r as i32 - c2.r as i32;
    let dg: i32 = c1.g as i32 - c2.g as i32;
    let db: i32 = c1.b as i32 - c2.b as i32;
    assert(0 <= dr * dr <= 65025 && 0 <= dg * dg <= 65025 && 0 <= db * db <= 65025) by (nonlinear_arith)
        requires -255 <= dr <= 255, -255 <= dg <= 255, -255 <= db <= 255;
    (dr * dr + dg * dg + db * db) as u32
}

/// `i` is the first index of a smallest value in `s`.
pub open spec fn is_first_min(s: Seq<u32>, i: int) -> bool {
    &&& 0 <= i < s.len()
    &&& forall|j: int| 0 <= j < s.len() ==> s[i] <= #[trigger] s[j]
    &&& forall|j: int| 0 <= j < i ==> s[i] < #[trigger] s[j]
}

/// `i` is the first palette entry at the smallest distance from `p`.
pub open spec fn is_first_nearest(p: Rgb, palette: Seq<Rgb>, i: int) -> bool {
    &&& 0 <= i < palette.len()
    &&& forall|j: int| 0 <= j < palette.len() ==> dist2(p, palette[i]) <= #[trigger] dist2(p, palette[j])
    &&& forall|j: int| 0 <= j < i ==> dist2(p, palette[i]) < #[trigger] dist2(p, palette[j])
}

/// The index of the palette entry that `p` is mapped to: the first one at
/// the smallest distance, so that ties go to the earlier entry.
pub open spec fn nearest_index(p: Rgb, palette: Seq<Rgb>) -> int {
    choose|i: int| is_first_nearest(p, palette, i)
}

/// The palette colour that `p` is mapped to.
pub open spec fn nearest(p: Rgb, palette: Seq<Rgb>) -> Rgb {
    palette[nearest_index(p, palette)]
}

/// Over a non-empty palette exactly one index is the first nearest one, and
/// `nearest_index` is that index.
pub proof fn lemma_first_nearest_unique(p: Rgb, palette: Seq<Rgb>, i: int)
    requires
        is_first_nearest(p, palette, i),
    ensures
        nearest_index(p, palette) == i,
        nearest(p, palette) == palette[i],
{
    let k = nearest_index(p, palette);
    assert(is_first_nearest(p, palette, k));
    if k < i {
        assert(dist2(p, palette[i]) < dist2(p, palette[k]));
    } else if i < k {
        assert(dist2(p, palette[k]) < dist2(p, palette[i]));
    }
}

/// Every non-empty palette has a first nearest entry for every colour.
pub proof fn lemma_nearest_exists(p: Rgb, palette: Seq<Rgb>)
    requires
        palette.len() >= 1,
    ensures
        is_first_nearest(p, palette, nearest_index(p, palette)),
    decreases palette.len(),
{
    if palette.len() == 1 {
        assert(is_first_nearest(p, palette, 0));
    } else {
        let init = palette.drop_last();
        lemma_nearest_exists(p, init);
        let i = nearest_index(p, init);
        let last = palette.len() - 1;
        assert forall|j: int| 0 <= j < last implies #[trigger] palette[j] == init[j] by {}
        assert(is_first_nearest(p, init, i));
        if dist2(p, palette[last]) < dist2(p, palette[i]) {
            assert forall|j: int| 0 <= j < palette.len() implies dist2(p, palette[last]) <= #[trigger] dist2(p, palette[j]) by {
                if j < last {
                    assert(dist2(p, init[i]) <= dist2(p, init[j]));
                }
            }
            assert forall|j: int| 0 <= j < last implies dist2(p, palette[last]) < #[trigger] dist2(p, palette[j]) by {
                assert(dist2(p, init[i]) <= dist2(p, init[j]));
            }
            assert(is_first_nearest(p, palette, last));
        } else {
            assert forall|j: int| 0 <= j < palette.len() implies dist2(p, palette[i]) <= #[trigger] dist2(p, palette[j]) by {
                if j < last {
                    assert(dist2(p, init[i]) <= dist2(p, init[j]));
                }
            }
            assert forall|j: int| 0 <= j < i implies dist2(p, palette[i]) < #[trigger] dist2(p, palette[j]) by {
                assert(dist2(p, init[i]) < dist2(p, init[j]));
            }
            assert(is_first_nearest(p, palette, i));
        }
    }
}

/// A colour is at distance zero only from itself.
pub proof fn lemma_dist2_zero(a: Rgb, b: Rgb)
    ensures
        dist2(a, b) >= 0,
        dist2(a, b) == 0 <==> a == b,
{
    let dr = a.r - b.r;
    let dg = a.g - b.g;
    let db = a.b - b.b;
    assert(dr * dr >= 0 && dg * dg >= 0 && db * db >= 0) by (nonlinear_arith);
    assert(dr * dr == 0 ==> dr == 0) by (nonlinear_arith);
    assert(dg * dg == 0 ==> dg == 0) by (nonlinear_arith);
    assert(db * db == 0 ==> db == 0) by (nonlinear_arith);
    assert(dist2(a, b) == dr * dr + dg * dg + db * db);
    if dist2(a, b) == 0 {
        assert(a.r == b.r && a.g == b.g && a.b == b.b);
    }
    if a == b {
        assert(dr == 0 && dg == 0 && db == 0);
        assert(dr * dr == 0 && dg * dg == 0 && db * db == 0) by (nonlinear_arith)
            requires dr == 0 && dg == 0 && db == 0;
    }
}

/// Mapping a colour that is already a palette entry gives that colour back,
/// so mapping twice is the same as mapping once.
pub proof fn lemma_nearest_idempotent(p: Rgb, palette: Seq<Rgb>)
    requires
        palette.len() >= 1,
    ensures
        nearest(nearest(p, palette), palette) == nearest(p, palette),
{
    let q = nearest(p, palette);
    lemma_nearest_exists(p, palette);
    lemma_nearest_exists(q, palette);
    let i = nearest_index(p, palette);
    let j = nearest_index(q, palette);
    lemma_dist2_zero(q, palette[i]);
    lemma_dist2_zero(q, palette[j]);
}

/// A colour that is a palette entry is mapped to itself.
pub proof fn lemma_nearest_of_member(p: Rgb, palette: Seq<Rgb>, i: int)
    requires
        0 <= i < palette.len(),
        palette[i] == p,
    ensures
        nearest(p, palette) == p,
{
    lemma_nearest_exists(p, palette);
    let j = nearest_index(p, palette);
    lemma_dist2_zero(p, palette[i]);
    lemma_dist2_zero(p, palette[j]);
}

/// A colour exactly as far from the first palette entry as from the second,
/// with no entry nearer, is mapped to the first entry.
pub proof fn lemma_tie_goes_to_first(p: Rgb, palette: Seq<Rgb>)
    requires
        palette.len() >= 2,
        dist2(p, palette[0]) == dist2(p, palette[1]),
        forall|j: int| 0 <= j < palette.len() ==> dist2(p, palette[0]) <= #[trigger] dist2(p, palette[j]),
    ensures
        nearest_index(p, palette) == 0,
        nearest(p, palette) == palette[0],
{
    assert(is_first_nearest(p, palette, 0));
    lemma_first_nearest_unique(p, palette, 0);
}

/// The index of the first smallest value of `array`, or 0 when it is empty.
pub fn min_index(array: &[u32]) -> (i: usize)
    ensures
        array@.len() == 0 ==> i == 0,
        array@.len() > 0 ==> is_first_min(array@, i as int),
{
    let mut i: usize = 0;
    let mut j: usize = 0;
    while j < array.len()
        invariant
            j <= array@.len(),
            j == 0 ==> i == 0,
            j > 0 ==> i < j,
            forall|k: int| 0 <= k < j ==> array@[i as int] <= #[trigger] array@[k],
            forall|k: int| 0 <= k < i ==> array@[i as int] < #[trigger] array@[k],
        decreases array@.len() - j,
    {
        if array[j] < array[i] {
            i = j;
        }
        j = j + 1;
    }
    i
}

/// Replaces `pixel` by its nearest colour in `palette`, the earliest entry
/// winning a tie.
pub fn set_closest_colour(pixel: &mut Rgb, palette: &[Rgb])
    requires
        palette@.len() >= 1,
    ensures
        *final(pixel) == nearest(*old(pixel), palette@),
{
    let p: Rgb = *pixel;
    let mut distances: Vec<u32> = Vec::new();
    let mut j: usize = 0;
    while j < palette.len()
        invariant
            j <= palette@.len(),
            distances@.len() == j,
            forall|k: int| 0 <= k < j ==> distances@[k] == dist2(p, #[trigger] palette@[k]),
        decreases palette@.len() - j,
    {
        let d = colour_distance(&p, &palette[j]);
        distances.push(d);
        j = j + 1;
    }
    let i = min_index(distances.as_slice());
    proof {
        assert forall|k: int| 0 <= k < palette@.len() implies dist2(p, palette@[i as int]) <= #[trigger] dist2(p, palette@[k]) by {
            assert(distances@[k] == dist2(p, palette@[k]));
        }
        assert forall|k: int| 0 <= k < i implies dist2(p, palette@[i as int]) < #[trigger] dist2(p, palette@[k]) by {
            assert(distances@[k] == dist2(p, palette@[k]));
        }
        lemma_first_nearest_unique(p, palette@, i as int);
    }
    *pixel = palette[i];
}

} // verus!
