//! Reading the anchor offset out of a correlation surface: a verified peak
//! search that fixes the axis convention once and for all.

use vstd::prelude::*;

verus! {

/// `(x, y)` is the first row-major cell of the `width` by `height` surface
/// that holds the maximum value: every cell is at most it, and every cell
/// before it in row-major order is strictly below it.
pub open spec fn is_first_peak(
    surface: Seq<u32>,
    width: int,
    height: int,
    x: int,
    y: int,
) -> bool {
    &&& 0 <= x < width
    &&& 0 <= y < height
    &&& forall|k: int|
        0 <= k < surface.len() ==> #[trigger] surface[k] <= surface[y * width + x]
    &&& forall|k: int| 0 <= k < y * width + x ==> #[trigger] surface[k] < surface[y * width + x]
}

/// The first-peak condition pins the cell down: the offset read out of a
/// correlation surface is a function of the surface alone.
pub proof fn lemma_peak_unique(
    surface: Seq<u32>,
    width: int,
    height: int,
    x1: int,
    y1: int,
    x2: int,
    y2: int,
)
    requires
        surface.len() == width * height,
        is_first_peak(surface, width, height, x1, y1),
        is_first_peak(surface, width, height, x2, y2),
    ensures
        x1 == x2,
        y1 == y2,
{
    let k1 = y1 * width + x1;
    let k2 = y2 * width + x2;
    crate::raster::lemma_grid_index(x1, y1, width, height);
    crate::raster::lemma_grid_index(x2, y2, width, height);
    if k1 < k2 {
        assert(surface[k1] < surface[k2]);
        assert(surface[k2] <= surface[k1]);
        assert(false);
    }
    if k2 < k1 {
        assert(surface[k2] < surface[k1]);
        assert(surface[k1] <= surface[k2]);
        assert(false);
    }
    crate::raster::lemma_row_major(x1, y1, width);
    crate::raster::lemma_row_major(x2, y2, width);
}

/// The first row-major cell holding the maximum value of a `width` by
/// `height` surface, returned as `(x, y)`: `x` is the cell's column and `y`
/// its row. The values are compared as given, so callers must encode their
/// magnitudes in an order-preserving way. Ties go to the earliest cell in
/// row-major order.
#[verifier::loop_isolation(false)]
pub fn correlation_peak(surface: &Vec<u32>, width: u32, height: u32) -> (peak: (u32, u32))
    requires
        1 <= width,
        1 <= height,
        surface@.len() == (width as int) * (height as int),
    ensures
        is_first_peak(surface@, width as int, height as int, peak.0 as int, peak.1 as int),
{
    proof {
        crate::raster::lemma_mul_le(1, width as int, 1, height as int);
    }
    let n = surface.len();
    let mut best: usize = 0;
    let mut k: usize = 1;
    while k < n
        invariant
            1 <= k <= n,
            best < k,
            forall|m: int| 0 <= m < k ==> surface@[m] <= surface@[best as int],
            forall|m: int| 0 <= m < best ==> surface@[m] < surface@[best as int],
        decreases n - k,
    {
        if surface[k] > surface[best] {
            best = k;
        }
        k = k + 1;
    }
    proof {
        crate::raster::lemma_split_index(best as int, width as int, height as int);
    }
    let x = (best % (width as usize)) as u32;
    let y = (best / (width as usize)) as u32;
    (x, y)
}

} // verus!
