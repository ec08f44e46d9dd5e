//! Grayscale reduction and the mean-squared-error score that separates
//! content cards from blank ones.

use vstd::prelude::*;

use crate::color::luma;
use crate::raster::{Image, ImageView};

verus! {

/// Scores strictly above this mean-squared-error mark a card as content.
pub const CONTENT_THRESHOLD: u32 = 500;

/// Mathematical model of a grayscale matrix: dimensions and the row-major
/// intensity values.
#[verifier::ext_equal]
pub struct GrayView {
    pub width: int,
    pub height: int,
    pub values: Seq<u8>,
}

/// The grayscale matrix an image reduces to: one luma value per pixel, in
/// the same row-major order.
pub open spec fn gray_view(img: ImageView) -> GrayView {
    GrayView {
        width: img.width,
        height: img.height,
        values: Seq::new((img.width * img.height) as nat, |k: int| img.pixels[k].luma() as u8),
    }
}

/// A grayscale matrix: one 8-bit intensity per pixel, rows top to bottom.
pub struct GrayMatrix {
    width: u32,
    height: u32,
    data: Vec<u8>,
}

impl View for GrayMatrix {
    type V = GrayView;

    closed spec fn view(&self) -> GrayView {
        GrayView { width: self.width as int, height: self.height as int, values: self.data@ }
    }
}

impl GrayMatrix {
    #[verifier::type_invariant]
    spec fn inv(self) -> bool {
        self.data@.len() == (self.width as int) * (self.height as int)
    }

    pub fn width(&self) -> (w: u32)
        ensures
            w as int == self@.width,
    {
        self.width
    }

    pub fn height(&self) -> (h: u32)
        ensures
            h as int == self@.height,
    {
        self.height
    }

    /// The intensity values, row-major.
    pub fn values(&self) -> (vals: &Vec<u8>)
        ensures
            vals@ == self@.values,
    {
        &self.data
    }
}

/// Reduce an image to its grayscale matrix by the fixed luma weighting.
#[verifier::loop_isolation(false)]
pub fn to_grayscale(img: &Image) -> (gray: GrayMatrix)
    ensures
        gray@ == gray_view(img@),
{
    proof {
        img.lemma_wf();
    }
    let width = img.width();
    let height = img.height();
    let ghost w = width as int;
    let mut data: Vec<u8> = Vec::new();
    let mut j: u32 = 0;
    while j < height
        invariant
            j <= height,
            0 <= (j as int) * w,
            data@.len() == (j as int) * w,
            forall|m: int| 0 <= m < data@.len() ==> data@[m] == img@.pixels[m].luma() as u8,
        decreases height - j,
    {
        let mut i: u32 = 0;
        while i < width
            invariant
                i <= width,
                j < height,
                data@.len() == (j as int) * w + i,
                forall|m: int| 0 <= m < data@.len() ==> data@[m] == img@.pixels[m].luma() as u8,
            decreases width - i,
        {
            let c = img.get_pixel(i, j);
            proof {
                crate::raster::lemma_grid_index(i as int, j as int, w, height as int);
            }
            data.push(luma(c));
            i = i + 1;
        }
        proof {
            vstd::arithmetic::mul::lemma_mul_is_distributive_add_other_way(w, j as int, 1);
        }
        j = j + 1;
    }
    proof {
        vstd::arithmetic::mul::lemma_mul_is_commutative(w, height as int);
    }
    let gray = GrayMatrix { width, height, data };
    proof {
        assert(gray@.values =~= gray_view(img@).values);
        assert(gray@ =~= gray_view(img@));
    }
    gray
}

/// Sum, over the first `n` pixels, of the squared difference of the two
/// images' luma values.
pub open spec fn sq_diff_sum(a: ImageView, b: ImageView, n: int) -> int
    decreases n,
{
    if n <= 0 {
        0
    } else {
        sq_diff_sum(a, b, n - 1) + (a.pixels[n - 1].luma() - b.pixels[n - 1].luma()) * (a.pixels[n
            - 1].luma() - b.pixels[n - 1].luma())
    }
}

/// The mean of the per-pixel squared grayscale differences.
pub open spec fn mse_spec(a: ImageView, b: ImageView) -> int {
    sq_diff_sum(a, b, a.width * a.height) / (a.width * a.height)
}

proof fn lemma_sq_bound(d: int)
    by (nonlinear_arith)
    requires
        -255 <= d <= 255,
    ensures
        0 <= d * d <= 65025,
{
}

/// Mean squared error between the grayscale reductions of two equally sized,
/// non-empty images.
#[verifier::loop_isolation(false)]
pub fn mse(img: &Image, reference: &Image) -> (score: u32)
    requires
        img@.width == reference@.width,
        img@.height == reference@.height,
        1 <= img@.width,
        1 <= img@.height,
    ensures
        score as int == mse_spec(img@, reference@),
{
    let width = img.width();
    let height = img.height();
    let total = img.pixel_count();
    let ghost w = width as int;
    let mut acc: u128 = 0;
    let mut j: u32 = 0;
    while j < height
        invariant
            j <= height,
            0 <= (j as int) * w <= w * (height as int),
            acc as int == sq_diff_sum(img@, reference@, (j as int) * w),
            acc as int <= 65025 * ((j as int) * w),
        decreases height - j,
    {
        let mut i: u32 = 0;
        while i < width
            invariant
                i <= width,
                j < height,
                0 <= (j as int) * w + i <= w * (height as int),
                acc as int == sq_diff_sum(img@, reference@, (j as int) * w + i),
                acc as int <= 65025 * ((j as int) * w + i),
            decreases width - i,
        {
            proof {
                crate::raster::lemma_grid_index(i as int, j as int, w, height as int);
            }
            let la = luma(img.get_pixel(i, j));
            let lb = luma(reference.get_pixel(i, j));
            let d: i32 = la as i32 - lb as i32;
            proof {
                lemma_sq_bound(d as int);
            }
            let sq: u32 = (d * d) as u32;
            let ghost m = (j as int) * w + i;
            proof {
                assert(sq_diff_sum(img@, reference@, m + 1) == sq_diff_sum(img@, reference@, m) + (
                img@.pixels[m].luma() - reference@.pixels[m].luma()) * (img@.pixels[m].luma()
                    - reference@.pixels[m].luma()));
            }
            acc = acc + (sq as u128);
            i = i + 1;
        }
        proof {
            vstd::arithmetic::mul::lemma_mul_is_distributive_add_other_way(w, j as int, 1);
        }
        j = j + 1;
    }
    proof {
        vstd::arithmetic::mul::lemma_mul_is_commutative(w, height as int);
        crate::raster::lemma_mul_le(1, w, 1, height as int);
        vstd::arithmetic::div_mod::lemma_multiply_divide_le(
            acc as int,
            w * (height as int),
            65025,
        );
        vstd::arithmetic::mul::lemma_mul_is_commutative(w * (height as int), 65025);
        vstd::arithmetic::div_mod::lemma_div_pos_is_pos(acc as int, w * (height as int));
    }
    (acc / (total as u128)) as u32
}

/// The blank-card score of one card: its mean squared error against the
/// blank reference card.
pub fn card_mse(img: &Image, empty_card: &Image) -> (score: u32)
    requires
        img@.width == empty_card@.width,
        img@.height == empty_card@.height,
        1 <= img@.width,
        1 <= img@.height,
    ensures
        score as int == mse_spec(img@, empty_card@),
{
    mse(img, empty_card)
}

/// Whether a card shows content: its blank-card score lies strictly above
/// the threshold.
pub fn is_content(img: &Image, empty_card: &Image) -> (content: bool)
    requires
        img@.width == empty_card@.width,
        img@.height == empty_card@.height,
        1 <= img@.width,
        1 <= img@.height,
    ensures
        content == (mse_spec(img@, empty_card@) > CONTENT_THRESHOLD),
{
    mse(img, empty_card) > CONTENT_THRESHOLD
}

proof fn lemma_sq_diff_sum_self_zero(img: ImageView, n: int)
    ensures
        sq_diff_sum(img, img, n) == 0,
    decreases n,
{
    if n > 0 {
        lemma_sq_diff_sum_self_zero(img, n - 1);
    }
}

/// An image compared against itself scores zero.
pub proof fn lemma_mse_self_zero(img: ImageView)
    requires
        1 <= img.width,
        1 <= img.height,
    ensures
        mse_spec(img, img) == 0,
{
    lemma_sq_diff_sum_self_zero(img, img.width * img.height);
    crate::raster::lemma_mul_le(1, img.width, 1, img.height);
    vstd::arithmetic::div_mod::lemma_div_of0(img.width * img.height);
}

} // verus!
