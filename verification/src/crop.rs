//! Fixed-geometry extraction: the page rectangle, grid slicing into cards,
//! the padding canvas used before alignment, and card background recoloring.

use vstd::prelude::*;

use crate::color::Color;
use crate::raster::{crop_view, overlay_view, solid_view, Image, ImageView};

verus! {

/// Width of the cropped page rectangle.
pub const PAGE_WIDTH: u32 = 165;

/// Height of the cropped page rectangle.
pub const PAGE_HEIGHT: u32 = 225;

/// A page is cut into a card grid this many cells on each side.
pub const GRID_SIDE: u32 = 5;

/// Column of the inset kept when a card's background is replaced.
pub const INSET_X: u32 = 3;

/// Row of the kept inset.
pub const INSET_Y: u32 = 4;

/// Width of the kept inset.
pub const INSET_WIDTH: u32 = 27;

/// Height of the kept inset.
pub const INSET_HEIGHT: u32 = 38;

/// The fixed-size page rectangle whose top-left corner is `(x, y)`.
pub fn crop(img: &Image, x: u32, y: u32) -> (page: Image)
    requires
        x + PAGE_WIDTH <= img@.width,
        y + PAGE_HEIGHT <= img@.height,
    ensures
        page@ == crop_view(img@, x as int, y as int, PAGE_WIDTH as int, PAGE_HEIGHT as int),
{
    img.crop_region(x, y, PAGE_WIDTH, PAGE_HEIGHT)
}

/// Cut `img` into a `rows` by `cols` grid of equal cells, produced in
/// row-major order; remainder pixels that do not fill a whole cell are
/// dropped from the right and bottom edges.
#[verifier::loop_isolation(false)]
pub fn slice_grid(img: &Image, rows: u32, cols: u32) -> (cells: Vec<Image>)
    requires
        1 <= rows,
        1 <= cols,
    ensures
        cells@.len() == (rows as int) * (cols as int),
        forall|i: int, j: int|
            0 <= i < rows && 0 <= j < cols ==> (#[trigger] cells@[i * (cols as int) + j])@
                == crop_view(
                img@,
                j * (img@.width / (cols as int)),
                i * (img@.height / (rows as int)),
                img@.width / (cols as int),
                img@.height / (rows as int),
            ),
{
    proof {
        img.lemma_wf();
        vstd::arithmetic::div_mod::lemma_fundamental_div_mod(img@.width, cols as int);
        vstd::arithmetic::div_mod::lemma_mod_bound(img@.width, cols as int);
        vstd::arithmetic::div_mod::lemma_fundamental_div_mod(img@.height, rows as int);
        vstd::arithmetic::div_mod::lemma_mod_bound(img@.height, rows as int);
        vstd::arithmetic::div_mod::lemma_div_pos_is_pos(img@.width, cols as int);
        vstd::arithmetic::div_mod::lemma_div_pos_is_pos(img@.height, rows as int);
    }
    let w: u32 = img.width() / cols;
    let h: u32 = img.height() / rows;
    let ghost cw = w as int;
    let ghost ch = h as int;
    let mut cells: Vec<Image> = Vec::new();
    let mut i: u32 = 0;
    while i < rows
        invariant
            i <= rows,
            0 <= (i as int) * (cols as int),
            cells@.len() == (i as int) * (cols as int),
            forall|q: int, p: int|
                0 <= q < i && 0 <= p < cols ==> (#[trigger] cells@[q * (cols as int) + p])@
                    == crop_view(img@, p * cw, q * ch, cw, ch),
        decreases rows - i,
    {
        let mut j: u32 = 0;
        while j < cols
            invariant
                j <= cols,
                i < rows,
                0 <= (i as int) * (cols as int),
                cells@.len() == (i as int) * (cols as int) + j,
                forall|q: int, p: int|
                    0 <= q < i && 0 <= p < cols ==> (#[trigger] cells@[q * (cols as int) + p])@
                        == crop_view(img@, p * cw, q * ch, cw, ch),
                forall|p: int|
                    0 <= p < j ==> (#[trigger] cells@[(i as int) * (cols as int) + p])@
                        == crop_view(img@, p * cw, (i as int) * ch, cw, ch),
            decreases cols - j,
        {
            proof {
                crate::raster::lemma_mul_le(j as int, cols as int, cw, cw);
                crate::raster::lemma_mul_le(i as int, rows as int, ch, ch);
                crate::raster::lemma_mul_le(j as int + 1, cols as int, cw, cw);
                crate::raster::lemma_mul_le(i as int + 1, rows as int, ch, ch);
                vstd::arithmetic::mul::lemma_mul_is_distributive_add_other_way(cw, j as int, 1);
                vstd::arithmetic::mul::lemma_mul_is_distributive_add_other_way(ch, i as int, 1);
                vstd::arithmetic::mul::lemma_mul_is_commutative(cols as int, cw);
                vstd::arithmetic::mul::lemma_mul_is_commutative(rows as int, ch);
            }
            let cell = img.crop_region(j * w, i * h, w, h);
            let ghost prev = cells@;
            cells.push(cell);
            proof {
                assert forall|q: int, p: int| 0 <= q < i && 0 <= p < cols implies (
                #[trigger] cells@[q * (cols as int) + p])@ == crop_view(img@, p * cw, q * ch, cw, ch) by {
                    crate::raster::lemma_grid_index(p, q, cols as int, i as int);
                    vstd::arithmetic::mul::lemma_mul_is_commutative(cols as int, i as int);
                    assert(cells@[q * (cols as int) + p] == prev[q * (cols as int) + p]);
                }
                assert forall|p: int| 0 <= p < j + 1 implies (#[trigger] cells@[(i as int) * (
                cols as int) + p])@ == crop_view(img@, p * cw, (i as int) * ch, cw, ch) by {
                    if p < j {
                        assert(cells@[(i as int) * (cols as int) + p] == prev[(i as int) * (
                        cols as int) + p]);
                    } else {
                        assert(cells@[(i as int) * (cols as int) + p] == cell);
                    }
                }
            }
            j = j + 1;
        }
        proof {
            vstd::arithmetic::mul::lemma_mul_is_distributive_add_other_way(
                cols as int,
                i as int,
                1,
            );
        }
        i = i + 1;
    }
    cells
}

/// The cards of a page: its five-by-five grid cells, row-major.
pub fn crop_cards(img: &Image) -> (cards: Vec<Image>)
    ensures
        cards@.len() == 25,
        forall|i: int, j: int|
            0 <= i < 5 && 0 <= j < 5 ==> (#[trigger] cards@[i * 5 + j])@ == crop_view(
                img@,
                j * (img@.width / 5),
                i * (img@.height / 5),
                img@.width / 5,
                img@.height / 5,
            ),
{
    slice_grid(img, GRID_SIDE, GRID_SIDE)
}

/// `img` laid at the origin of a transparent canvas of `reference`'s
/// dimensions and clipped to it; this equalizes the two images' dimensions
/// without resampling either.
pub fn pad_image(img: &Image, reference: &Image) -> (padded: Image)
    ensures
        padded@ == overlay_view(
            solid_view(reference@.width, reference@.height, Color::transparent()),
            img@,
            0,
            0,
        ),
{
    let canvas = Image::filled_like(reference, crate::color::transparent());
    canvas.overlay(img, 0, 0)
}

/// `card` recolored: a canvas of `card`'s size filled with `color`, with
/// only the card's fixed inset rectangle surviving at its original position.
pub open spec fn recolored_view(card: ImageView, color: Color) -> ImageView {
    overlay_view(
        solid_view(card.width, card.height, color),
        crop_view(card, INSET_X as int, INSET_Y as int, INSET_WIDTH as int, INSET_HEIGHT as int),
        INSET_X as int,
        INSET_Y as int,
    )
}

/// A copy of `card` on a fresh canvas of its own size filled with `color`:
/// only the fixed inset rectangle of the card survives, at its original
/// position, so the border and background pixels take the new color.
pub fn replace_background(card: &Image, color: Color) -> (out: Image)
    requires
        INSET_X + INSET_WIDTH <= card@.width,
        INSET_Y + INSET_HEIGHT <= card@.height,
    ensures
        out@ == recolored_view(card@, color),
{
    let background = Image::filled_like(card, color);
    let inset = card.crop_region(INSET_X, INSET_Y, INSET_WIDTH, INSET_HEIGHT);
    background.overlay(&inset, INSET_X, INSET_Y)
}

} // verus!
