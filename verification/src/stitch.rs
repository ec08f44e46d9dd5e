//! Tiling an ordered sequence of equally sized images into one mosaic
//! canvas, left to right and top to bottom.

use vstd::prelude::*;

use vstd::arithmetic::div_mod::{
    lemma_basic_div, lemma_div_plus_one, lemma_div_pos_is_pos, lemma_fundamental_div_mod,
    lemma_fundamental_div_mod_converse, lemma_mod_bound, lemma_multiply_divide_lt,
};
use vstd::arithmetic::mul::{lemma_mul_is_commutative, lemma_mul_is_distributive_add_other_way};

use crate::color::Color;
use crate::raster::{
    lemma_mul_le, lemma_overlay_pixel, lemma_row_major, lemma_solid_pixel, lemma_split_index,
    overlay_view, solid_view, Image, ImageView,
};

verus! {

/// The views of a sequence of images.
pub open spec fn views_of(images: Seq<Image>) -> Seq<ImageView> {
    images.map_values(|img: Image| img@)
}

/// All images share the given cell dimensions.
pub open spec fn all_same_size(imgs: Seq<ImageView>, cw: int, ch: int) -> bool {
    forall|i: int|
        0 <= i < imgs.len() ==> (#[trigger] imgs[i]).width == cw && imgs[i].height == ch
}

/// What a mosaic holds at `(x, y)` once the first `placed` images are laid
/// down: the matching pixel of the image whose cell covers that position,
/// and transparent black under every cell still empty.
pub open spec fn tile_pixel_upto(
    imgs: Seq<ImageView>,
    columns: int,
    placed: int,
    x: int,
    y: int,
) -> Color {
    let cw = imgs[0].width;
    let ch = imgs[0].height;
    let index = (y / ch) * columns + x / cw;
    if index < placed {
        imgs[index].pixel(x % cw, y % ch)
    } else {
        Color::transparent()
    }
}

/// What the finished mosaic holds at `(x, y)`.
pub open spec fn tile_pixel(imgs: Seq<ImageView>, columns: int, x: int, y: int) -> Color {
    tile_pixel_upto(imgs, columns, imgs.len() as int, x, y)
}

/// The mosaic of `imgs`, `columns` cells per row: the cell size is the first
/// image's size, the row count is the image count divided by `columns` and
/// rounded up, and cells after the last image stay transparent.
pub open spec fn tile_view(imgs: Seq<ImageView>, columns: int) -> ImageView {
    let cw = imgs[0].width;
    let ch = imgs[0].height;
    let rows = (imgs.len() + columns - 1) / columns;
    ImageView {
        width: columns * cw,
        height: rows * ch,
        pixels: Seq::new(
            ((columns * cw) * (rows * ch)) as nat,
            |k: int|
                tile_pixel(imgs, columns, k % (columns * cw), k / (columns * cw)),
        ),
    }
}

proof fn lemma_mul_one(a: int, b: int)
    by (nonlinear_arith)
    requires
        a == 1,
    ensures
        a * b == b,
{
}

/// Laying image `t` onto its cell turns a mosaic of the first `t` images
/// into a mosaic of the first `t + 1`.
proof fn lemma_tile_step(
    views: Seq<ImageView>,
    columns: int,
    cw: int,
    ch: int,
    t: int,
    oldv: ImageView,
    newv: ImageView,
)
    requires
        1 <= columns,
        1 <= cw,
        1 <= ch,
        0 <= t < views.len(),
        views[0].width == cw,
        views[0].height == ch,
        views[t].width == cw,
        views[t].height == ch,
        oldv.width == columns * cw,
        newv == overlay_view(oldv, views[t], (t % columns) * cw, (t / columns) * ch),
        forall|x: int, y: int|
            0 <= x < oldv.width && 0 <= y < oldv.height ==> #[trigger] oldv.pixel(x, y)
                == tile_pixel_upto(views, columns, t, x, y),
    ensures
        newv.width == oldv.width,
        newv.height == oldv.height,
        forall|x: int, y: int|
            0 <= x < newv.width && 0 <= y < newv.height ==> #[trigger] newv.pixel(x, y)
                == tile_pixel_upto(views, columns, t + 1, x, y),
{
    let col = t % columns;
    let row = t / columns;
    let ox = col * cw;
    let oy = row * ch;
    lemma_mod_bound(t, columns);
    lemma_div_pos_is_pos(t, columns);
    lemma_fundamental_div_mod(t, columns);
    lemma_mul_is_commutative(columns, row);
    assert forall|x: int, y: int| 0 <= x < newv.width && 0 <= y < newv.height implies #[trigger] newv
        .pixel(x, y) == tile_pixel_upto(views, columns, t + 1, x, y) by {
        lemma_overlay_pixel(oldv, views[t], ox, oy, x, y);
        lemma_fundamental_div_mod(x, cw);
        lemma_mod_bound(x, cw);
        lemma_div_pos_is_pos(x, cw);
        lemma_fundamental_div_mod(y, ch);
        lemma_mod_bound(y, ch);
        lemma_div_pos_is_pos(y, ch);
        if ox <= x < ox + cw && oy <= y < oy + ch {
            lemma_row_major(x - ox, col, cw);
            lemma_row_major(y - oy, row, ch);
            assert((y / ch) * columns + x / cw == t);
            assert(newv.pixel(x, y) == views[t].pixel(x - ox, y - oy));
        } else {
            let col2 = x / cw;
            let row2 = y / ch;
            if row2 * columns + col2 == t {
                lemma_mul_is_commutative(columns, cw);
                lemma_multiply_divide_lt(x, cw, columns);
                lemma_fundamental_div_mod_converse(t, columns, row2, col2);
                assert(col2 == col && row2 == row);
                lemma_mul_is_commutative(cw, col);
                lemma_mul_is_commutative(ch, row);
                assert(ox <= x < ox + cw && oy <= y < oy + ch);
                assert(false);
            }
            assert(newv.pixel(x, y) == oldv.pixel(x, y));
        }
    }
}

/// Tile the images into one mosaic, `width` cells per row: image `i` fills
/// the cell in row `i / width`, column `i % width`, and the cells after the
/// last image stay transparent.
#[verifier::loop_isolation(false)]
pub fn stitch_images(images: Vec<Image>, width: u32) -> (mosaic: Image)
    requires
        1 <= width,
        1 <= images@.len(),
        1 <= images@[0]@.width,
        1 <= images@[0]@.height,
        all_same_size(views_of(images@), images@[0]@.width, images@[0]@.height),
        tile_view(views_of(images@), width as int).width <= u32::MAX,
        tile_view(views_of(images@), width as int).height <= u32::MAX,
        4 * (tile_view(views_of(images@), width as int).width * tile_view(
            views_of(images@),
            width as int,
        ).height) <= usize::MAX,
    ensures
        mosaic@ == tile_view(views_of(images@), width as int),
{
    let ghost views = views_of(images@);
    let ghost c = width as int;
    let n: usize = images.len();
    let cell_w = images[0].width();
    let cell_h = images[0].height();
    let ghost cw = cell_w as int;
    let ghost ch = cell_h as int;
    let ghost target = tile_view(views, c);
    proof {
        assert(views[0] == images@[0]@);
        lemma_div_plus_one(n as int - 1, c);
        lemma_div_pos_is_pos(n as int - 1, c);
    }
    let rows: usize = (n - 1) / (width as usize) + 1;
    let ghost rows_int = (views.len() + c - 1) / c;
    proof {
        assert(rows as int == rows_int);
        lemma_mul_le(1, rows_int, 1, ch);
        lemma_mul_le(1, c, 1, cw);
        lemma_mul_le(rows_int, rows_int, 1, ch);
        lemma_mul_le(c, c, 1, cw);
    }
    let canvas_w: u32 = width * cell_w;
    let canvas_h: u32 = (rows as u32) * cell_h;
    let mut canvas = Image::new(canvas_w, canvas_h);
    let ghost cv_w = canvas_w as int;
    let ghost cv_h = canvas_h as int;
    proof {
        assert forall|x: int, y: int| 0 <= x < cv_w && 0 <= y < cv_h implies #[trigger] canvas@
            .pixel(x, y) == tile_pixel_upto(views, c, 0, x, y) by {
            lemma_solid_pixel(cv_w, cv_h, Color::transparent(), x, y);
            lemma_div_pos_is_pos(x, cw);
            lemma_div_pos_is_pos(y, ch);
            lemma_mul_le(0, y / ch, 0, c);
        }
    }
    let mut t: usize = 0;
    while t < n
        invariant
            t <= n,
            canvas@.width == cv_w,
            canvas@.height == cv_h,
            forall|x: int, y: int|
                0 <= x < cv_w && 0 <= y < cv_h ==> #[trigger] canvas@.pixel(x, y)
                    == tile_pixel_upto(views, c, t as int, x, y),
        decreases n - t,
    {
        proof {
            lemma_mod_bound(t as int, c);
            lemma_div_pos_is_pos(t as int, c);
            vstd::arithmetic::div_mod::lemma_div_is_ordered(t as int, n as int - 1, c);
        }
        let col: u32 = (t % (width as usize)) as u32;
        let row: u32 = (t / (width as usize)) as u32;
        proof {
            lemma_mul_le(col as int + 1, c, cw, cw);
            lemma_mul_le(row as int + 1, rows_int, ch, ch);
            lemma_mul_is_distributive_add_other_way(cw, col as int, 1);
            lemma_mul_is_distributive_add_other_way(ch, row as int, 1);
            assert(views[t as int] == images@[t as int]@);
        }
        let ox: u32 = col * cell_w;
        let oy: u32 = row * cell_h;
        let ghost oldv = canvas@;
        canvas = canvas.overlay(&images[t], ox, oy);
        proof {
            lemma_tile_step(views, c, cw, ch, t as int, oldv, canvas@);
        }
        t = t + 1;
    }
    proof {
        canvas.lemma_wf();
        assert(canvas@.width == target.width);
        assert(canvas@.height == target.height);
        assert forall|k: int| 0 <= k < canvas@.pixels.len() implies canvas@.pixels[k]
            == target.pixels[k] by {
            lemma_split_index(k, cv_w, cv_h);
            let x = k % cv_w;
            let y = k / cv_w;
            assert(canvas@.pixel(x, y) == tile_pixel_upto(views, c, t as int, x, y));
        }
        assert(canvas@.pixels =~= target.pixels);
        assert(canvas@ =~= target);
    }
    canvas
}

/// A single image tiled in one column reproduces that image exactly.
pub proof fn lemma_tile_single(v: ImageView)
    requires
        v.wf(),
        1 <= v.width,
        1 <= v.height,
    ensures
        tile_view(seq![v], 1) == v,
{
    let views = seq![v];
    assert(views.len() == 1);
    assert(views[0] == v);
    let target = tile_view(views, 1);
    vstd::arithmetic::div_mod::lemma_div_by_self(1);
    lemma_mul_one((views.len() + 1 - 1) / 1, views[0].height);
    assert(target.width == v.width);
    assert(target.height == v.height);
    assert forall|k: int| 0 <= k < target.pixels.len() implies target.pixels[k] == v.pixels[k] by {
        lemma_split_index(k, v.width, v.height);
        let x = k % v.width;
        let y = k / v.width;
        lemma_basic_div(x, v.width);
        lemma_basic_div(y, v.height);
        vstd::arithmetic::div_mod::lemma_small_mod(x as nat, v.width as nat);
        vstd::arithmetic::div_mod::lemma_small_mod(y as nat, v.height as nat);
        assert(tile_pixel(views, 1, x, y) == v.pixel(x, y));
    }
    assert(target.pixels =~= v.pixels);
    assert(target =~= v);
}

} // verus!
