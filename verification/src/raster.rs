//! Rectangular RGBA pixel buffers and the pure operations on them: solid
//! fills, rectangle crops and pixel-copy overlays.

use vstd::prelude::*;

use crate::color::Color;

verus! {

/// Mathematical model of an image: its dimensions and its pixels in
/// row-major order (the pixel at column `x` of row `y` sits at `y * width + x`).
#[verifier::ext_equal]
pub struct ImageView {
    pub width: int,
    pub height: int,
    pub pixels: Seq<Color>,
}

impl ImageView {
    pub open spec fn wf(self) -> bool {
        &&& 0 <= self.width
        &&& 0 <= self.height
        &&& self.pixels.len() == self.width * self.height
    }

    /// The pixel at column `x` of row `y`.
    pub open spec fn pixel(self, x: int, y: int) -> Color {
        self.pixels[y * self.width + x]
    }

    pub open spec fn in_bounds(self, x: int, y: int) -> bool {
        &&& 0 <= x < self.width
        &&& 0 <= y < self.height
    }
}

/// A canvas of the given dimensions whose every pixel is `color`.
pub open spec fn solid_view(width: int, height: int, color: Color) -> ImageView {
    ImageView {
        width,
        height,
        pixels: Seq::new((width * height) as nat, |k: int| color),
    }
}

/// The `width` by `height` rectangle of `img` whose top-left corner is `(x, y)`.
pub open spec fn crop_view(img: ImageView, x: int, y: int, width: int, height: int) -> ImageView {
    ImageView {
        width,
        height,
        pixels: Seq::new(
            (width * height) as nat,
            |k: int| img.pixel(x + k % width, y + k / width),
        ),
    }
}

/// What an overlay leaves at position `(px, py)`: `top`'s pixel where `top`,
/// placed at `(x, y)`, covers that position, and `bottom`'s pixel elsewhere.
pub open spec fn overlay_pixel(
    bottom: ImageView,
    top: ImageView,
    x: int,
    y: int,
    px: int,
    py: int,
) -> Color {
    if x <= px < x + top.width && y <= py < y + top.height {
        top.pixel(px - x, py - y)
    } else {
        bottom.pixel(px, py)
    }
}

/// `bottom` with `top`'s pixels copied over it, `top`'s origin placed at
/// `(x, y)`; whatever falls outside `bottom` is clipped away.
pub open spec fn overlay_view(bottom: ImageView, top: ImageView, x: int, y: int) -> ImageView {
    ImageView {
        width: bottom.width,
        height: bottom.height,
        pixels: Seq::new(
            (bottom.width * bottom.height) as nat,
            |k: int| overlay_pixel(bottom, top, x, y, k % bottom.width, k / bottom.width),
        ),
    }
}

/// A row-major position inside a `w` by `h` grid is a valid index.
pub proof fn lemma_grid_index(x: int, y: int, w: int, h: int)
    by (nonlinear_arith)
    requires
        0 <= x < w,
        0 <= y < h,
    ensures
        0 <= y * w + x < w * h,
{
}

pub proof fn lemma_mul_le(a: int, b: int, c: int, d: int)
    by (nonlinear_arith)
    requires
        0 <= a <= b,
        0 <= c <= d,
    ensures
        0 <= a * c <= b * d,
{
}

/// Splitting a row-major index back into its coordinates.
pub proof fn lemma_row_major(x: int, y: int, w: int)
    requires
        0 <= x < w,
        0 <= y,
    ensures
        (y * w + x) % w == x,
        (y * w + x) / w == y,
{
    vstd::arithmetic::div_mod::lemma_fundamental_div_mod_converse(y * w + x, w, y, x);
}

/// Every pixel of a solid canvas is its fill color.
pub proof fn lemma_solid_pixel(width: int, height: int, color: Color, x: int, y: int)
    requires
        0 <= x < width,
        0 <= y < height,
    ensures
        solid_view(width, height, color).pixel(x, y) == color,
{
    lemma_grid_index(x, y, width, height);
}

/// A crop's pixel at `(x, y)` is the source pixel at `(cx + x, cy + y)`:
/// the crop holds exactly the requested rectangle.
pub proof fn lemma_crop_pixel(img: ImageView, cx: int, cy: int, width: int, height: int, x: int, y: int)
    requires
        0 <= x < width,
        0 <= y < height,
    ensures
        crop_view(img, cx, cy, width, height).pixel(x, y) == img.pixel(cx + x, cy + y),
{
    lemma_grid_index(x, y, width, height);
    lemma_row_major(x, y, width);
}

/// An overlay's pixel is the covering image's pixel inside the covered
/// rectangle and the bottom image's pixel everywhere else.
pub proof fn lemma_overlay_pixel(bottom: ImageView, top: ImageView, ox: int, oy: int, x: int, y: int)
    requires
        0 <= x < bottom.width,
        0 <= y < bottom.height,
    ensures
        overlay_view(bottom, top, ox, oy).pixel(x, y) == overlay_pixel(bottom, top, ox, oy, x, y),
{
    lemma_grid_index(x, y, bottom.width, bottom.height);
    lemma_row_major(x, y, bottom.width);
}

/// Decomposing a row-major index into its column and row.
pub proof fn lemma_split_index(k: int, w: int, h: int)
    requires
        0 < w,
        0 <= k < w * h,
    ensures
        0 <= k % w < w,
        0 <= k / w < h,
        (k / w) * w + k % w == k,
{
    vstd::arithmetic::div_mod::lemma_mod_bound(k, w);
    vstd::arithmetic::div_mod::lemma_fundamental_div_mod(k, w);
    vstd::arithmetic::div_mod::lemma_multiply_divide_lt(k, w, h);
    vstd::arithmetic::div_mod::lemma_div_pos_is_pos(k, w);
    vstd::arithmetic::mul::lemma_mul_is_commutative(w, k / w);
}

/// The pixel a row-major byte buffer holds at position `k`.
pub open spec fn pix_at(bytes: Seq<u8>, k: int) -> Color {
    Color { r: bytes[4 * k], g: bytes[4 * k + 1], b: bytes[4 * k + 2], a: bytes[4 * k + 3] }
}

/// Pixels of a buffer are unchanged when four more bytes are pushed, and the
/// pushed bytes form the next pixel.
proof fn lemma_push4_pixels(prev: Seq<u8>, now: Seq<u8>, n: int, c: Color)
    requires
        0 <= n,
        prev.len() == 4 * n,
        now == prev.push(c.r).push(c.g).push(c.b).push(c.a),
    ensures
        forall|m: int| 0 <= m < n ==> #[trigger] pix_at(now, m) == pix_at(prev, m),
        pix_at(now, n) == c,
{
    assert(now[4 * n] == c.r);
    assert(now[4 * n + 1] == c.g);
    assert(now[4 * n + 2] == c.b);
    assert(now[4 * n + 3] == c.a);
    assert forall|m: int| 0 <= m < n implies #[trigger] pix_at(now, m) == pix_at(prev, m) by {
        assert(now[4 * m] == prev[4 * m]);
        assert(now[4 * m + 1] == prev[4 * m + 1]);
        assert(now[4 * m + 2] == prev[4 * m + 2]);
        assert(now[4 * m + 3] == prev[4 * m + 3]);
    }
}

/// An owned image: four bytes per pixel, rows stored top to bottom.
pub struct Image {
    width: u32,
    height: u32,
    data: Vec<u8>,
}

impl View for Image {
    type V = ImageView;

    closed spec fn view(&self) -> ImageView {
        ImageView {
            width: self.width as int,
            height: self.height as int,
            pixels: Seq::new(
                ((self.width as int) * (self.height as int)) as nat,
                |k: int| pix_at(self.data@, k),
            ),
        }
    }
}

impl Image {
    #[verifier::type_invariant]
    spec fn inv(self) -> bool {
        self.data@.len() == 4 * ((self.width as int) * (self.height as int))
    }

    /// Every image is a well-formed view.
    pub proof fn lemma_wf(&self)
        ensures
            self@.wf(),
    {
        lemma_mul_le(0, self.width as int, 0, self.height as int);
    }

    /// A canvas with the same dimensions as `reference`, every pixel set to
    /// `color`; such a canvas always fits in memory because `reference` does.
    pub fn filled_like(reference: &Image, color: Color) -> (img: Image)
        ensures
            img@ == solid_view(reference@.width, reference@.height, color),
    {
        proof {
            use_type_invariant(reference);
        }
        // The buffer length is a usize, so the new canvas fits as well.
        let n_bytes: usize = reference.data.len();
        Image::filled(reference.width, reference.height, color)
    }

    pub fn width(&self) -> (w: u32)
        ensures
            w as int == self@.width,
    {
        self.width
    }

    /// How many pixels the image holds; the count always fits in memory.
    pub fn pixel_count(&self) -> (n: usize)
        ensures
            n as int == self@.width * self@.height,
            4 * (self@.width * self@.height) <= usize::MAX,
    {
        proof {
            use_type_invariant(self);
        }
        // The buffer length is a usize, so four times the pixel count fits.
        let n_bytes: usize = self.data.len();
        (self.width as usize) * (self.height as usize)
    }

    pub fn height(&self) -> (h: u32)
        ensures
            h as int == self@.height,
    {
        self.height
    }

    /// The pixel at column `x` of row `y`.
    pub fn get_pixel(&self, x: u32, y: u32) -> (c: Color)
        requires
            self@.in_bounds(x as int, y as int),
        ensures
            c == self@.pixel(x as int, y as int),
    {
        proof {
            use_type_invariant(self);
            lemma_grid_index(x as int, y as int, self@.width, self@.height);
        }
        // The buffer length is a usize, which bounds the pixel index below.
        let n_bytes: usize = self.data.len();
        let k: usize = (y as usize) * (self.width as usize) + (x as usize);
        Color {
            r: self.data[4 * k],
            g: self.data[4 * k + 1],
            b: self.data[4 * k + 2],
            a: self.data[4 * k + 3],
        }
    }

    /// A canvas of the given dimensions with every pixel set to `color`.
    #[verifier::loop_isolation(false)]
    pub fn filled(width: u32, height: u32, color: Color) -> (img: Image)
        requires
            4 * ((width as int) * (height as int)) <= usize::MAX,
        ensures
            img@ == solid_view(width as int, height as int, color),
    {
        proof {
            lemma_mul_le(0, width as int, 0, height as int);
        }
        let n: usize = (width as usize) * (height as usize);
        let mut data: Vec<u8> = Vec::new();
        let mut k: usize = 0;
        while k < n
            invariant
                k <= n,
                data@.len() == 4 * k,
                forall|j: int| 0 <= j < k ==> pix_at(data@, j) == color,
            decreases n - k,
        {
            let ghost prev = data@;
            data.push(color.r);
            data.push(color.g);
            data.push(color.b);
            data.push(color.a);
            k = k + 1;
            proof {
                assert(data@ =~= prev.push(color.r).push(color.g).push(color.b).push(color.a));
                assert forall|j: int| 0 <= j < k implies pix_at(data@, j) == color by {
                    if j < k - 1 {
                        assert(data@[4 * j] == prev[4 * j]);
                        assert(data@[4 * j + 1] == prev[4 * j + 1]);
                        assert(data@[4 * j + 2] == prev[4 * j + 2]);
                        assert(data@[4 * j + 3] == prev[4 * j + 3]);
                        assert(pix_at(data@, j) == pix_at(prev, j));
                    } else {
                        assert(data@[4 * j] == color.r);
                        assert(data@[4 * j + 1] == color.g);
                        assert(data@[4 * j + 2] == color.b);
                        assert(data@[4 * j + 3] == color.a);
                    }
                }
            }
        }
        let img = Image { width, height, data };
        proof {
            assert(img@.pixels =~= solid_view(width as int, height as int, color).pixels);
            assert(img@ =~= solid_view(width as int, height as int, color));
        }
        img
    }

    /// A fresh canvas filled with transparent black.
    pub fn new(width: u32, height: u32) -> (img: Image)
        requires
            4 * ((width as int) * (height as int)) <= usize::MAX,
        ensures
            img@ == solid_view(width as int, height as int, Color::transparent()),
    {
        Image::filled(width, height, crate::color::transparent())
    }

    /// The `width` by `height` rectangle of this image whose top-left corner
    /// is `(x, y)`, as a fresh image.
    #[verifier::loop_isolation(false)]
    pub fn crop_region(&self, x: u32, y: u32, width: u32, height: u32) -> (img: Image)
        requires
            x + width <= self@.width,
            y + height <= self@.height,
        ensures
            img@ == crop_view(self@, x as int, y as int, width as int, height as int),
    {
        proof {
            use_type_invariant(self);
            lemma_mul_le(width as int, self@.width, height as int, self@.height);
        }
        let ghost w = width as int;
        let ghost h = height as int;
        let mut data: Vec<u8> = Vec::new();
        let mut j: u32 = 0;
        while j < height
            invariant
                j <= height,
                0 <= (j as int) * w,
                data@.len() == 4 * ((j as int) * w),
                forall|q: int, p: int|
                    0 <= q < j && 0 <= p < w ==> #[trigger] pix_at(data@, q * w + p)
                        == self@.pixel(x + p, y + q),
            decreases height - j,
        {
            let mut i: u32 = 0;
            while i < width
                invariant
                    i <= width,
                    j < height,
                    0 <= (j as int) * w,
                    data@.len() == 4 * ((j as int) * w + i),
                    forall|q: int, p: int|
                        0 <= q < j && 0 <= p < w ==> #[trigger] pix_at(data@, q * w + p)
                            == self@.pixel(x + p, y + q),
                    forall|p: int|
                        0 <= p < i ==> #[trigger] pix_at(data@, (j as int) * w + p) == self@.pixel(
                            x + p,
                            y + j,
                        ),
                decreases width - i,
            {
                let c = self.get_pixel(x + i, y + j);
                let ghost prev = data@;
                data.push(c.r);
                data.push(c.g);
                data.push(c.b);
                data.push(c.a);
                proof {
                    lemma_push4_pixels(prev, data@, (j as int) * w + i, c);
                    assert forall|q: int, p: int| 0 <= q < j && 0 <= p < w implies #[trigger] pix_at(
                        data@,
                        q * w + p,
                    ) == self@.pixel(x + p, y + q) by {
                        lemma_grid_index(p, q, w, j as int);
                        vstd::arithmetic::mul::lemma_mul_is_commutative(w, j as int);
                        assert(pix_at(data@, q * w + p) == pix_at(prev, q * w + p));
                    }
                }
                i = i + 1;
            }
            proof {
                vstd::arithmetic::mul::lemma_mul_is_distributive_add_other_way(
                    w,
                    j as int,
                    1,
                );
            }
            j = j + 1;
        }
        proof {
            vstd::arithmetic::mul::lemma_mul_is_commutative(w, h);
        }
        let img = Image { width, height, data };
        proof {
            let target = crop_view(self@, x as int, y as int, w, h);
            assert forall|k: int| 0 <= k < img@.pixels.len() implies img@.pixels[k]
                == target.pixels[k] by {
                lemma_split_index(k, w, h);
                let q = k / w;
                let p = k % w;
                assert(pix_at(data@, q * w + p) == self@.pixel(x + p, y + q));
            }
            assert(img@.pixels =~= target.pixels);
            assert(img@ =~= target);
        }
        img
    }

    /// This image with `top` copied over it, `top`'s top-left corner placed
    /// at `(x, y)`; parts of `top` that stick out are clipped away.
    #[verifier::loop_isolation(false)]
    pub fn overlay(&self, top: &Image, x: u32, y: u32) -> (img: Image)
        ensures
            img@ == overlay_view(self@, top@, x as int, y as int),
    {
        proof {
            use_type_invariant(self);
        }
        let width = self.width;
        let height = self.height;
        let tw = top.width();
        let th = top.height();
        let ghost w = width as int;
        let ghost h = height as int;
        let mut data: Vec<u8> = Vec::new();
        let mut j: u32 = 0;
        while j < height
            invariant
                j <= height,
                0 <= (j as int) * w,
                data@.len() == 4 * ((j as int) * w),
                forall|q: int, p: int|
                    0 <= q < j && 0 <= p < w ==> #[trigger] pix_at(data@, q * w + p)
                        == overlay_pixel(self@, top@, x as int, y as int, p, q),
            decreases height - j,
        {
            let mut i: u32 = 0;
            while i < width
                invariant
                    i <= width,
                    j < height,
                    0 <= (j as int) * w,
                    data@.len() == 4 * ((j as int) * w + i),
                    forall|q: int, p: int|
                        0 <= q < j && 0 <= p < w ==> #[trigger] pix_at(data@, q * w + p)
                            == overlay_pixel(self@, top@, x as int, y as int, p, q),
                    forall|p: int|
                        0 <= p < i ==> #[trigger] pix_at(data@, (j as int) * w + p)
                            == overlay_pixel(self@, top@, x as int, y as int, p, j as int),
                decreases width - i,
            {
                let inside = (i as u64) >= (x as u64) && (i as u64) < (x as u64) + (tw as u64) && (
                j as u64) >= (y as u64) && (j as u64) < (y as u64) + (th as u64);
                let c = if inside {
                    top.get_pixel(i - x, j - y)
                } else {
                    self.get_pixel(i, j)
                };
                proof {
                    assert(c == overlay_pixel(self@, top@, x as int, y as int, i as int, j as int));
                }
                let ghost prev = data@;
                data.push(c.r);
                data.push(c.g);
                data.push(c.b);
                data.push(c.a);
                proof {
                    lemma_push4_pixels(prev, data@, (j as int) * w + i, c);
                    assert forall|q: int, p: int| 0 <= q < j && 0 <= p < w implies #[trigger] pix_at(
                        data@,
                        q * w + p,
                    ) == overlay_pixel(self@, top@, x as int, y as int, p, q) by {
                        lemma_grid_index(p, q, w, j as int);
                        vstd::arithmetic::mul::lemma_mul_is_commutative(w, j as int);
                        assert(pix_at(data@, q * w + p) == pix_at(prev, q * w + p));
                    }
                }
                i = i + 1;
            }
            proof {
                vstd::arithmetic::mul::lemma_mul_is_distributive_add_other_way(
                    w,
                    j as int,
                    1,
                );
            }
            j = j + 1;
        }
        proof {
            vstd::arithmetic::mul::lemma_mul_is_commutative(w, h);
        }
        let img = Image { width, height, data };
        proof {
            let target = overlay_view(self@, top@, x as int, y as int);
            assert forall|k: int| 0 <= k < img@.pixels.len() implies img@.pixels[k]
                == target.pixels[k] by {
                lemma_split_index(k, w, h);
                let q = k / w;
                let p = k % w;
                assert(pix_at(data@, q * w + p) == overlay_pixel(
                    self@,
                    top@,
                    x as int,
                    y as int,
                    p,
                    q,
                ));
            }
            assert(img@.pixels =~= target.pixels);
            assert(img@ =~= target);
        }
        img
    }

    /// Wrap a raw byte buffer, four bytes per pixel in row-major order, as an
    /// image; refused unless the length matches the dimensions exactly.
    pub fn from_raw(width: u32, height: u32, data: Vec<u8>) -> (res: Option<Image>)
        ensures
            match res {
                Some(img) => {
                    &&& data@.len() == 4 * ((width as int) * (height as int))
                    &&& img@.width == width as int
                    &&& img@.height == height as int
                    &&& forall|k: int|
                        0 <= k < (width as int) * (height as int) ==> img@.pixels[k] == pix_at(
                            data@,
                            k,
                        )
                },
                None => data@.len() != 4 * ((width as int) * (height as int)),
            },
    {
        proof {
            lemma_mul_le(width as int, 0xffff_ffff, height as int, 0xffff_ffff);
        }
        let expected: u128 = 4 * ((width as u128) * (height as u128));
        if (data.len() as u128) == expected {
            Some(Image { width, height, data })
        } else {
            None
        }
    }

    /// The underlying bytes: four per pixel, rows top to bottom.
    pub fn as_raw(&self) -> (bytes: &Vec<u8>)
        ensures
            bytes@.len() == 4 * (self@.width * self@.height),
            forall|k: int|
                0 <= k < self@.width * self@.height ==> pix_at(bytes@, k) == self@.pixels[k],
    {
        proof {
            use_type_invariant(self);
        }
        &self.data
    }
}

} // verus!
