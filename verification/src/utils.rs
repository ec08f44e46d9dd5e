//! The page catalog, its tab colors, and the end-to-end card pipeline:
//! slice, score, recolor and tile.

use vstd::prelude::*;

use crate::color::Color;
use crate::crop::{crop_cards, recolored_view, replace_background};
use crate::gray::{is_content, mse, mse_spec, CONTENT_THRESHOLD};
use crate::raster::{crop_view, Image, ImageView};
use crate::stitch::{all_same_size, stitch_images, tile_view, views_of};

verus! {

/// How many pages the catalog holds.
pub const PAGE_COUNT: usize = 23;

/// One entry of the page catalog: the page's position in the book, the
/// color of its tab, and its position within that color.
pub struct PageMetadata {
    pub page_id: u8,
    pub tab_color: String,
    pub tab_index: u8,
}

/// The tab color of page `i` of the catalog: one red page, then three
/// orange, four light green, three green, three light blue, two blue, two
/// purple, two black and three gold.
pub open spec fn page_color(i: int) -> Seq<char> {
    if i < 1 {
        "red"@
    } else if i < 4 {
        "orange"@
    } else if i < 8 {
        "lightgreen"@
    } else if i < 11 {
        "green"@
    } else if i < 14 {
        "lightblue"@
    } else if i < 16 {
        "blue"@
    } else if i < 18 {
        "purple"@
    } else if i < 20 {
        "black"@
    } else {
        "gold"@
    }
}

/// The position of page `i` within its own tab color.
pub open spec fn page_tab_index(i: int) -> int {
    if i < 1 {
        i
    } else if i < 4 {
        i - 1
    } else if i < 8 {
        i - 4
    } else if i < 11 {
        i - 8
    } else if i < 14 {
        i - 11
    } else if i < 16 {
        i - 14
    } else if i < 18 {
        i - 16
    } else if i < 20 {
        i - 18
    } else {
        i - 20
    }
}

/// The fixed page catalog, in book order: each page with its identifier,
/// its tab color, and its index within that color.
#[verifier::loop_isolation(false)]
pub fn page_metadata() -> (meta: Vec<PageMetadata>)
    ensures
        meta@.len() == PAGE_COUNT,
        forall|i: int|
            0 <= i < PAGE_COUNT ==> {
                &&& (#[trigger] meta@[i]).page_id == i
                &&& meta@[i].tab_color@ == page_color(i)
                &&& meta@[i].tab_index == page_tab_index(i)
            },
{
    let mut meta: Vec<PageMetadata> = Vec::new();
    let mut i: u8 = 0;
    while i < 23
        invariant
            i <= 23,
            meta@.len() == i,
            forall|j: int|
                0 <= j < i ==> {
                    &&& (#[trigger] meta@[j]).page_id == j
                    &&& meta@[j].tab_color@ == page_color(j)
                    &&& meta@[j].tab_index == page_tab_index(j)
                },
        decreases 23 - i,
    {
        let name: &str = if i < 1 {
            "red"
        } else if i < 4 {
            "orange"
        } else if i < 8 {
            "lightgreen"
        } else if i < 11 {
            "green"
        } else if i < 14 {
            "lightblue"
        } else if i < 16 {
            "blue"
        } else if i < 18 {
            "purple"
        } else if i < 20 {
            "black"
        } else {
            "gold"
        };
        let tab: u8 = if i < 1 {
            i
        } else if i < 4 {
            i - 1
        } else if i < 8 {
            i - 4
        } else if i < 11 {
            i - 8
        } else if i < 14 {
            i - 11
        } else if i < 16 {
            i - 14
        } else if i < 18 {
            i - 16
        } else if i < 20 {
            i - 18
        } else {
            i - 20
        };
        meta.push(PageMetadata { page_id: i, tab_color: name.to_owned(), tab_index: tab });
        i = i + 1;
    }
    meta
}

/// The background color assigned to each tab color name; names outside the
/// catalog map to transparent black.
pub open spec fn color_for(name: Seq<char>) -> Color {
    if name == "red"@ {
        Color { r: 255, g: 102, b: 102, a: 255 }
    } else if name == "orange"@ {
        Color { r: 255, g: 187, b: 68, a: 255 }
    } else if name == "lightgreen"@ {
        Color { r: 221, g: 255, b: 102, a: 255 }
    } else if name == "green"@ {
        Color { r: 102, g: 255, b: 136, a: 255 }
    } else if name == "lightblue"@ {
        Color { r: 136, g: 255, b: 238, a: 255 }
    } else if name == "blue"@ {
        Color { r: 119, g: 187, b: 255, a: 255 }
    } else if name == "purple"@ {
        Color { r: 187, g: 119, b: 255, a: 255 }
    } else if name == "black"@ {
        Color { r: 85, g: 85, b: 85, a: 255 }
    } else if name == "gold"@ {
        Color { r: 255, g: 187, b: 34, a: 255 }
    } else {
        Color::transparent()
    }
}

/// The background color of a tab color name.
pub fn get_color(color: &str) -> (c: Color)
    ensures
        c == color_for(color@),
{
    let s = color.to_owned();
    if s == "red".to_owned() {
        Color { r: 255, g: 102, b: 102, a: 255 }
    } else if s == "orange".to_owned() {
        Color { r: 255, g: 187, b: 68, a: 255 }
    } else if s == "lightgreen".to_owned() {
        Color { r: 221, g: 255, b: 102, a: 255 }
    } else if s == "green".to_owned() {
        Color { r: 102, g: 255, b: 136, a: 255 }
    } else if s == "lightblue".to_owned() {
        Color { r: 136, g: 255, b: 238, a: 255 }
    } else if s == "blue".to_owned() {
        Color { r: 119, g: 187, b: 255, a: 255 }
    } else if s == "purple".to_owned() {
        Color { r: 187, g: 119, b: 255, a: 255 }
    } else if s == "black".to_owned() {
        Color { r: 85, g: 85, b: 85, a: 255 }
    } else if s == "gold".to_owned() {
        Color { r: 255, g: 187, b: 34, a: 255 }
    } else {
        Color { r: 0, g: 0, b: 0, a: 0 }
    }
}

/// The card in grid cell `k` (row-major, row `k / 5`, column `k % 5`) of a
/// page.
pub open spec fn card_at(page: ImageView, k: int) -> ImageView {
    crop_view(
        page,
        (k % 5) * (page.width / 5),
        (k / 5) * (page.height / 5),
        page.width / 5,
        page.height / 5,
    )
}

/// The blank scores of the first `upto` cards of one page, in cell order.
pub open spec fn page_scores_upto(page: ImageView, empty: ImageView, upto: int) -> Seq<int>
    decreases upto,
{
    if upto <= 0 {
        Seq::empty()
    } else {
        page_scores_upto(page, empty, upto - 1).push(mse_spec(card_at(page, upto - 1), empty))
    }
}

/// The blank scores of every card of the first `upto` pages, in page and
/// cell order.
pub open spec fn card_scores_upto(pages: Seq<ImageView>, empty: ImageView, upto: int) -> Seq<int>
    decreases upto,
{
    if upto <= 0 {
        Seq::empty()
    } else {
        card_scores_upto(pages, empty, upto - 1) + page_scores_upto(pages[upto - 1], empty, 25)
    }
}

/// The blank score of every card of every page.
pub open spec fn card_scores(pages: Seq<ImageView>, empty: ImageView) -> Seq<int> {
    card_scores_upto(pages, empty, pages.len() as int)
}

/// The recolored content cards among the first `upto` cells of one page:
/// cards scoring above the threshold, each put on a background of `color`.
pub open spec fn page_selected_upto(
    page: ImageView,
    empty: ImageView,
    color: Color,
    upto: int,
) -> Seq<ImageView>
    decreases upto,
{
    if upto <= 0 {
        Seq::empty()
    } else {
        let before = page_selected_upto(page, empty, color, upto - 1);
        let card = card_at(page, upto - 1);
        if mse_spec(card, empty) > CONTENT_THRESHOLD {
            before.push(recolored_view(card, color))
        } else {
            before
        }
    }
}

/// The recolored content cards of the first `upto` pages, in page and cell
/// order, each page on its own tab color.
pub open spec fn selected_cards_upto(
    pages: Seq<ImageView>,
    empty: ImageView,
    upto: int,
) -> Seq<ImageView>
    decreases upto,
{
    if upto <= 0 {
        Seq::empty()
    } else {
        selected_cards_upto(pages, empty, upto - 1) + page_selected_upto(
            pages[upto - 1],
            empty,
            color_for(page_color(upto - 1)),
            25,
        )
    }
}

/// Every card the stitching keeps: pages are consumed in catalog order, at
/// most one per catalog entry.
pub open spec fn selected_cards(pages: Seq<ImageView>, empty: ImageView) -> Seq<ImageView> {
    selected_cards_upto(
        pages,
        empty,
        if pages.len() < PAGE_COUNT {
            pages.len() as int
        } else {
            PAGE_COUNT as int
        },
    )
}

/// Why the card stitching can refuse to produce a mosaic.
#[derive(Clone, Copy, PartialEq, Eq, Structural, Debug)]
pub enum StitchError {
    /// No card scored above the content threshold; there is nothing to tile.
    EmptyInput,
}

/// The blank score of every card of every page: each page is cut into its
/// 25 cards and each card is scored against the blank reference card. This
/// is the diagnostic view used to calibrate the content threshold.
#[verifier::loop_isolation(false)]
pub fn get_empty_card_mse(images: &Vec<Image>, empty_card: &Image) -> (scores: Vec<u32>)
    requires
        empty_card@.width == 33,
        empty_card@.height == 45,
        forall|i: int|
            0 <= i < images@.len() ==> (#[trigger] images@[i]@).width == 165 && images@[i]@.height
                == 225,
    ensures
        scores@.map_values(|s: u32| s as int) == card_scores(views_of(images@), empty_card@),
{
    let ghost pviews = views_of(images@);
    let ghost e = empty_card@;
    let mut scores: Vec<u32> = Vec::new();
    let n = images.len();
    let mut p: usize = 0;
    while p < n
        invariant
            p <= n,
            scores@.map_values(|s: u32| s as int) == card_scores_upto(pviews, e, p as int),
        decreases n - p,
    {
        proof {
            assert(pviews[p as int] == images@[p as int]@);
        }
        let page_cards = crop_cards(&images[p]);
        let mut k: usize = 0;
        while k < 25
            invariant
                k <= 25,
                p < n,
                scores@.map_values(|s: u32| s as int) == card_scores_upto(pviews, e, p as int)
                    + page_scores_upto(pviews[p as int], e, k as int),
            decreases 25 - k,
        {
            proof {
                crate::raster::lemma_split_index(k as int, 5, 5);
                assert(page_cards@[k as int]@ == card_at(pviews[p as int], k as int));
            }
            let ghost old_scores = scores@;
            let score = mse(&page_cards[k], empty_card);
            scores.push(score);
            proof {
                assert(scores@.map_values(|s: u32| s as int) =~= old_scores.map_values(
                    |s: u32| s as int,
                ).push(score as int));
                Seq::push_distributes_over_add(
                    card_scores_upto(pviews, e, p as int),
                    page_scores_upto(pviews[p as int], e, k as int),
                    score as int,
                );
            }
            k = k + 1;
        }
        p = p + 1;
    }
    scores
}

/// Slice each page into its cards, drop the blank ones, recolor each
/// survivor with its page's tab color, and tile them `width` per row, in
/// page and cell order. Pages beyond the catalog are ignored. When every
/// card is blank there is nothing to tile and an error is returned instead.
#[verifier::loop_isolation(false)]
pub fn stitch_cards(images: &Vec<Image>, empty_card: &Image, width: u32) -> (result: Result<
    Image,
    StitchError,
>)
    requires
        1 <= width <= 1000,
        empty_card@.width == 33,
        empty_card@.height == 45,
        forall|i: int|
            0 <= i < images@.len() ==> (#[trigger] images@[i]@).width == 165 && images@[i]@.height
                == 225,
    ensures
        ({
            let kept = selected_cards(views_of(images@), empty_card@);
            match result {
                Ok(mosaic) => kept.len() > 0 && mosaic@ == tile_view(kept, width as int),
                Err(e) => kept.len() == 0 && e == StitchError::EmptyInput,
            }
        }),
{
    let ghost pviews = views_of(images@);
    let ghost e = empty_card@;
    let n = images.len();
    let count: usize = if n < PAGE_COUNT {
        n
    } else {
        PAGE_COUNT
    };
    let meta = page_metadata();
    let mut cards: Vec<Image> = Vec::new();
    let mut p: usize = 0;
    while p < count
        invariant
            p <= count,
            count == if pviews.len() < PAGE_COUNT {
                pviews.len() as int
            } else {
                PAGE_COUNT as int
            },
            cards@.len() <= 25 * (p as int),
            views_of(cards@) == selected_cards_upto(pviews, e, p as int),
            all_same_size(views_of(cards@), 33, 45),
        decreases count - p,
    {
        proof {
            assert(pviews[p as int] == images@[p as int]@);
        }
        let color = get_color(meta[p].tab_color.as_str());
        let ghost pcolor = color_for(page_color(p as int));
        let page_cards = crop_cards(&images[p]);
        let mut k: usize = 0;
        while k < 25
            invariant
                k <= 25,
                p < count,
                color == pcolor,
                cards@.len() <= 25 * (p as int) + k,
                views_of(cards@) == selected_cards_upto(pviews, e, p as int) + page_selected_upto(
                    pviews[p as int],
                    e,
                    pcolor,
                    k as int,
                ),
                all_same_size(views_of(cards@), 33, 45),
            decreases 25 - k,
        {
            proof {
                crate::raster::lemma_split_index(k as int, 5, 5);
                assert(page_cards@[k as int]@ == card_at(pviews[p as int], k as int));
            }
            let card = &page_cards[k];
            if is_content(card, empty_card) {
                let recolored = replace_background(card, color);
                let ghost old_cards = cards@;
                cards.push(recolored);
                proof {
                    assert(views_of(cards@) =~= views_of(old_cards).push(recolored@));
                    Seq::push_distributes_over_add(
                        selected_cards_upto(pviews, e, p as int),
                        page_selected_upto(pviews[p as int], e, pcolor, k as int),
                        recolored@,
                    );
                }
            }
            k = k + 1;
        }
        p = p + 1;
    }
    let ghost kept = selected_cards(pviews, e);
    proof {
        assert(kept == views_of(cards@));
    }
    if cards.len() == 0 {
        Err(StitchError::EmptyInput)
    } else {
        let ghost c = width as int;
        let ghost kviews = views_of(cards@);
        let ghost rows = (kviews.len() + c - 1) / c;
        proof {
            assert(kviews[0] == cards@[0]@);
            assert(kviews[0].width == 33 && kviews[0].height == 45);
            vstd::arithmetic::div_mod::lemma_fundamental_div_mod(kviews.len() + c - 1, c);
            vstd::arithmetic::div_mod::lemma_mod_bound(kviews.len() + c - 1, c);
            vstd::arithmetic::div_mod::lemma_div_pos_is_pos(kviews.len() + c - 1, c);
            crate::raster::lemma_mul_le(1, c, rows, rows);
            assert(c * rows <= kviews.len() + c - 1);
            assert(rows <= 1574);
            assert((c * 33) * (rows * 45) == 1485 * (c * rows)) by (nonlinear_arith);
            assert(tile_view(kviews, c).width == c * 33);
            assert(tile_view(kviews, c).height == rows * 45);
        }
        let mosaic = stitch_images(cards, width);
        Ok(mosaic)
    }
}

} // verus!
