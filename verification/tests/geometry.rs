use monsterbook::color::Color;
use monsterbook::crop::{crop, crop_cards, pad_image, replace_background, slice_grid};
use monsterbook::raster::Image;

fn patterned(width: u32, height: u32) -> Image {
    let mut data = Vec::new();
    for y in 0..height {
        for x in 0..width {
            data.push((x % 256) as u8);
            data.push((y % 256) as u8);
            data.push(((x + y) % 256) as u8);
            data.push(255);
        }
    }
    Image::from_raw(width, height, data).unwrap()
}

fn pattern_pixel(x: u32, y: u32) -> Color {
    Color { r: (x % 256) as u8, g: (y % 256) as u8, b: ((x + y) % 256) as u8, a: 255 }
}

#[test]
fn crop_region_returns_exact_rectangle() {
    let img = patterned(8, 6);
    let out = img.crop_region(2, 1, 4, 3);
    assert_eq!(out.width(), 4);
    assert_eq!(out.height(), 3);
    for y in 0..3 {
        for x in 0..4 {
            assert_eq!(out.get_pixel(x, y), pattern_pixel(2 + x, 1 + y));
        }
    }
}

#[test]
fn crop_uses_fixed_page_geometry() {
    let img = patterned(400, 400);
    let page = crop(&img, 10, 20);
    assert_eq!(page.width(), 165);
    assert_eq!(page.height(), 225);
    for y in 0..225 {
        for x in 0..165 {
            assert_eq!(page.get_pixel(x, y), pattern_pixel(10 + x, 20 + y));
        }
    }
}

#[test]
fn slice_grid_covers_row_major() {
    let img = patterned(10, 9);
    let cells = slice_grid(&img, 3, 4);
    assert_eq!(cells.len(), 12);
    let (cw, ch) = (10 / 4, 9 / 3);
    for i in 0..3u32 {
        for j in 0..4u32 {
            let cell = &cells[(i * 4 + j) as usize];
            assert_eq!(cell.width(), cw);
            assert_eq!(cell.height(), ch);
            for y in 0..ch {
                for x in 0..cw {
                    assert_eq!(cell.get_pixel(x, y), pattern_pixel(j * cw + x, i * ch + y));
                }
            }
        }
    }
}

#[test]
fn crop_cards_cuts_five_by_five() {
    let page = patterned(165, 225);
    let cards = crop_cards(&page);
    assert_eq!(cards.len(), 25);
    for card in &cards {
        assert_eq!(card.width(), 33);
        assert_eq!(card.height(), 45);
    }
    assert_eq!(cards[7].get_pixel(0, 0), pattern_pixel(2 * 33, 45));
}

#[test]
fn pad_image_fills_with_transparent() {
    let small = patterned(3, 2);
    let reference = patterned(5, 4);
    let padded = pad_image(&small, &reference);
    assert_eq!(padded.width(), 5);
    assert_eq!(padded.height(), 4);
    for y in 0..4 {
        for x in 0..5 {
            let expected = if x < 3 && y < 2 {
                pattern_pixel(x, y)
            } else {
                Color { r: 0, g: 0, b: 0, a: 0 }
            };
            assert_eq!(padded.get_pixel(x, y), expected);
        }
    }
}

#[test]
fn pad_image_clips_larger_input() {
    let big = patterned(7, 6);
    let reference = patterned(4, 3);
    let padded = pad_image(&big, &reference);
    assert_eq!(padded.width(), 4);
    assert_eq!(padded.height(), 3);
    for y in 0..3 {
        for x in 0..4 {
            assert_eq!(padded.get_pixel(x, y), pattern_pixel(x, y));
        }
    }
}

#[test]
fn replace_background_keeps_inset_only() {
    let card = patterned(33, 45);
    let color = Color { r: 9, g: 8, b: 7, a: 255 };
    let out = replace_background(&card, color);
    assert_eq!(out.width(), 33);
    assert_eq!(out.height(), 45);
    for y in 0..45 {
        for x in 0..33 {
            let inside = (3..30).contains(&x) && (4..42).contains(&y);
            let expected = if inside { pattern_pixel(x, y) } else { color };
            assert_eq!(out.get_pixel(x, y), expected);
        }
    }
}

#[test]
fn overlay_copies_pixels_verbatim() {
    let bottom = Image::filled(6, 5, Color { r: 1, g: 1, b: 1, a: 255 });
    let top = patterned(2, 2);
    let out = bottom.overlay(&top, 3, 2);
    for y in 0..5 {
        for x in 0..6 {
            let expected = if (3..5).contains(&x) && (2..4).contains(&y) {
                pattern_pixel(x - 3, y - 2)
            } else {
                Color { r: 1, g: 1, b: 1, a: 255 }
            };
            assert_eq!(out.get_pixel(x, y), expected);
        }
    }
}

#[test]
fn from_raw_rejects_wrong_length() {
    assert!(Image::from_raw(2, 2, vec![0u8; 15]).is_none());
    assert!(Image::from_raw(2, 2, vec![0u8; 16]).is_some());
}
