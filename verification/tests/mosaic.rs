use monsterbook::color::Color;
use monsterbook::raster::Image;
use monsterbook::stitch::stitch_images;
use monsterbook::utils::{stitch_cards, StitchError};

fn solid(width: u32, height: u32, c: Color) -> Image {
    Image::filled(width, height, c)
}

fn shade(i: u8) -> Color {
    Color { r: i, g: i.wrapping_mul(2), b: 255 - i, a: 255 }
}

#[test]
fn tile_single_image_is_identity() {
    let mut data = Vec::new();
    for y in 0..5u32 {
        for x in 0..4u32 {
            data.extend_from_slice(&[x as u8, y as u8, (x * y) as u8, 255]);
        }
    }
    let img = Image::from_raw(4, 5, data).unwrap();
    let out = stitch_images(vec![img.crop_region(0, 0, 4, 5)], 1);
    assert_eq!(out.width(), 4);
    assert_eq!(out.height(), 5);
    for y in 0..5 {
        for x in 0..4 {
            assert_eq!(out.get_pixel(x, y), img.get_pixel(x, y));
        }
    }
}

#[test]
fn tile_twenty_seven_cards_in_six_columns() {
    let cards: Vec<Image> = (0..27).map(|i| solid(64, 48, shade(i as u8))).collect();
    let out = stitch_images(cards, 6);
    assert_eq!(out.width(), 384);
    assert_eq!(out.height(), 240);
    for i in 0..27u32 {
        let (row, col) = (i / 6, i % 6);
        let x = col * 64 + 10;
        let y = row * 48 + 10;
        assert_eq!(out.get_pixel(x, y), shade(i as u8));
    }
    // The 27th card sits in row 4, column 2; the two cells after it stay
    // transparent.
    assert_eq!(out.get_pixel(2 * 64, 4 * 48), shade(26));
    for col in 3..6u32 {
        assert_eq!(
            out.get_pixel(col * 64 + 10, 4 * 48 + 10),
            Color { r: 0, g: 0, b: 0, a: 0 }
        );
    }
}

#[test]
fn tile_keeps_row_major_order() {
    let cards: Vec<Image> = (0..5).map(|i| solid(2, 3, shade(40 + i as u8))).collect();
    let out = stitch_images(cards, 2);
    assert_eq!(out.width(), 4);
    assert_eq!(out.height(), 9);
    assert_eq!(out.get_pixel(0, 0), shade(40));
    assert_eq!(out.get_pixel(2, 0), shade(41));
    assert_eq!(out.get_pixel(0, 3), shade(42));
    assert_eq!(out.get_pixel(2, 3), shade(43));
    assert_eq!(out.get_pixel(0, 6), shade(44));
    assert_eq!(out.get_pixel(2, 6), Color { r: 0, g: 0, b: 0, a: 0 });
}

fn page_with_one_dark_card() -> Image {
    // A white page whose top-left card is solid black: only that card
    // scores above the content threshold against a white blank card.
    let mut data = Vec::new();
    for y in 0..225u32 {
        for x in 0..165u32 {
            if x < 33 && y < 45 {
                data.extend_from_slice(&[0, 0, 0, 255]);
            } else {
                data.extend_from_slice(&[255, 255, 255, 255]);
            }
        }
    }
    Image::from_raw(165, 225, data).unwrap()
}

#[test]
fn stitch_cards_keeps_content_and_recolors() {
    let page = page_with_one_dark_card();
    let empty = solid(33, 45, Color { r: 255, g: 255, b: 255, a: 255 });
    let mosaic = stitch_cards(&vec![page], &empty, 6).unwrap();
    // One surviving card tiled six per row: a single partial row.
    assert_eq!(mosaic.width(), 198);
    assert_eq!(mosaic.height(), 45);
    // The first page's tab color is red; outside the inset the card is
    // repainted with it.
    let red = Color { r: 255, g: 102, b: 102, a: 255 };
    assert_eq!(mosaic.get_pixel(0, 0), red);
    assert_eq!(mosaic.get_pixel(32, 44), red);
    // Inside the inset the card keeps its own pixels.
    assert_eq!(mosaic.get_pixel(3, 4), Color { r: 0, g: 0, b: 0, a: 255 });
    assert_eq!(mosaic.get_pixel(29, 41), Color { r: 0, g: 0, b: 0, a: 255 });
    // Cells after the only card stay transparent.
    assert_eq!(mosaic.get_pixel(40, 10), Color { r: 0, g: 0, b: 0, a: 0 });
}

#[test]
fn stitch_cards_refuses_all_blank_pages() {
    let empty = solid(33, 45, Color { r: 255, g: 255, b: 255, a: 255 });
    let blank_page = solid(165, 225, Color { r: 255, g: 255, b: 255, a: 255 });
    let result = stitch_cards(&vec![blank_page], &empty, 6);
    assert!(matches!(result, Err(StitchError::EmptyInput)));
}

#[test]
fn stitch_cards_ignores_pages_beyond_catalog() {
    let empty = solid(33, 45, Color { r: 255, g: 255, b: 255, a: 255 });
    let mut pages = Vec::new();
    for _ in 0..24 {
        pages.push(page_with_one_dark_card());
    }
    let mosaic = stitch_cards(&pages, &empty, 6).unwrap();
    // 23 catalog pages contribute one card each; the 24th page is ignored.
    // Four full rows of six, then a partial row.
    assert_eq!(mosaic.width(), 198);
    assert_eq!(mosaic.height(), 4 * 45);
}
