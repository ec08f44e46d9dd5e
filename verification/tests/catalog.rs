use monsterbook::color::Color;
use monsterbook::utils::{get_color, page_metadata};

#[test]
fn page_metadata_has_full_catalog() {
    let meta = page_metadata();
    assert_eq!(meta.len(), 23);
    for (i, entry) in meta.iter().enumerate() {
        assert_eq!(entry.page_id as usize, i);
    }
    let expected: Vec<(&str, u8)> = vec![
        ("red", 1),
        ("orange", 3),
        ("lightgreen", 4),
        ("green", 3),
        ("lightblue", 3),
        ("blue", 2),
        ("purple", 2),
        ("black", 2),
        ("gold", 3),
    ];
    let mut page = 0usize;
    for (color, count) in expected {
        for tab in 0..count {
            assert_eq!(meta[page].tab_color, color);
            assert_eq!(meta[page].tab_index, tab);
            page += 1;
        }
    }
    assert_eq!(page, 23);
}

#[test]
fn get_color_maps_every_tab_color() {
    let cases: Vec<(&str, [u8; 4])> = vec![
        ("red", [255, 102, 102, 255]),
        ("orange", [255, 187, 68, 255]),
        ("lightgreen", [221, 255, 102, 255]),
        ("green", [102, 255, 136, 255]),
        ("lightblue", [136, 255, 238, 255]),
        ("blue", [119, 187, 255, 255]),
        ("purple", [187, 119, 255, 255]),
        ("black", [85, 85, 85, 255]),
        ("gold", [255, 187, 34, 255]),
    ];
    for (name, [r, g, b, a]) in cases {
        assert_eq!(get_color(name), Color { r, g, b, a });
    }
}

#[test]
fn get_color_unknown_name_is_transparent() {
    assert_eq!(get_color("pink"), Color { r: 0, g: 0, b: 0, a: 0 });
    assert_eq!(get_color(""), Color { r: 0, g: 0, b: 0, a: 0 });
}
