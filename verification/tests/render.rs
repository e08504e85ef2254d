use lib::map_format::Tile;
use lib::render::crop_to_fit_nonair_tiles;
use lib::render::entity_name;
use lib::render::sanitize;
use lib::render::scale_tile_len;
use lib::render::transform_coordinates;
use lib::render::Color;
use lib::render::Rect;
use lib::render::TileGrid;

fn tile(index: u8) -> Tile {
    Tile { index, flags: 0, skip: 0, reserved: 0 }
}

#[test]
fn rect_sizes() {
    let r = Rect { min_x: 2, min_y: 3, max_x: 10, max_y: 4 };
    assert_eq!(r.width(), 8);
    assert_eq!(r.height(), 1);
    assert!(!r.is_empty());
    assert!(Rect { min_x: 2, min_y: 3, max_x: 2, max_y: 4 }.is_empty());
}

#[test]
fn colors() {
    let white = Color::white();
    let half = Color { red: 128, green: 0, blue: 255, alpha: 128 };
    assert_eq!(white.mask(half), half);
    assert_eq!(half.mask(Color::transparent()), Color::transparent());
    assert_eq!(half.mask(half), Color { red: 64, green: 0, blue: 255, alpha: 64 });
    // An opaque color covers what is below it.
    assert_eq!(half.overlay_with(white), white);
    // A transparent one leaves it.
    assert_eq!(half.overlay_with(Color::transparent()), half);
    // Half-transparent white over opaque black.
    let black = Color { red: 0, green: 0, blue: 0, alpha: 255 };
    let grey = black.overlay_with(Color { red: 255, green: 255, blue: 255, alpha: 128 });
    assert_eq!(grey, Color { red: 128, green: 128, blue: 128, alpha: 255 });
    assert_eq!(Color::transparent().overlay_with(Color::transparent()), Color::transparent());
}

#[test]
fn transform() {
    assert_eq!(transform_coordinates((1, 2), false, false, false, 4), (1, 2));
    assert_eq!(transform_coordinates((1, 2), true, false, false, 4), (1, 1));
    assert_eq!(transform_coordinates((1, 2), false, true, false, 4), (1, 1));
    assert_eq!(transform_coordinates((1, 2), false, false, true, 4), (2, 2));
    assert_eq!(transform_coordinates((0, 3), true, true, true, 4), (3, 3));
}

#[test]
fn names() {
    assert_eq!(sanitize("grass_main"), Some("grass_main"));
    assert_eq!(sanitize("../etc"), None);
    assert_eq!(sanitize("a\\b"), None);
    assert_eq!(entity_name(0x01), Some("Coll"));
    assert_eq!(entity_name(0xca), Some("Lase"));
    assert_eq!(entity_name(0x04), None);
}

#[test]
fn scaling() {
    let crop = Rect { min_x: 0, min_y: 0, max_x: 10, max_y: 10 };
    // 64 * 64 * 100 = 409600 <= 16 * 200 * 200 = 640000.
    assert_eq!(scale_tile_len(&crop, 200), 64);
    // 64 * 64 * 100 > 16 * 100 * 100 = 160000, 32 * 32 * 100 = 102400 fits.
    assert_eq!(scale_tile_len(&crop, 100), 32);
    assert_eq!(scale_tile_len(&crop, 0), 1);
}

#[test]
fn cropping() {
    let a = TileGrid { width: 3, height: 2, tiles: vec![tile(0), tile(0), tile(0), tile(0), tile(1), tile(0)] };
    let b = TileGrid { width: 3, height: 2, tiles: vec![tile(0), tile(0), tile(2), tile(0), tile(0), tile(0)] };
    let crop = crop_to_fit_nonair_tiles(&[a]);
    assert_eq!(crop, Rect { min_x: 1, min_y: 1, max_x: 2, max_y: 2 });
    let a = TileGrid { width: 3, height: 2, tiles: vec![tile(0), tile(0), tile(0), tile(0), tile(1), tile(0)] };
    let crop = crop_to_fit_nonair_tiles(&[a, b]);
    assert_eq!(crop, Rect { min_x: 1, min_y: 0, max_x: 3, max_y: 2 });
    let air = TileGrid { width: 1, height: 1, tiles: vec![tile(0)] };
    assert!(crop_to_fit_nonair_tiles(&[air]).is_empty());
}
