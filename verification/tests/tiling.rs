use tilemark::config::Config;
use tilemark::walker::{tile_origins, touched_positions};
use tilemark::watermark::Watermark;

fn stencil_from_mask(width: u32, height: u32, ink: &[bool]) -> Watermark {
    let mut rgb: Vec<u8> = Vec::new();
    for &is_ink in ink {
        let byte = if is_ink { 0 } else { 255 };
        rgb.push(byte);
        rgb.push(byte);
        rgb.push(byte);
    }
    Watermark::from_rgb(width, height, &rgb)
}

#[test]
fn from_rgb_marks_black_pixels_as_ink() {
    let rgb: Vec<u8> = vec![
        0, 0, 0, // ink
        255, 255, 255, // blank
        0, 0, 0, // ink
        7, 0, 0, // not fully black: blank
    ];
    let stencil = Watermark::from_rgb(2, 2, &rgb);
    assert_eq!(stencil.width(), 2);
    assert_eq!(stencil.height(), 2);
    assert_eq!(stencil.data(), &[true, false, true, false]);
}

#[test]
fn iterator_yields_blocks_in_order_and_then_none() {
    let stencil = stencil_from_mask(2, 2, &[true, false, false, true]);
    let mut it = stencil.get_iter((100, 200), 2);
    // ink pixel (0, 0): block rows at (100, 200)
    assert_eq!(it.next(), Some((100, 200)));
    assert_eq!(it.next(), Some((101, 200)));
    assert_eq!(it.next(), Some((100, 201)));
    assert_eq!(it.next(), Some((101, 201)));
    // ink pixel (1, 1): block rows at (102, 202)
    assert_eq!(it.next(), Some((102, 202)));
    assert_eq!(it.next(), Some((103, 202)));
    assert_eq!(it.next(), Some((102, 203)));
    assert_eq!(it.next(), Some((103, 203)));
    assert_eq!(it.next(), None);
    assert_eq!(it.next(), None);
}

#[test]
fn scale_one_yields_exactly_shifted_ink_pixels() {
    let stencil = stencil_from_mask(2, 2, &[true, false, false, true]);
    let coords = stencil.tile_positions((10, 20), 1);
    assert_eq!(coords, vec![(10, 20), (11, 21)]);
}

#[test]
fn coordinate_count_is_ink_times_scale_squared() {
    let stencil = stencil_from_mask(3, 2, &[true, false, true, false, false, false]);
    for scale in 1..5u32 {
        let coords = stencil.tile_positions((0, 0), scale);
        assert_eq!(coords.len() as u32, 2 * scale * scale);
    }
}

#[test]
fn coordinates_stay_in_the_magnified_bounding_box() {
    let stencil = stencil_from_mask(3, 2, &[true, true, true, true, true, true]);
    let (ox, oy) = (50u32, 60u32);
    let scale = 3u32;
    let coords = stencil.tile_positions((ox, oy), scale);
    assert_eq!(coords.len() as u32, 6 * scale * scale);
    for &(x, y) in coords.iter() {
        assert!(ox <= x && x < ox + 3 * scale);
        assert!(oy <= y && y < oy + 2 * scale);
    }
}

#[test]
fn stencil_without_ink_yields_nothing() {
    let stencil = stencil_from_mask(2, 2, &[false, false, false, false]);
    assert_eq!(stencil.tile_positions((0, 0), 1), vec![]);
    assert_eq!(stencil.tile_positions((123, 456), 7), vec![]);
}

#[test]
fn grid_covers_canvas_with_one_extra_tile() {
    let config = Config { offset: 0, watermark_interval: 4, scale: 2 };
    let origins = tile_origins(4, 4, &config);
    assert_eq!(origins, vec![(0, 0), (0, 4), (4, 0), (4, 4)]);
}

#[test]
fn grid_applies_offset_and_interval() {
    let config = Config { offset: 3, watermark_interval: 10, scale: 1 };
    let origins = tile_origins(15, 9, &config);
    // two columns (15 / 10 + 1), one row (9 / 10 + 1)
    assert_eq!(origins, vec![(3, 3), (13, 3)]);
}

#[test]
fn walk_touches_only_the_clipped_block() {
    // one ink pixel at (0, 0) of a 2x2 stencil, magnified to a 2x2 block
    let stencil = stencil_from_mask(2, 2, &[true, false, false, false]);
    let config = Config { offset: 0, watermark_interval: 4, scale: 2 };
    let touched = touched_positions(&stencil, 4, 4, &config);
    assert_eq!(touched, vec![(0, 0), (1, 0), (0, 1), (1, 1)]);
}

#[test]
fn walk_keeps_tile_order_and_discards_offcanvas_tiles() {
    let stencil = stencil_from_mask(1, 1, &[true]);
    let config = Config { offset: 0, watermark_interval: 2, scale: 1 };
    let touched = touched_positions(&stencil, 3, 3, &config);
    // the single ink pixel lands at each grid origin, in column-major walk
    // order, and all four origins lie on the 3x3 canvas
    assert_eq!(touched, vec![(0, 0), (0, 2), (2, 0), (2, 2)]);
}

#[test]
fn default_config_matches_documented_values() {
    let config = Config::default();
    assert_eq!(config.offset, 0);
    assert_eq!(config.watermark_interval, 400);
    assert_eq!(config.scale, 2);
}

#[test]
fn iterator_new_starts_at_the_first_ink_pixel() {
    let stencil = stencil_from_mask(2, 1, &[false, true]);
    let mut it = tilemark::watermark::WatermarkIterator::new((5, 6), 1, &stencil);
    assert_eq!(it.next(), Some((6, 6)));
    assert_eq!(it.next(), None);
}
