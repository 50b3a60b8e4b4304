use noise::{Abs, NoiseFn, Perlin};
use rand::rngs::StdRng;
use rand::SeedableRng;
use tilemark::config::Config;
use tilemark::modulate::{
    apply_channel, channel_raw_effect, channel_upper_bound, modulate_pixel, pixel_index,
    HEADROOM_DIVISOR,
};
use tilemark::walker::touched_positions;
use tilemark::watermark::Watermark;

#[test]
fn upper_bound_is_four_fifths_of_headroom() {
    assert_eq!(channel_upper_bound(0, 5), 204); // 255 - 255 / 5
    assert_eq!(channel_upper_bound(155, 5), 80); // 100 - 20
    assert_eq!(channel_upper_bound(251, 5), 4); // 4 - 0
    assert_eq!(channel_upper_bound(255, 5), 0);
    assert_eq!(channel_upper_bound(155, 4), 75); // the 3/4 variant
}

#[test]
fn draw_stays_strictly_below_the_upper_bound() {
    let mut rng = StdRng::seed_from_u64(7);
    for _ in 0..200 {
        let raw = channel_raw_effect(&mut rng, 0, HEADROOM_DIVISOR);
        assert!(raw < 204);
    }
}

#[test]
fn saturated_channel_gets_zero_effect() {
    let mut rng = StdRng::seed_from_u64(7);
    for _ in 0..20 {
        assert_eq!(channel_raw_effect(&mut rng, 255, HEADROOM_DIVISOR), 0);
    }
    // headroom too small for the rule to leave any room
    for _ in 0..20 {
        assert_eq!(channel_raw_effect(&mut rng, 255, 1), 0);
        assert_eq!(channel_raw_effect(&mut rng, 254, 1), 0);
    }
}

#[test]
fn draws_are_deterministic_for_a_fixed_seed() {
    let mut a = StdRng::seed_from_u64(42);
    let mut b = StdRng::seed_from_u64(42);
    for v in 0..=255u8 {
        assert_eq!(
            channel_raw_effect(&mut a, v, HEADROOM_DIVISOR),
            channel_raw_effect(&mut b, v, HEADROOM_DIVISOR)
        );
    }
}

#[test]
fn apply_adds_within_headroom_and_wraps_beyond_it() {
    assert_eq!(apply_channel(100, 0), 100);
    assert_eq!(apply_channel(100, 55), 155);
    assert_eq!(apply_channel(200, 55), 255);
    // beyond the headroom the additive rule wraps rather than saturates
    assert_eq!(apply_channel(200, 100), 44);
}

#[test]
fn pixel_index_walks_rows_with_the_right_stride() {
    assert_eq!(pixel_index(2, 1, 4, false), (1 * 4 + 2) * 3);
    assert_eq!(pixel_index(2, 1, 4, true), (1 * 4 + 2) * 4);
    assert_eq!(pixel_index(0, 0, 4, true), 0);
}

#[test]
fn modulate_pixel_touches_one_pixel_and_forces_alpha() {
    let mut buf: Vec<u8> = vec![10; 4 * 4 * 4];
    modulate_pixel(&mut buf, 1, 2, 4, true, (1, 2, 3));
    let base = (2 * 4 + 1) * 4;
    for (i, &b) in buf.iter().enumerate() {
        if i == base {
            assert_eq!(b, 11);
        } else if i == base + 1 {
            assert_eq!(b, 12);
        } else if i == base + 2 {
            assert_eq!(b, 13);
        } else if i == base + 3 {
            assert_eq!(b, 255);
        } else {
            assert_eq!(b, 10);
        }
    }
}

fn stencil_with_single_ink() -> Watermark {
    // 2x2 stencil, ink only at (0, 0)
    let rgb: Vec<u8> = vec![0, 0, 0, 255, 255, 255, 255, 255, 255, 255, 255, 255];
    Watermark::from_rgb(2, 2, &rgb)
}

fn run_watermark(
    buf: &mut Vec<u8>,
    width: u32,
    height: u32,
    has_alpha: bool,
    stencil: &Watermark,
    config: &Config,
    rng_seed: u64,
    noise_seeds: [u32; 4],
) {
    let mut rng = StdRng::seed_from_u64(rng_seed);
    let fields = [
        Abs::new(Perlin::new(noise_seeds[0])),
        Abs::new(Perlin::new(noise_seeds[1])),
        Abs::new(Perlin::new(noise_seeds[2])),
        Abs::new(Perlin::new(noise_seeds[3])),
    ];
    let x_count = 1 + width / config.watermark_interval;
    let y_count = 1 + height / config.watermark_interval;
    let macro_freq = (x_count.max(y_count) * 4) as f64 / width.max(height) as f64;
    let micro_freq =
        stencil.width().max(stencil.height()) as f64 / (width.max(height) * 5) as f64;
    let touched = touched_positions(stencil, width, height, config);
    for &(x, y) in touched.iter() {
        let base = pixel_index(x, y, width, has_alpha);
        let macro_strength =
            fields[3].get([x as f64 * macro_freq, y as f64 * macro_freq]).sqrt();
        let mut applied = [0u8; 3];
        for (c, slot) in applied.iter_mut().enumerate() {
            let v = buf[base + c];
            let raw = channel_raw_effect(&mut rng, v, HEADROOM_DIVISOR);
            let strength = macro_strength
                * fields[c].get([x as f64 * micro_freq, y as f64 * micro_freq]).sqrt();
            *slot = (raw as f64 * strength) as u8;
        }
        modulate_pixel(buf, x, y, width, has_alpha, (applied[0], applied[1], applied[2]));
    }
}

#[test]
fn white_canvas_run_only_forces_alpha_inside_the_block() {
    // 4x4 all-white RGBA canvas with translucent alpha
    let mut buf: Vec<u8> = Vec::new();
    for _ in 0..16 {
        buf.extend_from_slice(&[255, 255, 255, 128]);
    }
    let stencil = stencil_with_single_ink();
    let config = Config { offset: 0, watermark_interval: 4, scale: 2 };
    run_watermark(&mut buf, 4, 4, true, &stencil, &config, 1, [2, 3, 4, 5]);

    for y in 0..4u32 {
        for x in 0..4u32 {
            let base = ((y * 4 + x) * 4) as usize;
            // white channels have no headroom, so they never change
            assert_eq!(&buf[base..base + 3], &[255, 255, 255]);
            if x < 2 && y < 2 {
                assert_eq!(buf[base + 3], 255, "touched pixel must become opaque");
            } else {
                assert_eq!(buf[base + 3], 128, "untouched pixel must keep its alpha");
            }
        }
    }
}

#[test]
fn fixed_seeds_reproduce_the_same_bytes() {
    let stencil = stencil_with_single_ink();
    let config = Config { offset: 0, watermark_interval: 8, scale: 2 };
    let start: Vec<u8> = vec![100; 8 * 8 * 3];

    let mut first = start.clone();
    run_watermark(&mut first, 8, 8, false, &stencil, &config, 42, [9, 8, 7, 6]);
    let mut second = start.clone();
    run_watermark(&mut second, 8, 8, false, &stencil, &config, 42, [9, 8, 7, 6]);
    assert_eq!(first, second);

    // another seed may brighten differently, but never darkens a channel
    let mut third = start.clone();
    run_watermark(&mut third, 8, 8, false, &stencil, &config, 43, [1, 2, 3, 4]);
    for &b in third.iter() {
        assert!(b >= 100);
    }
}
