use nebulae::color::{intensity_byte, map_to_color, CURVE_ONE};
use nebulae::fixed::{fmul, isqrt, squirt, SCALE};
use nebulae::jitter_sampler::{JitterSampler, UnitValue};
use nebulae::mandelbrot::{iterate, Complex};
use nebulae::raw_image::RawImage;
use nebulae::render::{render_nebulabrot, unit_to_plane, value_to_index, worker_image, RenderState};
use nebulae::render_settings::{combine_limits, default_render_settings};

#[test]
fn fmul_truncates_toward_zero() {
    // 1.5 * 1.5 = 2.25
    assert_eq!(fmul(1_500_000, 1_500_000), 2_250_000);
    // -1.5 * 1.5 = -2.25
    assert_eq!(fmul(-1_500_000, 1_500_000), -2_250_000);
    // 0.0000015 * 0.0000015 rounds to zero from either side
    assert_eq!(fmul(1, 1), 0);
    assert_eq!(fmul(-1, 1), 0);
}

#[test]
fn integer_square_roots() {
    assert_eq!(squirt(0), 0);
    assert_eq!(squirt(1), 1);
    assert_eq!(squirt(9), 3);
    assert_eq!(squirt(10), 3);
    assert_eq!(squirt(15), 3);
    assert_eq!(squirt(16), 4);
    assert_eq!(squirt(u32::MAX), 65535);
    assert_eq!(isqrt(0), 0);
    assert_eq!(isqrt(u128::MAX), (1u128 << 64) - 1);
}

#[test]
fn sampler_yields_exactly_n_points_in_unit_square() {
    // 7 is not a perfect square, so two samples fall in the excess branch.
    let mut sampler = JitterSampler::new(7);
    let mut produced = 0;
    while let Some(p) = sampler.next() {
        assert!(p.x.den > 0 && p.x.num < p.x.den);
        assert!(p.y.den > 0 && p.y.num < p.y.den);
        produced += 1;
    }
    assert_eq!(produced, 7);
    // And the source stays exhausted.
    assert!(sampler.next().is_none());
}

#[test]
fn sampler_of_zero_yields_nothing() {
    let mut sampler = JitterSampler::new(0);
    assert!(sampler.next().is_none());
}

#[test]
fn square_count_fills_every_cell_once() {
    // With n = 3 * 3 every stratification cell must yield exactly one point
    // lying inside its own sub-rectangle.
    let k: u64 = 3;
    let mut sampler = JitterSampler::new((k * k) as u32);
    let mut hits = [0u32; 9];
    while let Some(p) = sampler.next() {
        // Recover the cell from the exact rational coordinates.
        let x_cell = p.x.num * k / p.x.den;
        let y_cell = p.y.num * k / p.y.den;
        assert!(x_cell < k && y_cell < k);
        // The point lies inside the cell's sub-rectangle.
        assert!(x_cell * p.x.den <= p.x.num * k && p.x.num * k < (x_cell + 1) * p.x.den);
        assert!(y_cell * p.y.den <= p.y.num * k && p.y.num * k < (y_cell + 1) * p.y.den);
        hits[(y_cell * k + x_cell) as usize] += 1;
    }
    assert_eq!(hits, [1u32; 9]);
}

#[test]
fn shuffled_sampler_still_fills_every_cell_once() {
    let k: u64 = 4;
    let mut sampler = JitterSampler::new((k * k) as u32);
    sampler.shuffle();
    let mut hits = [0u32; 16];
    while let Some(p) = sampler.next() {
        let x_cell = p.x.num * k / p.x.den;
        let y_cell = p.y.num * k / p.y.den;
        hits[(y_cell * k + x_cell) as usize] += 1;
    }
    assert_eq!(hits, [1u32; 16]);
}

#[test]
fn trace_limit_zero_is_empty_and_bounded() {
    let z0 = Complex { re: 0, im: 0 };
    let c = Complex { re: 2_000_000, im: 2_000_000 };
    let (zs, escaped) = iterate(z0, c, 0, 2 * SCALE, 3 * SCALE);
    assert!(zs.is_empty());
    assert!(!escaped);
}

#[test]
fn far_parameter_escapes_quickly() {
    let z0 = Complex { re: 0, im: 0 };
    let c = Complex { re: 2_000_000, im: 2_000_000 };
    for limit in 1..6u32 {
        let (zs, escaped) = iterate(z0, c, limit, 2 * SCALE, 3 * SCALE);
        assert!(escaped);
        assert!(!zs.is_empty());
        assert!(zs.len() <= limit as usize);
    }
    // The second iterate already passes the stop radius.
    let (zs, _) = iterate(z0, c, 5, 2 * SCALE, 3 * SCALE);
    assert_eq!(zs.len(), 2);
    assert_eq!((zs[0].re, zs[0].im), (2_000_000, 2_000_000));
    assert_eq!((zs[1].re, zs[1].im), (2_000_000, 10_000_000));
}

#[test]
fn zero_parameter_stays_at_the_fixed_point() {
    let z0 = Complex { re: 0, im: 0 };
    let c = Complex { re: 0, im: 0 };
    let (zs, escaped) = iterate(z0, c, 25, 2 * SCALE, 3 * SCALE);
    assert!(!escaped);
    assert_eq!(zs.len(), 25);
    for z in zs {
        assert_eq!((z.re, z.im), (0, 0));
    }
}

#[test]
fn bounded_parameter_runs_to_the_limit() {
    // c = -1 cycles between 0 and -1 and never escapes.
    let z0 = Complex { re: 0, im: 0 };
    let c = Complex { re: -1_000_000, im: 0 };
    let (zs, escaped) = iterate(z0, c, 40, 2 * SCALE, 3 * SCALE);
    assert!(!escaped);
    assert_eq!(zs.len(), 40);
}

#[test]
fn bumps_to_one_cell_count_exactly() {
    let mut img = RawImage::new(4, 4);
    for _ in 0..17 {
        img.bump(2, 3, 1);
    }
    let data = img.get_data();
    let index = (2 * 4 + 3) * 3 + 1;
    assert_eq!(data[index], 17);
    assert_eq!(data.iter().sum::<u32>(), 17);
    assert_eq!(img.get_maximum(), 17);
}

#[test]
fn maximum_tracks_the_brightest_cell() {
    let mut img = RawImage::new(2, 2);
    for _ in 0..5 {
        img.bump(0, 0, 0);
    }
    for _ in 0..9 {
        img.bump(1, 1, 2);
    }
    for _ in 0..3 {
        img.bump(0, 1, 1);
    }
    assert_eq!(img.get_maximum(), 9);
}

#[test]
fn merge_adds_partial_histograms_cell_by_cell() {
    // Increments split between two partial histograms and merged at a pass
    // boundary land exactly once each, whatever the interleaving was.
    let mut a = RawImage::new(2, 2);
    let mut b = RawImage::new(2, 2);
    for _ in 0..4 {
        a.bump(0, 0, 0);
    }
    for _ in 0..6 {
        b.bump(0, 0, 0);
    }
    b.bump(1, 0, 2);
    a.merge(&b);
    let data = a.get_data();
    assert_eq!(data[0], 10);
    assert_eq!(data[(1 * 2 + 0) * 3 + 2], 1);
    assert_eq!(data.iter().sum::<u32>(), 11);
    assert_eq!(a.get_maximum(), 10);
}

#[test]
fn linear_curve_maps_extremes_exactly() {
    assert_eq!(intensity_byte(100, 100, CURVE_ONE), 255);
    assert_eq!(intensity_byte(0, 100, CURVE_ONE), 0);
    // floor(256 * 50 / 100) = 128
    assert_eq!(intensity_byte(50, 100, CURVE_ONE), 128);
    // floor(256 * 1 / 3) = 85
    assert_eq!(intensity_byte(1, 3, CURVE_ONE), 85);
}

#[test]
fn square_root_curve_lifts_dark_cells() {
    // (1/4) ^ 0.5 = 1/2, so the byte is floor(256 / 2) = 128.
    assert_eq!(intensity_byte(1, 4, CURVE_ONE / 2), 128);
    // A cell at the maximum maps to full intensity under any curve.
    assert_eq!(intensity_byte(7, 7, CURVE_ONE / 2), 255);
    assert_eq!(intensity_byte(7, 7, 3 * CURVE_ONE), 255);
}

#[test]
fn integer_curve_exponents_square_the_ratio() {
    // (1/2) ^ 2 = 1/4, so the byte is floor(256 / 4) = 64.
    assert_eq!(intensity_byte(2, 4, 2 * CURVE_ONE), 64);
    // (1/2) ^ 1.5 = 1/(2 * sqrt(2)); floor(256 / (2 * sqrt(2))) = 90.
    assert_eq!(intensity_byte(2, 4, CURVE_ONE + CURVE_ONE / 2), 90);
}

#[test]
fn isqrt_at_the_power_boundaries() {
    assert_eq!(isqrt(1u128 << 64), 1u128 << 32);
    assert_eq!(isqrt((1u128 << 64) - 1), (1u128 << 32) - 1);
}

#[test]
fn zero_maximum_yields_black_buffer_of_right_length() {
    let data = vec![0u32, 5, 17, 0, 3, 9];
    let out = map_to_color(&data, 0, CURVE_ONE);
    assert_eq!(out.len(), data.len());
    assert!(out.iter().all(|&b| b == 0));
}

#[test]
fn map_to_color_is_pointwise() {
    let data = vec![0u32, 25, 50, 75, 100];
    let out = map_to_color(&data, 100, CURVE_ONE);
    assert_eq!(out, vec![0, 64, 128, 192, 255]);
}

#[test]
fn projection_of_the_standard_viewport() {
    // Bound [-2, 2] with 100 pixels, in fixed-point steps of 1e-6.
    let lo = -2_000_000;
    let hi = 2_000_000;
    assert_eq!(value_to_index(-2_000_000, lo, hi, 100), Some(0));
    assert_eq!(value_to_index(1_999_000, lo, hi, 100), Some(99));
    assert_eq!(value_to_index(2_000_000, lo, hi, 100), None);
    assert_eq!(value_to_index(-2_000_001, lo, hi, 100), None);
    assert_eq!(value_to_index(0, lo, hi, 100), Some(50));
}

#[test]
fn degenerate_bounds_never_project() {
    for v in [-2_000_000i64, 0, 1, 2_000_000] {
        assert_eq!(value_to_index(v, 5, 5, 100), None);
        assert_eq!(value_to_index(v, 0, 0, 100), None);
    }
}

#[test]
fn unit_coordinates_span_the_parameter_region() {
    assert_eq!(unit_to_plane(UnitValue { num: 0, den: 1_000_000 }), -2_500_000);
    assert_eq!(unit_to_plane(UnitValue { num: 500_000, den: 1_000_000 }), 0);
    assert_eq!(unit_to_plane(UnitValue { num: 999_999, den: 1_000_000 }), 2_499_995);
    assert_eq!(unit_to_plane(UnitValue { num: 1, den: 2 }), 0);
}

#[test]
fn default_settings_are_the_wizard_defaults() {
    let s = default_render_settings();
    assert_eq!(s.limits, [7_740, 2_580, 860]);
    assert_eq!(s.samples, 1_000_000);
    assert_eq!(s.threads, None);
    assert_eq!(s.passes, 100);
    assert_eq!(s.size, 2048);
    assert_eq!(s.curve, CURVE_ONE / 2);
}

#[test]
fn combine_limits_orders_channels() {
    let limits = combine_limits([215, 645, 1_935], [2, 1, 0], 4);
    assert_eq!(limits, [7_740, 2_580, 860]);
    let limits = combine_limits([400, 800, 1_600], [0, 1, 2], 2);
    assert_eq!(limits, [800, 1_600, 3_200]);
}

#[test]
fn a_small_render_produces_a_consistent_histogram() {
    let mut settings = default_render_settings();
    settings.size = 16;
    settings.samples = 200;
    settings.passes = 2;
    settings.limits = [30, 20, 10];
    let (data, maximum) = render_nebulabrot(&settings);
    assert_eq!(data.len(), 16 * 16 * 3);
    assert!(data.iter().all(|&c| c <= maximum));
    // Samples cover the whole parameter region, so something escapes and
    // lands in the viewport.
    assert!(maximum > 0);
}

#[test]
fn passes_advance_the_state_machine_to_finished() {
    let mut settings = default_render_settings();
    settings.size = 8;
    settings.samples = 50;
    settings.passes = 3;
    settings.limits = [12, 9, 6];
    let mut state = RenderState::new(settings);
    let mut passes = 0;
    while !state.is_finished() {
        state.run_pass();
        passes += 1;
    }
    assert_eq!(passes, 3);
    let (data, maximum) = state.snapshot();
    assert_eq!(data.len(), 8 * 8 * 3);
    assert!(data.iter().all(|&c| c <= maximum));
}

#[test]
fn partial_histograms_merge_into_the_shared_state() {
    let mut settings = default_render_settings();
    settings.size = 8;
    settings.samples = 80;
    settings.passes = 1;
    settings.limits = [12, 9, 6];
    let mut state = RenderState::new(settings);
    for channel in 0..3 {
        let part = worker_image(8, channel, settings.limits[channel as usize], settings.samples);
        state.merge_partial(&part);
    }
    let (data, maximum) = state.snapshot();
    assert_eq!(data.len(), 8 * 8 * 3);
    assert!(data.iter().all(|&c| c <= maximum));
}
