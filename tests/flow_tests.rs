use rustflow::arith::{clamp_exec, div_floor_exec, isqrt};
use rustflow::flow::FLOW_LIMIT;
use rustflow::interp::{bicubic_exec, SUBPIXEL};
use rustflow::pyramid::build_pyramid;
use rustflow::raster::{smooth, warp, MAX_INTENSITY};
use rustflow::solver::{estimate, estimate_images, scaled_alpha_exec};
use rustflow::{coarse2fine_flow, ColorMode, Flow, FlowError, Fraction, ImageBuf, SolverParams};

fn texture(i: f64, j: f64) -> f64 {
    let t = std::f64::consts::PI * 2.0;
    0.5 + 0.2 * (t * j / 16.0).sin() + 0.2 * (t * i / 13.0).cos() + 0.05 * (t * (i + j) / 9.0).sin()
}

fn gray_image(w: usize, h: usize, shift_x: f64, shift_y: f64) -> ImageBuf {
    let mut samples = Vec::new();
    for i in 0..h {
        for j in 0..w {
            let v = texture(i as f64 - shift_y, j as f64 - shift_x);
            samples.push((v * MAX_INTENSITY as f64).round() as i32);
        }
    }
    ImageBuf { width: w, height: h, channels: 1, samples }
}

fn params(outer: i32, inner: i32, sor: i32) -> SolverParams {
    SolverParams {
        alpha: Fraction::new(12, 1000),
        ratio: Fraction::new(3, 4),
        min_width: 20,
        outer_iters: outer,
        inner_iters: inner,
        sor_iters: sor,
        color: ColorMode::PerChannel,
    }
}

fn interior_means(f: &Flow, lo: usize, hi: usize) -> (f64, f64) {
    let (mut sx, mut sy, mut n) = (0.0, 0.0, 0.0);
    for i in lo..hi {
        for j in lo..hi {
            sx += f.vx[i * f.width + j] as f64 / SUBPIXEL as f64;
            sy += f.vy[i * f.width + j] as f64 / SUBPIXEL as f64;
            n += 1.0;
        }
    }
    (sx / n, sy / n)
}

#[test]
fn shifted_pair_gives_two_pixels_right() {
    let a = gray_image(64, 64, 0.0, 0.0);
    let b = gray_image(64, 64, 2.0, 0.0);
    let f = estimate_images(&a, &b, &params(7, 1, 30)).unwrap();
    assert_eq!((f.width, f.height), (64, 64));
    let (mx, my) = interior_means(&f, 16, 48);
    assert!(mx >= 1.5 && mx <= 2.5, "mean vx {}", mx);
    assert!(my >= -0.5 && my <= 0.5, "mean vy {}", my);
}

#[test]
fn shift_down_and_right_is_recovered() {
    let a = gray_image(64, 64, 0.0, 0.0);
    let b = gray_image(64, 64, 1.0, 2.0);
    let f = estimate_images(&a, &b, &params(7, 1, 30)).unwrap();
    let (mx, my) = interior_means(&f, 16, 48);
    assert!((mx - 1.0).abs() <= 0.5, "mean vx {}", mx);
    assert!((my - 2.0).abs() <= 0.5, "mean vy {}", my);
}

#[test]
fn identical_images_give_zero_flow() {
    let a = gray_image(40, 30, 0.0, 0.0);
    let f = estimate_images(&a, &a, &params(3, 1, 10)).unwrap();
    assert!(f.vx.iter().all(|&v| v == 0));
    assert!(f.vy.iter().all(|&v| v == 0));
}

#[test]
fn invalid_parameters_are_rejected() {
    let a = gray_image(32, 32, 0.0, 0.0);
    let mut p = params(7, 1, 30);
    p.ratio = Fraction::new(0, 4);
    assert_eq!(estimate_images(&a, &a, &p).err(), Some(FlowError::InvalidParameters));
    p.ratio = Fraction::new(4, 4);
    assert_eq!(estimate_images(&a, &a, &p).err(), Some(FlowError::InvalidParameters));
    let p = params(-1, 1, 30);
    assert_eq!(estimate_images(&a, &a, &p).err(), Some(FlowError::InvalidParameters));
    let p = params(7, 1, -3);
    assert_eq!(estimate_images(&a, &a, &p).err(), Some(FlowError::InvalidParameters));
    let mut p = params(7, 1, 30);
    p.alpha = Fraction::new(0, 1);
    assert_eq!(estimate_images(&a, &a, &p).err(), Some(FlowError::InvalidParameters));
    let mut p = params(7, 1, 30);
    p.min_width = 0;
    assert_eq!(p.validate(), Err(FlowError::InvalidParameters));
    assert_eq!(params(7, 1, 30).validate(), Ok(()));
}

#[test]
fn images_of_different_sizes_are_rejected() {
    let a = gray_image(32, 32, 0.0, 0.0);
    let b = gray_image(32, 31, 0.0, 0.0);
    assert_eq!(estimate_images(&a, &b, &params(2, 1, 2)).err(), Some(FlowError::InvalidDimensions));
}

#[test]
fn mismatched_pyramids_are_rejected() {
    let a = gray_image(32, 32, 0.0, 0.0);
    let b = gray_image(30, 32, 0.0, 0.0);
    let p1 = vec![a];
    let p2 = vec![b];
    assert_eq!(estimate(&p1, &p2, &params(2, 1, 2)).err(), Some(FlowError::DimensionMismatch));
    let empty: Vec<ImageBuf> = Vec::new();
    assert_eq!(estimate(&empty, &empty, &params(2, 1, 2)).err(), Some(FlowError::DimensionMismatch));
}

#[test]
fn pyramid_levels_shrink_by_ratio_down_to_min_width() {
    let a = gray_image(64, 64, 0.0, 0.0);
    let b = gray_image(64, 64, 3.0, 1.0);
    let la = build_pyramid(&a, Fraction::new(3, 4), 20).unwrap();
    let lb = build_pyramid(&b, Fraction::new(3, 4), 20).unwrap();
    let widths: Vec<usize> = la.iter().map(|l| l.width).collect();
    assert_eq!(widths, vec![64, 48, 36, 27, 20]);
    assert_eq!(la.len(), lb.len());
    assert!(la.iter().skip(1).all(|l| l.width >= 20));
    assert_eq!(la[0].samples, a.samples);
}

#[test]
fn pyramid_of_wide_image_stops_on_height() {
    let a = gray_image(200, 24, 0.0, 0.0);
    let la = build_pyramid(&a, Fraction::new(1, 2), 10).unwrap();
    let sizes: Vec<(usize, usize)> = la.iter().map(|l| (l.width, l.height)).collect();
    assert_eq!(sizes, vec![(200, 24), (100, 12)]);
}

#[test]
fn pyramid_rejects_bad_ratio_or_min_width() {
    let a = gray_image(16, 16, 0.0, 0.0);
    assert_eq!(build_pyramid(&a, Fraction::new(1, 1), 4).err(), Some(FlowError::InvalidDimensions));
    assert_eq!(build_pyramid(&a, Fraction::new(1, 2), 0).err(), Some(FlowError::InvalidDimensions));
    assert_eq!(build_pyramid(&a, Fraction::new(1, 2), 100).unwrap().len(), 1);
}

#[test]
fn warp_by_zero_flow_is_identity() {
    let a = gray_image(23, 17, 0.0, 0.0);
    let z = Flow::zero(23, 17);
    let w = warp(&a, &z);
    assert_eq!(w.samples, a.samples);
}

#[test]
fn warp_by_whole_pixel_shift_reads_neighbour() {
    let a = gray_image(20, 10, 0.0, 0.0);
    let mut f = Flow::zero(20, 10);
    for v in f.vx.iter_mut() {
        *v = 256;
    }
    let w = warp(&a, &f);
    assert_eq!(w.pixel(4, 5, 0), a.pixel(4, 6, 0));
    assert_eq!(w.pixel(4, 19, 0), a.pixel(4, 19, 0));
}

#[test]
fn resize_round_trip_keeps_low_frequencies() {
    let a = gray_image(48, 40, 0.0, 0.0);
    let small = a.resize(36, 30);
    let back = small.resize(48, 40);
    let mut err = 0.0;
    for i in 4..36 {
        for j in 4..44 {
            err += (back.pixel(i, j, 0) as f64 - a.pixel(i, j, 0) as f64).abs();
        }
    }
    let mean = err / (32.0 * 40.0) / MAX_INTENSITY as f64;
    assert!(mean < 0.03, "mean error {}", mean);
}

#[test]
fn resize_of_constant_image_is_constant() {
    let a = ImageBuf { width: 7, height: 5, channels: 1, samples: vec![1000; 35] };
    let r = a.resize(3, 9);
    assert_eq!(r.samples, vec![1000; 27]);
}

#[test]
fn bicubic_at_half_pixel_is_weighted_average() {
    let s = vec![0, 0, 1024, 1024];
    assert_eq!(bicubic_exec(&s, 4, 1, 1, 0, 0, 0), 0);
    assert_eq!(bicubic_exec(&s, 4, 1, 1, 0, 0, 2 * 256), 1024);
    assert_eq!(bicubic_exec(&s, 4, 1, 1, 0, 0, 256 + 128), 512);
    assert_eq!(bicubic_exec(&s, 4, 1, 1, 0, 0, 128), -64);
}

#[test]
fn smoothing_keeps_a_constant_image_and_blurs_a_step() {
    let a = ImageBuf { width: 5, height: 1, channels: 1, samples: vec![0, 0, 256, 0, 0] };
    let s = smooth(&a);
    assert_eq!(s.samples, vec![16, 64, 96, 64, 16]);
}

#[test]
fn luminance_weights_channels() {
    let a = ImageBuf::from_rgb8(1, 1, &vec![255, 0, 0]).unwrap();
    assert_eq!(a.samples, vec![65535, 0, 0]);
    let l = a.to_luminance();
    assert_eq!(l.channels, 1);
    assert_eq!(l.samples, vec![19595]);
}

#[test]
fn from_rgb8_checks_its_size() {
    assert_eq!(ImageBuf::from_rgb8(0, 3, &vec![]).err(), Some(FlowError::InvalidDimensions));
    assert_eq!(ImageBuf::from_rgb8(2, 1, &vec![1, 2, 3]).err(), Some(FlowError::InvalidDimensions));
    let a = ImageBuf::from_rgb8(2, 1, &vec![1, 2, 3, 4, 5, 6]).unwrap();
    assert_eq!(a.samples, vec![257, 514, 771, 1028, 1285, 1542]);
}

#[test]
fn upsample_scales_by_inverse_ratio() {
    let mut f = Flow::zero(3, 3);
    for v in f.vx.iter_mut() {
        *v = 300;
    }
    let u = f.upsample(4, 4, Fraction::new(3, 4));
    assert!(u.vx.iter().all(|&v| v == 400));
    assert!(u.vy.iter().all(|&v| v == 0));
    let z = Flow::zero(3, 3).upsample(5, 4, Fraction::new(3, 4));
    assert!(z.vx.iter().chain(z.vy.iter()).all(|&v| v == 0));
}

#[test]
fn increment_is_added_and_clamped() {
    let f = Flow::zero(2, 1);
    let g = f.add_increment(&vec![5, FLOW_LIMIT], &vec![-7, 0]);
    let h = g.add_increment(&vec![0, 10], &vec![0, 0]);
    assert_eq!(h.vx, vec![5, FLOW_LIMIT]);
    assert_eq!(h.vy, vec![-7, 0]);
}

#[test]
fn scaled_alpha_value() {
    assert_eq!(scaled_alpha_exec(Fraction::new(12, 1000)), 824608555);
}

#[test]
fn coarse2fine_flow_on_identical_images_is_zero() {
    let mut bytes = Vec::new();
    for y in 0..24u32 {
        for x in 0..24u32 {
            bytes.extend_from_slice(&[(x * 10) as u8, (y * 10) as u8, 90]);
        }
    }
    let img = ImageBuf::from_rgb8(24, 24, &bytes).unwrap();
    let f = coarse2fine_flow(&img, &img, Fraction::new(12, 1000), Fraction::new(3, 4), 10, 2, 1, 5).unwrap();
    assert_eq!((f.width, f.height), (24, 24));
    assert!(f.vx.iter().chain(f.vy.iter()).all(|&v| v == 0));
    let bad = coarse2fine_flow(&img, &img, Fraction::new(12, 1000), Fraction::new(0, 4), 10, 2, 1, 5);
    assert_eq!(bad.err(), Some(FlowError::InvalidParameters));
    let other = ImageBuf::from_rgb8(1, 1, &vec![1, 2, 3]).unwrap();
    let mismatch = coarse2fine_flow(&img, &other, Fraction::new(12, 1000), Fraction::new(3, 4), 10, 2, 1, 5);
    assert_eq!(mismatch.err(), Some(FlowError::InvalidDimensions));
}

#[test]
fn coarse2fine_flow_recovers_color_shift() {
    let a = rgb_image(64, 64, 0.0);
    let b = rgb_image(64, 64, 2.0);
    let f = coarse2fine_flow(&a, &b, Fraction::new(12, 1000), Fraction::new(3, 4), 20, 7, 1, 30).unwrap();
    let (mx, my) = interior_means(&f, 16, 48);
    assert!((mx - 2.0).abs() <= 0.5, "mean vx {}", mx);
    assert!(my.abs() <= 0.5, "mean vy {}", my);
}

fn rgb_image(w: usize, h: usize, shift_x: f64) -> ImageBuf {
    let mut bytes = Vec::new();
    for i in 0..h {
        for j in 0..w {
            let v = texture(i as f64, j as f64 - shift_x);
            bytes.push((v * 255.0).round() as u8);
            bytes.push((v * 200.0).round() as u8);
            bytes.push(((1.0 - v) * 255.0).round() as u8);
        }
    }
    ImageBuf::from_rgb8(w, h, &bytes).unwrap()
}

#[test]
fn luminance_mode_recovers_shift_of_color_pair() {
    let a = rgb_image(64, 64, 0.0);
    let b = rgb_image(64, 64, 2.0);
    let mut p = params(7, 1, 30);
    p.color = ColorMode::Luminance;
    let f = estimate_images(&a, &b, &p).unwrap();
    let (mx, my) = interior_means(&f, 16, 48);
    assert!((mx - 2.0).abs() <= 0.5, "mean vx {}", mx);
    assert!(my.abs() <= 0.5, "mean vy {}", my);
    let z = estimate_images(&a, &a, &p).unwrap();
    assert!(z.vx.iter().chain(z.vy.iter()).all(|&v| v == 0));
}

#[test]
fn oversized_side_is_rejected() {
    let side = rustflow::raster::MAX_SIDE + 1;
    assert_eq!(ImageBuf::from_rgb8(side, 1, &vec![]).err(), Some(FlowError::InvalidDimensions));
}

#[test]
fn integer_helpers_round_as_stated() {
    assert_eq!(isqrt(0), 0);
    assert_eq!(isqrt(15), 3);
    assert_eq!(isqrt(16), 4);
    assert_eq!(isqrt(1 << 100), 1 << 50);
    assert_eq!(div_floor_exec(-7, 2), -4);
    assert_eq!(div_floor_exec(7, 2), 3);
    assert_eq!(div_floor_exec(-8, 2), -4);
    assert_eq!(clamp_exec(-10, -3, 3), -3);
    assert_eq!(clamp_exec(10, -3, 3), 3);
    assert_eq!(clamp_exec(2, -3, 3), 2);
}

#[test]
fn displacement_reads_both_components() {
    let mut f = Flow::zero(3, 2);
    f.vx[4] = 12;
    f.vy[4] = -9;
    assert_eq!(f.displacement(1, 1), (12, -9));
    assert_eq!(f.displacement(0, 1), (0, 0));
}
