use superview::binary64::{of_u32, Binary64};
use superview::remap::{
    generate_remap, output_width, remap_fits, squeeze_row, stretch_row, stretch_source,
};

fn bits(v: f64) -> Binary64 {
    Binary64 { bits: v.to_bits() }
}

fn float_source(x: f64, out_width: f64, input_width: f64) -> f64 {
    let width_diff = out_width - input_width;
    let sx = x - width_diff / 2.0;
    let tx = (x / out_width - 0.5) * 2.0;
    let mut offset = tx * tx * (width_diff / 2.0);
    if tx < 0.0 {
        offset *= -1.0;
    }
    sx - offset
}

fn float_stretch(input_width: u32, out_width: u32) -> Vec<u16> {
    let max_x = (input_width - 1) as f64;
    (0..out_width)
        .map(|x| {
            float_source(x as f64, out_width as f64, input_width as f64)
                .round()
                .clamp(0.0, max_x) as u16
        })
        .collect()
}

fn float_squeeze(input_width: u32, out_width: u32) -> Vec<u16> {
    let in_w = input_width as f64;
    let out_w = out_width as f64;
    (0..out_width)
        .map(|s| {
            let mut lo = 0.0f64;
            let mut hi = in_w;
            for _ in 0..48 {
                let mid = (lo + hi) / 2.0;
                if float_source(mid, in_w, out_w) < s as f64 {
                    lo = mid;
                } else {
                    hi = mid;
                }
            }
            ((lo + hi) / 2.0).round().clamp(0.0, in_w - 1.0) as u16
        })
        .collect()
}

#[test]
fn stretch_row_endpoints_and_center() {
    let row = stretch_row(640, 852);
    assert_eq!(row.len(), 852);
    assert_eq!(row[0], 0);
    assert_eq!(row[851], 639);
    assert_eq!(row[426], 320);
}

#[test]
fn stretch_row_is_monotonic() {
    let row = stretch_row(640, 852);
    assert!(row.windows(2).all(|w| w[0] <= w[1]));
}

#[test]
fn squeeze_row_endpoints_and_center() {
    let row = squeeze_row(852, 640);
    assert_eq!(row.len(), 640);
    assert_eq!(row[0], 0);
    assert!((row[639] as i64 - 851).abs() <= 2);
    assert_eq!(row[320], 426);
}

#[test]
fn squeeze_row_is_monotonic() {
    let row = squeeze_row(852, 640);
    assert!(row.windows(2).all(|w| w[0] <= w[1]));
}

#[test]
fn squeeze_is_inverse_of_stretch() {
    let fwd = stretch_row(640, 852);
    let inv = squeeze_row(852, 640);
    for (s, &x) in inv.iter().enumerate() {
        let back = fwd[x as usize] as i64;
        assert!(
            (back - s as i64).abs() <= 1,
            "round trip at {s}: {x} -> {back}"
        );
    }
}

#[test]
fn stretch_center_is_near_identity() {
    let row = stretch_row(640, 852);
    let center_out = 426.0;
    let center_in = 320.0;
    for d in [-10i64, -5, 5, 10] {
        let x = (center_out as i64 + d) as usize;
        let expected = center_in as i64 + d;
        let got = row[x] as i64;
        assert!(
            (got - expected).abs() <= 1,
            "near-center pixel {x} maps to {got}, expected ~{expected}"
        );
    }
}

#[test]
fn rows_are_those_of_hardware_doubles() {
    for (a, b) in [
        (432, 576),
        (507, 676),
        (1296, 1728),
        (2160, 2880),
        (3, 12),
        (1, 7),
        (7, 1),
        (640, 640),
        (900, 1200),
        (100, 1000),
        (70000, 93333),
    ] {
        assert_eq!(stretch_row(a, b), float_stretch(a, b), "stretch {a} {b}");
    }
    for (a, b) in [(852, 640), (576, 432), (1728, 1296), (7, 3), (1, 1), (3, 7), (1000, 10)] {
        assert_eq!(squeeze_row(a, b), float_squeeze(a, b), "squeeze {a} {b}");
    }
}

#[test]
fn source_is_that_of_hardware_doubles_bit_for_bit() {
    let mut seed: u64 = 88172645463325252;
    for _ in 0..20000 {
        seed ^= seed << 13;
        seed ^= seed >> 7;
        seed ^= seed << 17;
        let w = (seed % 100_000 + 1) as f64;
        let i = ((seed >> 20) % 100_000 + 1) as f64;
        let x = w * ((seed >> 11) as f64 / (1u64 << 53) as f64);
        let got = stretch_source(bits(x), bits(w), bits(i));
        assert_eq!(got.bits, float_source(x, w, i).to_bits(), "{x} {w} {i}");
    }
}

#[test]
fn arithmetic_is_that_of_hardware_doubles() {
    let mut seed: u64 = 0x9e37_79b9_7f4a_7c15;
    let mut next = || {
        seed ^= seed << 13;
        seed ^= seed >> 7;
        seed ^= seed << 17;
        seed
    };
    let same = |a: Binary64, b: f64| {
        if b.is_nan() {
            f64::from_bits(a.bits).is_nan()
        } else {
            a.bits == b.to_bits()
        }
    };
    let special = [
        0.0,
        -0.0,
        1.0,
        f64::MIN_POSITIVE,
        5e-324,
        -5e-324,
        f64::MAX,
        f64::INFINITY,
        f64::NEG_INFINITY,
        f64::NAN,
        0.1,
        2.2250738585072011e-308,
    ];
    let mut pairs: Vec<(f64, f64)> = Vec::new();
    for a in special {
        for b in special {
            pairs.push((a, b));
        }
    }
    for _ in 0..40000 {
        let a = f64::from_bits(next());
        let b = f64::from_bits(next());
        pairs.push((a, b));
        // numbers of a like size, where sums cancel
        let c = f64::from_bits((a.to_bits() & !0xfff) | (next() & 0xfff));
        pairs.push((a, c));
        pairs.push((a, f64::from_bits(a.to_bits().wrapping_add(next() % (80 << 52)))));
    }
    for (a, b) in pairs {
        assert!(same(bits(a).sum(bits(b)), a + b), "{a:e} + {b:e}");
        assert!(same(bits(a).subtract(bits(b)), a - b), "{a:e} - {b:e}");
        assert!(same(bits(a).multiply(bits(b)), a * b), "{a:e} * {b:e}");
        assert!(same(bits(a).divide(bits(b)), a / b), "{a:e} / {b:e}");
        assert_eq!(bits(a).less(bits(b)), a < b, "{a:e} < {b:e}");
        assert_eq!(bits(a).to_i32(), a.round() as i32, "{a:e} to i32");
        assert_eq!(bits(a).to_u64(u64::MAX), a.round() as u64, "{a:e} to u64");
    }
    for n in [0u32, 1, 2, 3, 640, 65535, 65536, 4294967295] {
        assert_eq!(of_u32(n).bits, (n as f64).to_bits());
    }
    for v in [0.5, 1.5, 2.5, -0.5, -1.5, 0.49999999999999994, 4503599627370497.5, -2147483648.5] {
        assert_eq!(bits(v).to_i32(), v.round() as i32);
        assert_eq!(bits(v).to_u64(u64::MAX), v.round() as u64);
    }
}

#[test]
fn output_width_is_the_truncated_product() {
    let float = |h: u32, squeeze: bool| {
        let ratio = if squeeze { 4.0 / 3.0 } else { 16.0 / 9.0 };
        (h as f64 * ratio) as u32 / 2 * 2
    };
    for h in (0..200_000u32).chain((0..200_000).map(|i| u32::MAX - i)).chain(
        (0..200_000).map(|i| 2_415_919_000 + i),
    ) {
        assert_eq!(output_width(h, false), float(h, false), "{h}");
        assert_eq!(output_width(h, true), float(h, true), "{h}");
    }
    assert_eq!(output_width(480, false), 852);
    assert_eq!(output_width(480, true), 640);
}

#[test]
fn tables_have_the_supersampled_size() {
    assert!(remap_fits(640, 480, false, 2));
    let plain = generate_remap(640, 480, false, 1);
    assert_eq!((plain.out_width, plain.out_height, plain.supersample), (852, 480, 1));
    assert_eq!((plain.row.len(), plain.map_height), (852, 480));
    assert_eq!(plain.row, stretch_row(640, 852));
    let fine = generate_remap(640, 480, false, 2);
    assert_eq!((fine.out_width, fine.out_height, fine.supersample), (852, 480, 2));
    assert_eq!((fine.row.len(), fine.map_height), (1704, 960));
    assert_eq!(fine.row, stretch_row(1280, 1704));
    let back = generate_remap(852, 480, true, 0);
    assert_eq!((back.out_width, back.out_height, back.supersample), (640, 480, 1));
    assert_eq!(back.row, squeeze_row(852, 640));
    assert!(!remap_fits(640, 480, false, 1 << 25));
    assert!(!remap_fits(640, u32::MAX, false, 2));
}

#[test]
fn tables_are_in_order_and_begin_and_end_with_the_picture() {
    for (a, b) in [(640u32, 852u32), (1440, 1920), (100, 316), (5, 6), (1000, 700), (3, 4)] {
        let row = stretch_row(a, b);
        assert!(row.windows(2).all(|w| w[0] <= w[1]), "{a} {b}");
        assert_eq!(row[0], 0);
        if a <= b {
            assert_eq!(row[b as usize - 1] as u32, a - 1, "{a} {b}");
        }
        if a % 2 == 0 && b % 2 == 0 {
            assert_eq!(row[b as usize / 2] as u32, a / 2, "{a} {b}");
        }
    }
    for (a, b) in [(852u32, 640u32), (1920, 1440), (700, 1000), (10, 9), (200, 100)] {
        let row = squeeze_row(a, b);
        assert!(row.windows(2).all(|w| w[0] <= w[1]), "{a} {b}");
        if b <= a && a <= 2 * b {
            assert_eq!(row[0], 0);
            if a % 2 == 0 && b % 2 == 0 {
                assert_eq!(row[b as usize / 2] as u32, a / 2, "{a} {b}");
            }
        }
        if b <= a && 3 * a <= 4 * b {
            assert!(row[b as usize - 1] as u32 >= a - 2, "{a} {b}");
        }
    }
}

#[test]
fn squeezing_undoes_stretching_for_other_widths() {
    for (narrow, wide) in [(640, 852), (1440, 1920), (10, 100), (99, 100), (500, 501), (1, 9)] {
        let fwd = stretch_row(narrow, wide);
        for (s, &x) in squeeze_row(wide, narrow).iter().enumerate() {
            let back = fwd[x as usize] as i64;
            assert!((back - s as i64).abs() <= 1, "{narrow} {wide} at {s}: {x} -> {back}");
        }
    }
}

#[test]
fn whole_parts_are_those_of_hardware_doubles() {
    for v in [
        0.0, 0.9, 1.0, 59.99, 1e9, 1e19, 1.8e19, 1e20, 4503599627370496.5, 4503599627370495.5,
        -1.0, -0.5, 5e-324, f64::MAX, f64::INFINITY, f64::NEG_INFINITY, f64::NAN,
    ] {
        assert_eq!(bits(v).to_whole(), v as u64, "{v}");
    }
}

#[test]
fn a_picture_without_columns_gives_an_empty_table() {
    assert_eq!(squeeze_row(0, 0).len(), 0);
    let t = generate_remap(0, 1, true, 1);
    assert_eq!((t.out_width, t.out_height, t.row.len()), (0, 1, 0));
}

#[test]
fn map_files_are_named_after_the_process() {
    assert_eq!(superview::remap::x_map_name(4711), "superview_x_4711.pgm");
    assert_eq!(superview::remap::y_map_name(4711), "superview_y_4711.pgm");
    let files = generate_remap(640, 480, false, 2).written("a", "b");
    assert_eq!((files.x_path(), files.y_path()), ("a", "b"));
    assert_eq!((files.out_width, files.out_height, files.supersample), (852, 480, 2));
}

#[test]
fn constants_have_the_bits_of_hardware_doubles() {
    for (b, v) in [
        (superview::remap::HALF, 0.5),
        (superview::remap::TWO, 2.0),
        (superview::remap::MINUS_ONE, -1.0),
        (superview::crop::FOUR_THIRDS, 4.0 / 3.0),
        (superview::crop::SIXTEEN_NINTHS, 16.0 / 9.0),
        (superview::crop::CROP_TOLERANCE, 0.1),
        (superview::crop::INPUT_TOLERANCE, 0.05),
        (superview::crop::SIXTY, 60.0),
        (superview::crop::TWENTY, 20.0),
        (superview::progress::MILLION, 1_000_000.0),
        (superview::progress::HUNDRED, 100.0),
    ] {
        assert_eq!(b, f64::to_bits(v), "{v}");
    }
}

#[test]
fn sizes_come_back() {
    for (w, h) in [(640, 480), (1440, 1080), (4000, 3000), (4, 3)] {
        let wide = output_width(h, false);
        assert!(wide >= w);
        assert_eq!(output_width(h, true), w);
    }
}

#[test]
fn no_column_is_lost() {
    for (narrow, wide) in [(640u32, 852u32), (100, 316), (99, 100), (50, 50), (1, 7)] {
        let row = stretch_row(narrow, wide);
        assert!(row.windows(2).all(|w| w[1] <= w[0] + 1), "{narrow} {wide}");
        assert!((0..narrow).all(|c| row.contains(&(c as u16))), "{narrow} {wide}");
    }
    for (wide, narrow) in [(852u32, 640u32), (200, 100), (100, 99), (50, 50), (1920, 1440)] {
        let row = squeeze_row(wide, narrow);
        assert!(row.windows(2).all(|w| w[0] < w[1]), "{wide} {narrow}");
    }
}
