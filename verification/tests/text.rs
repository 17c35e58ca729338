use superview::binary64::Binary64;
use superview::decimal::{decimal, decimal_two, parse_u32};
use superview::fixed::fixed_text;
use superview::text::{
    after_prefix, begins, find_last, has, in_order, joined, same, same_lower, space, split,
    split_lines, split_words, trimmed, without_leading, without_trailing, Separator,
};

const SAMPLES: [&str; 14] = [
    "",
    " ",
    "a",
    "a b",
    " a  b ",
    "line\nline\r\nlast",
    "line\n",
    "\n\n",
    "\r\n",
    "x\ry\r",
    "crop=1:2:3:4 crop=5",
    "\u{a0}wide\u{2003}space\u{3000}",
    "ääxx",
    "12xx",
];

#[test]
fn white_space_is_that_of_std() {
    for c in (0..=0x10ffffu32).filter_map(char::from_u32) {
        assert_eq!(space(c), c.is_whitespace(), "{:x}", c as u32);
    }
}

#[test]
fn texts_are_taken_apart_as_by_std() {
    for s in SAMPLES {
        assert_eq!(split_lines(s), s.lines().collect::<Vec<_>>(), "{s:?}");
        assert_eq!(split_words(s), s.split_whitespace().collect::<Vec<_>>(), "{s:?}");
        assert_eq!(trimmed(s), s.trim(), "{s:?}");
        assert_eq!(split(s, Separator::Char(':')), s.split(':').collect::<Vec<_>>(), "{s:?}");
        assert_eq!(without_trailing(s, Separator::Char('x')), s.trim_end_matches('x'));
        assert_eq!(without_leading(s, Separator::Char('x')), s.trim_start_matches('x'));
        for t in ["crop=", "a", "", "line", "äx"] {
            assert_eq!(has(s, t), s.contains(t), "{s:?} {t:?}");
            assert_eq!(begins(s, t), s.starts_with(t), "{s:?} {t:?}");
            assert_eq!(after_prefix(s, t), s.strip_prefix(t), "{s:?} {t:?}");
        }
        for t in SAMPLES {
            assert_eq!(same(s, t), s == t);
            assert_eq!(in_order(s, t), s <= t, "{s:?} {t:?}");
        }
    }
    assert_eq!(find_last("crop=1 crop=2", "crop="), Some(7));
    assert_eq!(find_last("crop", "crop="), None);
    assert_eq!(joined(&vec!["a", "b", "c"], ", "), "a, b, c");
    assert_eq!(joined(&vec![], ", "), "");
    assert!(same_lower("Mp4", "mp4"));
    assert!(!same_lower("mp44", "mp4"));
}

#[test]
fn numbers_are_written_as_by_std() {
    for n in [0u64, 1, 9, 10, 99, 100, 65535, 1234567890, u64::MAX] {
        assert_eq!(decimal(n), n.to_string());
        assert_eq!(decimal_two(n), format!("{n:02}"));
    }
}

#[test]
fn numbers_are_read_as_by_std() {
    for s in [
        "", "0", "7", "007", "4294967295", "4294967296", "99999999999999999999", "+5", "-5", "+",
        "-", "1a", "a", " 1", "1 ", "99999999999a", "+-1", "٣",
    ] {
        match (parse_u32(s), s.parse::<u32>()) {
            (Ok(a), Ok(b)) => assert_eq!(a, b, "{s:?}"),
            (Err(a), Err(b)) => assert_eq!(a.message(), b.to_string(), "{s:?}"),
            _ => panic!("{s:?}"),
        }
    }
}

#[test]
fn fractions_are_written_as_by_std() {
    let mut seed: u64 = 0x2545_f491_4f6c_dd1d;
    let mut values = vec![
        0.0, -0.0, 0.05, 0.15, 0.25, 0.125, 0.375, 1.005, 2.675, 99.95, 99.995, 1e15, 1e16, 1e22,
        1e300, f64::MAX, 5e-324, -1.5, f64::INFINITY, f64::NEG_INFINITY, f64::NAN, 1.3333333333333333,
    ];
    for _ in 0..2000 {
        seed ^= seed << 13;
        seed ^= seed >> 7;
        seed ^= seed << 17;
        values.push((seed >> 32) as f64 / 1000.0);
        values.push((seed % 4000) as f64 / 8.0);
        values.push(f64::from_bits(seed));
    }
    for v in values {
        let b = Binary64 { bits: v.to_bits() };
        assert_eq!(fixed_text(b, false), format!("{v:.1}"), "{v:e}");
        assert_eq!(fixed_text(b, true), format!("{v:.2}"), "{v:e}");
    }
}
