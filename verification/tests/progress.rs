use superview::binary64::Binary64;
use superview::progress::{progress_text, read_report, Meter, Progress, Report};

fn bits(v: f64) -> Binary64 {
    Binary64 { bits: v.to_bits() }
}

fn value(b: Binary64) -> f64 {
    f64::from_bits(b.bits)
}

#[test]
fn reports_are_told_apart() {
    assert!(matches!(read_report("speed=1.25x"), Report::Speed("1.25")));
    assert!(matches!(read_report("speed= 2xx "), Report::Speed("2")));
    assert!(matches!(read_report("speed=N/A"), Report::Speed("N/A")));
    assert!(matches!(read_report("out_time_ms=1500000"), Report::Time("1500000")));
    assert!(matches!(read_report("out_time_us=1500000"), Report::Other));
    assert!(matches!(read_report(" speed=1"), Report::Other));
}

#[test]
fn progress_is_that_of_hardware_doubles() {
    let times = [0.0, 1.0, 333333.0, 1.5e6, 9.99e6, 1e7, 2e7, -5.0, f64::NAN, f64::INFINITY];
    let durations = [0.0, -1.0, 10.0, 3.3, 1e-300, f64::NAN, f64::INFINITY];
    let speeds = [None, Some(0.0), Some(1.5), Some(-2.0), Some(f64::NAN), Some(0.3)];
    for t in times {
        for d in durations {
            for s in speeds {
                let mut meter = Meter::new(bits(d));
                meter.set_speed(s.map(bits));
                let p = meter.progress(bits(t));
                let done = t / 1_000_000.0;
                let (percent, eta) = if d > 0.0 {
                    (
                        Some((done / d * 100.0).min(100.0)),
                        s.filter(|s| *s > 0.0).map(|s| (d - done).max(0.0) / s),
                    )
                } else {
                    (None, None)
                };
                let same = |a: Option<Binary64>, b: Option<f64>| match (a, b) {
                    (Some(a), Some(b)) => value(a) == b || (value(a).is_nan() && b.is_nan()),
                    (None, None) => true,
                    _ => false,
                };
                assert!(same(Some(p.done_secs), Some(done)), "{t} {d} {s:?}");
                assert!(same(p.percent, percent), "{t} {d} {s:?}");
                assert!(same(p.eta_secs, eta), "{t} {d} {s:?}");
                assert!(same(p.speed, s), "{t} {d} {s:?}");
                assert!(p.percent.map_or(true, |v| value(v) <= 100.0), "{t} {d} {s:?}");
                assert!(p.eta_secs.map_or(true, |v| !(value(v) < 0.0)), "{t} {d} {s:?}");
            }
        }
    }
}

fn line(percent: Option<f64>, done: f64, speed: Option<f64>, eta: Option<f64>) -> String {
    progress_text(&Progress {
        percent: percent.map(bits),
        done_secs: bits(done),
        speed: speed.map(bits),
        eta_secs: eta.map(bits),
    })
}

#[test]
fn progress_lines() {
    assert_eq!(
        line(Some(7.25), 1.0, Some(1.5), Some(125.4)),
        "\rEncoding progress:   7.2% (speed 1.50x, ETA 2:05)   "
    );
    assert_eq!(line(Some(100.0), 1.0, Some(1.5), None), "\rEncoding progress: 100.0%");
    assert_eq!(line(Some(f64::NEG_INFINITY), 1.0, None, None), "\rEncoding progress:  -inf%");
    assert_eq!(line(None, 59.5, Some(0.25), None), "\rEncoded 1:00 (speed 0.25x)   ");
    assert_eq!(line(None, 3599.0, None, None), "\rEncoded 59:59");
    assert_eq!(line(None, -3.0, None, None), "\rEncoded 0:00");
    for v in [0.0, 0.04, 9.96, 12.34, 99.99, 100.0, -12.5, 123456.7] {
        assert_eq!(line(Some(v), 0.0, None, None), format!("\rEncoding progress: {v:5.1}%"));
    }
}
