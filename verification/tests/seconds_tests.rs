use cola_cutter::seconds::{push_fixed, push_shortest};
use cola_cutter::watermark::stamp_label;

fn fixed(ms: i128, places: usize) -> String {
    let mut out: Vec<char> = Vec::new();
    push_fixed(&mut out, ms, places);
    out.into_iter().collect()
}

fn as_float(ms: i128, places: usize) -> String {
    format!("{:.*}", places, ms as f64 / 1000.0)
}

#[test]
fn fixed_matches_float_formatting_near_zero() {
    for ms in -5000i128..=5000 {
        for places in 0..=3 {
            assert_eq!(fixed(ms, places), as_float(ms, places), "ms={} places={}", ms, places);
        }
    }
}

#[test]
fn fixed_matches_float_formatting_on_ties_and_large_values() {
    let mut values: Vec<i128> = vec![
        125, 145, 5250, 6250, 62500, 2500, 1500, 999_999_999_999, 123_456_789_012_345,
        9_007_199_254_740_991, -9_007_199_254_740_991, 4_503_599_627_370_497,
    ];
    let mut x: i128 = 7;
    for _ in 0..2000 {
        x = (x * 6364136223846793005 + 1442695040888963407) % (1i128 << 53);
        values.push(x);
        values.push(-(x / 1000));
        values.push(x % 10_000_000);
    }
    // below 2^53 ms, `ms as f64` is exact, so the float is the double nearest to ms / 1000
    for ms in values {
        for places in 0..=3 {
            assert_eq!(fixed(ms, places), as_float(ms, places), "ms={} places={}", ms, places);
        }
    }
}

#[test]
fn shortest_matches_float_display() {
    for ms in -20000i128..=20000 {
        let mut out: Vec<char> = Vec::new();
        push_shortest(&mut out, ms);
        let s: String = out.into_iter().collect();
        assert_eq!(s, format!("{}", ms as f64 / 1000.0), "ms={}", ms);
    }
}

#[test]
fn stamps_round_ties_to_even() {
    assert_eq!(stamp_label(125, 0, 1), "t: 0.12s  (1/1)");
    assert_eq!(stamp_label(145, 0, 1), "t: 0.14s  (1/1)");
    assert_eq!(stamp_label(135, 0, 1), "t: 0.14s  (1/1)");
}
