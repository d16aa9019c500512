use cola_cutter::cutting::empty_cut_message;
use cola_cutter::json::JsonScalar;
use cola_cutter::number::parse_seconds_ms;
use cola_cutter::vision::timestamp_ms;

fn ms(s: &str) -> Option<i64> {
    let v: Vec<char> = s.chars().collect();
    parse_seconds_ms(&v)
}

#[test]
fn plain_decimals() {
    assert_eq!(ms("12.5"), Some(12500));
    assert_eq!(ms("-1.5"), Some(-1500));
    assert_eq!(ms("+.25"), Some(250));
    assert_eq!(ms("3."), Some(3000));
    assert_eq!(ms("12.3456"), Some(12345));
    assert_eq!(ms("0.0004"), Some(0));
    assert_eq!(ms("."), None);
    assert_eq!(ms(""), None);
    assert_eq!(ms("1.2.3"), None);
    assert_eq!(ms("abc"), None);
}

#[test]
fn exponent_forms_as_floats_read_them() {
    assert_eq!(ms("1e3"), Some(1_000_000));
    assert_eq!(ms("1.5E-3"), Some(1));
    assert_eq!(ms("2e+1"), Some(20_000));
    assert_eq!(ms("25e-1"), Some(2_500));
    assert_eq!(ms("1e-7"), Some(0));
    assert_eq!(ms("-3.5e2"), Some(-350_000));
    assert_eq!(ms("0e999999999999999999999999999"), Some(0));
    assert_eq!(ms("1e-999999999999999999999999999"), Some(0));
    assert_eq!(ms("1e400"), Some(i64::MAX));
    assert_eq!(ms("-1e400"), Some(i64::MIN));
    assert_eq!(ms("1e"), None);
    assert_eq!(ms("e5"), None);
    assert_eq!(ms("1e+"), None);
    for s in ["1e3", "1.5E-3", "2e+1", "25e-1", "-3.5e2", "1e-7", "7e-4"] {
        assert!(s.parse::<f64>().is_ok(), "{}", s);
    }
    for s in ["1e", "e5", "1e+", ".", "1.2.3"] {
        assert!(s.parse::<f64>().is_err(), "{}", s);
    }
}

#[test]
fn infinities_and_nan() {
    assert_eq!(ms("inf"), Some(i64::MAX));
    assert_eq!(ms("-Infinity"), Some(i64::MIN));
    assert_eq!(ms("+INF"), Some(i64::MAX));
    assert_eq!(ms("NaN"), None);
    assert_eq!(ms("infin"), None);
    for s in ["inf", "-Infinity", "+INF", "NaN"] {
        assert!(s.parse::<f64>().is_ok(), "{}", s);
    }
    assert!("infin".parse::<f64>().is_err());
}

#[test]
fn huge_values_hold_at_the_ends() {
    assert_eq!(ms("99999999999999999999"), Some(i64::MAX));
    assert_eq!(ms("-99999999999999999999"), Some(i64::MIN));
    assert_eq!(ms("9223372036854775.807"), Some(i64::MAX));
}

#[test]
fn json_numbers_in_exponent_form() {
    let tiny: serde_json::Value = serde_json::from_str("1e-7").unwrap();
    let text = tiny.as_number().unwrap().to_string();
    assert_eq!(timestamp_ms(&JsonScalar::Number(text)), 0);
    let big: serde_json::Value = serde_json::from_str("1.5e20").unwrap();
    let text = big.as_number().unwrap().to_string();
    assert_eq!(timestamp_ms(&JsonScalar::Number(text)), i64::MAX);
    assert_eq!(timestamp_ms(&JsonScalar::Text("2.5e1s".to_string())), 25_000);
}

#[test]
fn cut_times_written_as_floats_are() {
    assert_eq!(empty_cut_message("/a", 1015, 2000), format!("ffmpeg 切段输出 0 字节（src=/a [{:.2}-{:.2}]）", 1.015f64, 2.0f64));
    assert_eq!(empty_cut_message("/a", 1015, 2000), "ffmpeg 切段输出 0 字节（src=/a [1.01-2.00]）");
}
