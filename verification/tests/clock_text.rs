use homeai::clock::{millis_to_i64, now_ms};
use homeai::text::{str_eq, str_less};

#[test]
fn clock_reads_after_the_epoch() {
    assert!(now_ms() > 1_600_000_000_000);
    assert_eq!(millis_to_i64(None), 0);
    assert_eq!(millis_to_i64(Some(42)), 42);
}

#[test]
fn string_order_is_code_point_order() {
    assert!(str_less("a", "b"));
    assert!(str_less("ab", "abc"));
    assert!(!str_less("abc", "ab"));
    assert!(str_less("Z", "a"));
    assert!(!str_less("x", "x"));
    assert!(str_eq("ü", "ü"));
}
