use multi_threader::config::{parse_u64, Config, TestConfig};

#[test]
fn test_config_creation() {
    let config = Config::from_env(None, None, None);
    assert!(!config.test.random_sleep_io_thread);
    assert_eq!(config.test.io_sleep_min_ms, 500);
    assert_eq!(config.test.io_sleep_max_ms, 2000);
}

#[test]
fn test_maybe_sleep_disabled() {
    let test_config = TestConfig {
        random_sleep_io_thread: false,
        io_sleep_min_ms: 500,
        io_sleep_max_ms: 2000,
    };
    assert_eq!(test_config.sleep_duration_ms(), None);
}

#[test]
fn config_reads_flag_and_bounds() {
    let config = Config::from_env(Some("true"), Some("100"), Some("200"));
    assert!(config.test.random_sleep_io_thread);
    assert_eq!(config.test.io_sleep_min_ms, 100);
    assert_eq!(config.test.io_sleep_max_ms, 200);
    assert!(Config::from_env(Some("1"), None, None).test.random_sleep_io_thread);
    assert!(!Config::from_env(Some("yes"), None, None).test.random_sleep_io_thread);
    assert!(!Config::from_env(Some("TRUE"), None, None).test.random_sleep_io_thread);
}

#[test]
fn config_swaps_bounds_out_of_order() {
    let t = TestConfig::from_values(None, Some("2000"), Some("500"));
    assert_eq!(t.io_sleep_min_ms, 500);
    assert_eq!(t.io_sleep_max_ms, 2000);
}

#[test]
fn config_defaults_for_bad_numbers() {
    let t = TestConfig::from_values(Some("0"), Some("abc"), Some("-5"));
    assert!(!t.random_sleep_io_thread);
    assert_eq!(t.io_sleep_min_ms, 500);
    assert_eq!(t.io_sleep_max_ms, 2000);
    let t = TestConfig::from_values(None, Some("3000"), None);
    assert_eq!(t.io_sleep_min_ms, 2000);
    assert_eq!(t.io_sleep_max_ms, 3000);
}

#[test]
fn decimal_reading() {
    assert_eq!(parse_u64("0"), Some(0));
    assert_eq!(parse_u64("+42"), Some(42));
    assert_eq!(parse_u64("18446744073709551615"), Some(u64::MAX));
    assert_eq!(parse_u64("18446744073709551616"), None);
    assert_eq!(parse_u64(""), None);
    assert_eq!(parse_u64("+"), None);
    assert_eq!(parse_u64(" 1"), None);
    assert_eq!(parse_u64("1x"), None);
    assert_eq!(parse_u64("-1"), None);
}

#[test]
fn sleep_duration_within_bounds() {
    let t = TestConfig {
        random_sleep_io_thread: true,
        io_sleep_min_ms: 42,
        io_sleep_max_ms: 42,
    };
    assert_eq!(t.sleep_duration_ms(), Some(42));
    let t = TestConfig {
        random_sleep_io_thread: true,
        io_sleep_min_ms: 10,
        io_sleep_max_ms: 20,
    };
    for _ in 0..50 {
        let d = t.sleep_duration_ms().unwrap();
        assert!((10..=20).contains(&d));
    }
}
