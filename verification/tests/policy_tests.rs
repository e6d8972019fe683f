use roster_sync::numbers::{parse_u64, u64_to_string};
use roster_sync::supervisor::{INITIAL_WAIT_MS, MAX_WAIT_MS, RetryState};

#[test]
fn backoff_doubles_from_the_initial_wait_and_caps() {
    assert_eq!(INITIAL_WAIT_MS, 125);
    assert_eq!(MAX_WAIT_MS, 16000);
    let mut st = RetryState::start();
    assert_eq!(st.wait_ms, 125);
    assert_eq!(st.retries, 0);
    let mut sleeps = Vec::new();
    for _ in 0..10 {
        let (sleep_ms, next) = st.after_failure();
        sleeps.push(sleep_ms);
        st = next;
    }
    assert_eq!(sleeps, vec![125, 250, 500, 1000, 2000, 4000, 8000, 16000, 16000, 16000]);
    assert_eq!(st.retries, 10);
    assert_eq!(st.wait_ms, 16000);
}

#[test]
fn formats_canonical_decimal() {
    assert_eq!(u64_to_string(0), "0");
    assert_eq!(u64_to_string(7), "7");
    assert_eq!(u64_to_string(42), "42");
    assert_eq!(u64_to_string(16000), "16000");
    assert_eq!(u64_to_string(u64::MAX), "18446744073709551615");
}

#[test]
fn parses_exactly_the_decimal_u64_strings() {
    assert_eq!(parse_u64("0"), Some(0));
    assert_eq!(parse_u64("42"), Some(42));
    assert_eq!(parse_u64("0042"), Some(42));
    assert_eq!(parse_u64("18446744073709551615"), Some(u64::MAX));
    assert_eq!(parse_u64(""), None);
    assert_eq!(parse_u64("x42"), None);
    assert_eq!(parse_u64("42x"), None);
    assert_eq!(parse_u64("4 2"), None);
    assert_eq!(parse_u64("-1"), None);
    assert_eq!(parse_u64("18446744073709551616"), None);
    assert_eq!(parse_u64("99999999999999999999999"), None);
}

#[test]
fn rejects_non_ascii_digits() {
    assert_eq!(parse_u64("４2"), None);
    assert_eq!(parse_u64("4٢"), None);
}

#[test]
fn format_then_parse_round_trips() {
    for n in [0u64, 1, 9, 10, 125, 16000, 123456789, u64::MAX] {
        assert_eq!(parse_u64(&u64_to_string(n)), Some(n));
    }
}
