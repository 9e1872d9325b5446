use ha_node::config::{
    has_at_most_digits, parse_timeout, ConfigError, CsiControllerConfig, MAX_TIMEOUT_DIGITS,
};
use std::time::Duration;

#[test]
fn settings_keep_what_they_were_given() {
    let config = CsiControllerConfig::new("http://rest:8081".to_string(), Duration::from_secs(5));
    assert_eq!(config.rest_endpoint(), "http://rest:8081");
    assert_eq!(config.io_timeout(), Duration::from_secs(5));
}

#[test]
fn settings_from_both_arguments() {
    let config = CsiControllerConfig::from_args(Some("http://rest:8081"), Some("30s")).unwrap();
    assert_eq!(config.rest_endpoint(), "http://rest:8081");
    assert_eq!(config.io_timeout(), Duration::from_secs(30));
}

#[test]
fn endpoint_is_asked_for_first() {
    assert_eq!(CsiControllerConfig::from_args(None, None).unwrap_err(), ConfigError::MissingEndpoint);
    assert_eq!(
        CsiControllerConfig::from_args(None, Some("30s")).unwrap_err(),
        ConfigError::MissingEndpoint
    );
    assert_eq!(
        CsiControllerConfig::from_args(None, Some("soon")).unwrap_err(),
        ConfigError::MissingEndpoint
    );
}

#[test]
fn timeout_must_be_given() {
    assert_eq!(
        CsiControllerConfig::from_args(Some("http://rest:8081"), None).unwrap_err(),
        ConfigError::MissingTimeout
    );
}

fn invalid(why: &str) -> ConfigError {
    ConfigError::InvalidTimeout(why.to_string())
}

#[test]
fn timeout_must_be_a_duration() {
    assert_eq!(
        CsiControllerConfig::from_args(Some("http://rest:8081"), Some("soon")).unwrap_err(),
        invalid("expected number at 0")
    );
    assert_eq!(parse_timeout(""), Err(invalid("value was empty")));
    assert_eq!(parse_timeout("30"), Err(invalid("time unit needed, for example 30sec or 30ms")));
    assert_eq!(
        parse_timeout("30 parsecs"),
        Err(invalid(
            "unknown time unit \"parsecs\", supported units: ns, us/µs, ms, sec, min, hours, \
             days, weeks, months, years (and few variations)"
        ))
    );
    assert_eq!(parse_timeout("30s!"), Err(invalid("invalid character at 3")));
    assert_eq!(parse_timeout("0.5ns"), Err(invalid(
        "number is too large or cannot be represented without a lack of precision \
         (values below 1ns are not supported)"
    )));
}

#[test]
fn timeout_text_may_be_long() {
    assert_eq!(parse_timeout("1hour 12min 5s"), Ok(Duration::from_secs(4325)));
    assert_eq!(parse_timeout("1hour 12min 005s"), Ok(Duration::from_secs(4325)));
    assert_eq!(parse_timeout("1 hour 12 min 5 sec"), Ok(Duration::from_secs(4325)));
    assert_eq!(
        parse_timeout("1 years 2 months 3 weeks 4 days 5 hours 6 minutes 7 seconds"),
        Ok(Duration::from_secs(31557600 + 2 * 2630016 + 3 * 604800 + 4 * 86400 + 5 * 3600 + 367))
    );
    let config =
        CsiControllerConfig::from_args(Some("e"), Some("   1   hour   12   min   5   sec   "))
            .unwrap();
    assert_eq!(config.io_timeout(), Duration::from_secs(4325));
}

#[test]
fn timeout_with_the_most_digits() {
    assert_eq!(MAX_TIMEOUT_DIGITS, 11);
    assert!(has_at_most_digits("99999999999s", MAX_TIMEOUT_DIGITS));
    assert_eq!(parse_timeout("99999999999s"), Ok(Duration::from_secs(99999999999)));
    assert_eq!(parse_timeout("99999999999y"), Ok(Duration::from_secs(3155759999968442400)));
    assert_eq!(parse_timeout("00000000005s"), Ok(Duration::from_secs(5)));
    assert_eq!(parse_timeout("12345h 678901ms"), Ok(Duration::new(12345 * 3600 + 678, 901_000_000)));
}

#[test]
fn texts_with_more_digits_are_told_apart() {
    assert!(!has_at_most_digits("100000000000s", MAX_TIMEOUT_DIGITS));
    assert!(!has_at_most_digits("000000000005s", MAX_TIMEOUT_DIGITS));
    assert!(!has_at_most_digits("18446744073709551615s 1000ms", MAX_TIMEOUT_DIGITS));
    assert!(!has_at_most_digits("5124095576030431h 15s 1000ms", MAX_TIMEOUT_DIGITS));
    assert!(!has_at_most_digits("123456 123456 s", MAX_TIMEOUT_DIGITS));
    assert!(has_at_most_digits("12345 123456 s", MAX_TIMEOUT_DIGITS));
}

#[test]
fn digits_are_counted() {
    assert!(has_at_most_digits("", 0));
    assert!(has_at_most_digits("no digits at all", 0));
    assert!(!has_at_most_digits("7", 0));
    assert!(has_at_most_digits("7", 1));
    assert!(has_at_most_digits("1h 2m 3s", 3));
    assert!(!has_at_most_digits("1h 2m 3s", 2));
    assert!(has_at_most_digits("µs ١٢٣ 12", 2));
    assert!(!has_at_most_digits("µs ١٢٣ 123", 2));
}

#[test]
fn timeouts_in_several_units() {
    assert_eq!(parse_timeout("0"), Ok(Duration::ZERO));
    assert_eq!(parse_timeout("500ms"), Ok(Duration::from_millis(500)));
    assert_eq!(parse_timeout("1m 30s"), Ok(Duration::from_secs(90)));
    assert_eq!(parse_timeout("2h"), Ok(Duration::from_secs(7200)));
    assert_eq!(parse_timeout("1us"), Ok(Duration::from_micros(1)));
    assert_eq!(parse_timeout("1.5s"), Ok(Duration::from_millis(1500)));
}

#[test]
fn errors_say_what_went_wrong() {
    assert_eq!(ConfigError::MissingEndpoint.message(), "rest endpoint must be specified");
    assert_eq!(ConfigError::MissingTimeout.message(), "I/O timeout must be specified");
    assert_eq!(invalid("expected number at 0").message(), "expected number at 0");
    assert_eq!(parse_timeout("soon").unwrap_err().message(), "expected number at 0");
}
