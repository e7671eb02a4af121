use forgepulse_server::schedule::{parse_sync_interval, parse_u64_chars};

fn chars(s: &str) -> Vec<char> {
    s.chars().collect()
}

#[test]
fn accepts_hour_and_minute_intervals() {
    assert_eq!(parse_sync_interval("2h").expect("seconds"), 7_200);
    assert_eq!(parse_sync_interval("15m").expect("seconds"), 900);
    assert_eq!(parse_sync_interval("bad").expect("seconds"), 3_600);
}

#[test]
fn intervals_never_drop_below_a_minute() {
    assert_eq!(parse_sync_interval("0m"), Some(60));
    assert_eq!(parse_sync_interval("0h"), Some(60));
    assert_eq!(parse_sync_interval("1m"), Some(60));
    assert_eq!(parse_sync_interval("2m"), Some(120));
}

#[test]
fn unreadable_intervals_fall_back_to_an_hour() {
    assert_eq!(parse_sync_interval(""), Some(3_600));
    assert_eq!(parse_sync_interval("h"), Some(3_600));
    assert_eq!(parse_sync_interval("30s"), Some(3_600));
    assert_eq!(parse_sync_interval("-5m"), Some(3_600));
    assert_eq!(parse_sync_interval("1.5h"), Some(3_600));
    assert_eq!(parse_sync_interval("18446744073709551616h"), Some(3_600));
}

#[test]
fn a_leading_plus_is_accepted() {
    assert_eq!(parse_sync_interval("+5m"), Some(300));
    assert_eq!(parse_sync_interval("+"), Some(3_600));
}

#[test]
fn intervals_that_overflow_in_seconds_are_refused() {
    assert_eq!(parse_sync_interval("18446744073709551615m"), None);
    assert_eq!(parse_sync_interval("5124095576030432h"), None);
    assert_eq!(parse_sync_interval("5124095576030431h"), Some(5_124_095_576_030_431 * 3_600));
}

#[test]
fn decimal_reading_matches_the_standard_parser() {
    for text in ["0", "+7", "007", "18446744073709551615", "18446744073709551616", "", "+", "-1", "1a", " 1"] {
        assert_eq!(parse_u64_chars(&chars(text)), text.parse::<u64>().ok(), "{text}");
    }
}
