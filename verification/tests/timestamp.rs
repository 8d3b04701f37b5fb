use awatchlog::timestamp::{
    augment, default_offset_text, extract, extract_at, fallback_format, push_decimal, resolve, select,
    FALLBACK_COUNT,
};
use chrono::Datelike;

fn millis(text: &str, format: &str) -> i64 {
    chrono::DateTime::parse_from_str(text, format).unwrap().timestamp_millis()
}

#[test]
fn timestamp_round_trip() {
    let before = chrono::Utc::now().year();
    let found = extract("Jan 01 16:34:44", Some("%b %d %H:%M:%S"));
    let after = chrono::Utc::now().year();
    let expected_before = millis(&format!("{} Jan 01 16:34:44 +01:00", before), "%Y %b %d %H:%M:%S %z");
    let expected_after = millis(&format!("{} Jan 01 16:34:44 +01:00", after), "%Y %b %d %H:%M:%S %z");
    assert!(found == Some(expected_before) || found == Some(expected_after));
}

#[test]
fn format_fallback() {
    assert_eq!(extract("2018/02/08 13:08:48", None), Some(1518091728000));
    assert_eq!(
        select("2018/02/08 13:08:48", None),
        Some(("%Y/%m/%d %H:%M:%S".to_string(), "2018/02/08 13:08:48".to_string()))
    );
}

#[test]
fn year_and_offset_are_added_where_missing() {
    assert_eq!(default_offset_text(), "+01:00");
    assert_eq!(
        augment("Jan 01 16:34:44", "%b %d %H:%M:%S", 2018, "+01:00"),
        ("2018 Jan 01 16:34:44 +01:00".to_string(), "%Y %b %d %H:%M:%S %z".to_string())
    );
    assert_eq!(
        augment("2018/02/08 13:08:48", "%Y/%m/%d %H:%M:%S", 1999, "-05:00"),
        ("2018/02/08 13:08:48 -05:00".to_string(), "%Y/%m/%d %H:%M:%S %z".to_string())
    );
    assert_eq!(
        augment("08/Feb 13:08:48 +0200", "%d/%b %H:%M:%S %z", 2020, "+01:00"),
        ("2020 08/Feb 13:08:48 +0200".to_string(), "%Y %d/%b %H:%M:%S %z".to_string())
    );
    assert_eq!(
        augment("10/Oct/2000:13:55:36 -0700", "%d/%b/%Y:%H:%M:%S %z", 2020, "+01:00"),
        ("10/Oct/2000:13:55:36 -0700".to_string(), "%d/%b/%Y:%H:%M:%S %z".to_string())
    );
    assert_eq!(
        augment("18-02-08", "%y-%m-%d", 2020, "+01:00"),
        ("18-02-08 +01:00".to_string(), "%y-%m-%d %z".to_string())
    );
}

#[test]
fn numbers_are_written_in_decimal() {
    for (n, text) in [(0u32, "0"), (7, "7"), (10, "10"), (2018, "2018"), (90210, "90210"), (u32::MAX, "4294967295")] {
        let mut out = String::from("y=");
        push_decimal(&mut out, n);
        assert_eq!(out, format!("y={}", text));
    }
}

#[test]
fn fallbacks_are_tried_in_order() {
    assert_eq!(FALLBACK_COUNT, 5);
    assert_eq!(fallback_format(0), "%b %d %H:%M:%S");
    assert_eq!(fallback_format(1), "%Y-%m-%dT%H:%M:%S%z");
    assert_eq!(fallback_format(2), "%Y-%m-%d %H:%M:%S");
    assert_eq!(fallback_format(3), "%Y/%m/%d %H:%M:%S");
    assert_eq!(fallback_format(4), "%d/%b/%Y:%H:%M:%S %z");
}

#[test]
fn each_fallback_shape_is_recognised() {
    // syslog: 2018-01-01T16:34:44+01:00
    assert_eq!(
        extract_at("Jan 01 16:34:44 host daemon[12]: started", None, 2018, "+01:00"),
        Some(1514820884000)
    );
    // ISO 8601 with its own offset
    assert_eq!(
        extract_at("at 2018-02-08T13:08:48+0200 something happened", None, 1970, "+01:00"),
        Some(1518088128000)
    );
    // ISO 8601 with a space, no offset
    assert_eq!(extract_at("2018-02-08 13:08:48,123 INFO up", None, 1970, "+01:00"), Some(1518091728000));
    assert_eq!(extract_at("2018-02-08 13:08:48,123 INFO up", None, 1970, "+00:00"), Some(1518095328000));
    // error log
    assert_eq!(
        extract_at("2018/02/08 13:08:48 [error] 88#0: open() failed", None, 1970, "+01:00"),
        Some(1518091728000)
    );
    // combined access log
    assert_eq!(
        extract_at("127.0.0.1 - - [10/Oct/2000:13:55:36 -0700] \"GET / HTTP/1.0\" 200 2326", None, 1970, "+01:00"),
        Some(971211336000)
    );
}

#[test]
fn configured_format_comes_first() {
    // The configured format finds the second timestamp; the fallbacks would
    // find the first.
    let line = "2018/02/08 13:08:48 upstream said 09.02.2018 10:00:00";
    assert_eq!(
        select(line, Some("%d.%m.%Y %H:%M:%S")),
        Some(("%d.%m.%Y %H:%M:%S".to_string(), "09.02.2018 10:00:00".to_string()))
    );
    assert_eq!(extract_at(line, Some("%d.%m.%Y %H:%M:%S"), 1970, "+01:00"), Some(1518166800000));
    assert_eq!(extract_at(line, None, 1970, "+01:00"), Some(1518091728000));
}

#[test]
fn configured_format_without_match_falls_back() {
    assert_eq!(
        select("2018/02/08 13:08:48 [error]", Some("%d.%m.%Y")),
        Some(("%Y/%m/%d %H:%M:%S".to_string(), "2018/02/08 13:08:48".to_string()))
    );
    assert_eq!(extract_at("2018/02/08 13:08:48 [error]", Some("%d.%m.%Y"), 1970, "+01:00"), Some(1518091728000));
}

#[test]
fn matching_ignores_case() {
    assert_eq!(extract_at("JAN 01 16:34:44 host", None, 2018, "+01:00"), Some(1514820884000));
    assert_eq!(
        select("jan 01 16:34:44 host", Some("%b %d %H:%M:%S")),
        Some(("%b %d %H:%M:%S".to_string(), "jan 01 16:34:44".to_string()))
    );
}

#[test]
fn nothing_is_extracted_without_a_timestamp() {
    assert_eq!(select("no timestamp in this line", None), None);
    assert_eq!(extract_at("no timestamp in this line", None, 2018, "+01:00"), None);
    assert_eq!(extract_at("", None, 2018, "+01:00"), None);
    assert_eq!(extract("still nothing", Some("%Y-%m-%d")), None);
}

#[test]
fn a_match_that_names_no_instant_gives_nothing() {
    // The shape is there, the month is not.
    assert_eq!(
        select("2018/13/08 13:08:48 [error]", None),
        Some(("%Y/%m/%d %H:%M:%S".to_string(), "2018/13/08 13:08:48".to_string()))
    );
    assert_eq!(extract_at("2018/13/08 13:08:48 [error]", None, 1970, "+01:00"), None);
    assert_eq!(resolve("Foo 01 16:34:44", "%b %d %H:%M:%S", 2018, "+01:00"), None);
    assert_eq!(resolve("Jan 01 16:34:44", "%b %d %H:%M:%S", 2018, "nowhere"), None);
}

#[test]
fn resolve_parses_the_augmented_text() {
    assert_eq!(resolve("Jan 01 16:34:44", "%b %d %H:%M:%S", 2018, "+01:00"), Some(1514820884000));
    assert_eq!(resolve("Jan 01 16:34:44", "%b %d %H:%M:%S", 2019, "+01:00"), Some(1546356884000));
    assert_eq!(resolve("Jan 01 16:34:44", "%b %d %H:%M:%S", 2018, "+00:00"), Some(1514824484000));
    assert_eq!(resolve("1970-01-01 00:00:01 +0000", "%Y-%m-%d %H:%M:%S %z", 2018, "+01:00"), Some(1000));
}
