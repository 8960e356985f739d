use dfs_audit::timefmt::{parse_timestamp, render_timestamp, MAX_RENDERABLE_SECONDS};

#[test]
fn render_epoch_start() {
    assert_eq!(render_timestamp(0), "1970-01-01 00:00:00");
}

#[test]
fn render_known_instants() {
    assert_eq!(render_timestamp(86399), "1970-01-01 23:59:59");
    assert_eq!(render_timestamp(86400), "1970-01-02 00:00:00");
    assert_eq!(render_timestamp(1_000_000_000), "2001-09-09 01:46:40");
}

#[test]
fn render_last_renderable_second() {
    assert_eq!(
        render_timestamp(MAX_RENDERABLE_SECONDS - 1),
        "9999-12-31 23:59:59"
    );
}

#[test]
fn render_matches_chrono() {
    let samples: Vec<i64> = vec![
        0,
        1,
        59,
        86399,
        86400,
        951_782_400,    // a leap day
        951_868_799,    // end of that leap day
        1_000_000_000,
        1_582_934_400,  // a day in a leap year after the leap day
        4_107_542_399,  // within year 2100, which is not a leap year
        4_107_542_400,
        253_402_300_799,
    ];
    for &s in &samples {
        let dt = chrono::DateTime::<chrono::Utc>::from_timestamp(s, 0).unwrap();
        let expected = dt.format("%Y-%m-%d %H:%M:%S").to_string();
        assert_eq!(render_timestamp(s), expected, "timestamp {}", s);
    }
}

#[test]
fn round_trip_is_lossless() {
    let samples: Vec<i64> = vec![
        0,
        1,
        86399,
        86400,
        951_782_400,
        1_000_000_000,
        1_700_000_000,
        253_402_300_799,
    ];
    for &s in &samples {
        let rendered = render_timestamp(s);
        assert_eq!(parse_timestamp(&rendered), Some(s), "timestamp {}", s);
    }
}

#[test]
fn parse_accepts_leap_day() {
    let s = parse_timestamp("2000-02-29 12:34:56").unwrap();
    assert_eq!(render_timestamp(s), "2000-02-29 12:34:56");
}

#[test]
fn parse_rejects_malformed() {
    assert_eq!(parse_timestamp(""), None);
    assert_eq!(parse_timestamp("not a timestamp!!!!"), None);
    assert_eq!(parse_timestamp("2020-01-01"), None);
    assert_eq!(parse_timestamp("2020-01-01 00:00:0"), None);
    assert_eq!(parse_timestamp("2020-01-01 00:00:000"), None);
    assert_eq!(parse_timestamp("2020/01/01 00:00:00"), None);
    assert_eq!(parse_timestamp("2020-01-01T00:00:00"), None);
}

#[test]
fn parse_rejects_out_of_range_fields() {
    assert_eq!(parse_timestamp("2020-13-01 00:00:00"), None);
    assert_eq!(parse_timestamp("2020-00-01 00:00:00"), None);
    assert_eq!(parse_timestamp("2020-02-30 00:00:00"), None);
    assert_eq!(parse_timestamp("2100-02-29 00:00:00"), None); // 2100 is not leap
    assert_eq!(parse_timestamp("2020-01-00 00:00:00"), None);
    assert_eq!(parse_timestamp("2020-01-01 24:00:00"), None);
    assert_eq!(parse_timestamp("2020-01-01 00:60:00"), None);
    assert_eq!(parse_timestamp("2020-01-01 00:00:60"), None);
    assert_eq!(parse_timestamp("1969-12-31 23:59:59"), None);
}

#[test]
fn parse_agrees_with_chrono() {
    let samples = [
        "1970-01-01 00:00:00",
        "1999-12-31 23:59:59",
        "2000-02-29 06:07:08",
        "2024-02-29 23:59:59",
        "2026-10-12 12:00:00",
    ];
    for text in samples {
        let ours = parse_timestamp(text).unwrap();
        let theirs = chrono::NaiveDateTime::parse_from_str(text, "%Y-%m-%d %H:%M:%S")
            .unwrap()
            .and_utc()
            .timestamp();
        assert_eq!(ours, theirs, "stamp {}", text);
    }
}
