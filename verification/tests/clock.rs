use oshi_api::time::{humanize, number, span, EPOCH, STAMP_LEN};

fn s(text: &str) -> String {
    text.to_string()
}

#[test]
fn numbers_in_decimal() {
    for n in [0u128, 1, 9, 10, 11, 99, 100, 101, 1440, 65535, 1234567890, u64::MAX as u128, u128::MAX] {
        assert_eq!(number(n), n.to_string());
    }
}

#[test]
fn spans_in_two_units() {
    assert_eq!(span(0), "0m");
    assert_eq!(span(59), "0m");
    assert_eq!(span(60), "1m");
    assert_eq!(span(59 * 60 + 59), "59m");
    assert_eq!(span(3600), "1h 0m");
    assert_eq!(span(3600 * 5 + 60 * 7 + 3), "5h 7m");
    assert_eq!(span(86400 - 1), "23h 59m");
    assert_eq!(span(86400), "1d 0h");
    assert_eq!(span(86400 * 3 + 3600 * 4 + 60 * 59), "3d 4h");
    assert_eq!(span(86400 * 400), "400d 0h");
}

#[test]
fn the_epoch_is_the_start_of_1970() {
    assert_eq!(EPOCH, 74784816000);
    assert_eq!(STAMP_LEN, 19);
    assert_eq!(humanize("1970-01-01T00:00:00Z", 0), (s("1970-01-01 00:00:00"), s("in 0m")));
    assert_eq!(humanize("1970-01-01T00:01:00Z", 0).1, "in 1m");
    assert_eq!(humanize("1970-01-02T00:00:00Z", 0).1, "in 1d 0h");
    assert_eq!(humanize("1969-12-31T23:00:00Z", 0).1, "1h 0m ago");
    assert_eq!(humanize("1970-01-01T00:00:00Z", 59).1, "0m ago");
}

#[test]
fn timestamps_against_known_moments() {
    let now = 1704164645;
    assert_eq!(humanize("2024-01-02T03:04:05Z", now), (s("2024-01-02 03:04:05"), s("in 0m")));
    assert_eq!(humanize("2024-01-02T08:11:05Z", now).1, "in 5h 7m");
    assert_eq!(humanize("2024-01-01T03:04:05Z", now).1, "1d 0h ago");
    assert_eq!(humanize("2024-03-01T03:04:05Z", now).1, "in 59d 0h");
    assert_eq!(humanize("2023-03-01T03:04:05Z", now).1, "307d 0h ago");
    assert_eq!(humanize("2000-02-29T00:00:00Z", 951782400).1, "in 0m");
    assert_eq!(humanize("2000-03-01T00:00:00Z", 951782400).1, "in 1d 0h");
    assert_eq!(humanize("2100-03-01T00:00:00Z", 4107456000).1, "in 1d 0h");
    assert_eq!(humanize("2038-01-19T03:14:08Z", 2147483648).1, "in 0m");
    assert_eq!(humanize("2024-01-02 03:04:05", now).0, "2024-01-02 03:04:05");
    assert_eq!(humanize("2024-01-02T03:04:05.123+09:00", now), (s("2024-01-02 03:04:05"), s("in 0m")));
}

#[test]
fn timestamps_that_name_no_moment() {
    for stamp in ["", "soon", "2024-01-02", "2024-01-02T03:04:0", "2024-13-02T03:04:05Z", "2024-00-02T03:04:05Z", "2024-01-00T03:04:05Z", "2024-01-32T03:04:05Z", "2024-01-02T24:04:05Z", "2024-01-02T03:60:05Z", "2024-01-02T03:04:61Z", "2024-01-0aT03:04:05Z", "20x4-01-02T03:04:05Z", "+024-01-02T03:04:05Z"] {
        assert_eq!(humanize(stamp, 1704164645).1, "unknown", "{:?}", stamp);
    }
    assert_eq!(humanize("soon", 0).0, "soon");
    assert_eq!(humanize("", 0).0, "");
    assert_eq!(humanize("2024-01-02T03:04:0", 0).0, "2024-01-02T03:04:0");
    assert_eq!(humanize("2024-13-02T03:04:05Z", 0).0, "2024-13-02 03:04:05");
    assert_eq!(humanize("2024-01-02T03:04:60Z", 1704164645).1, "in 0m");
    assert_eq!(humanize("0000-01-01T00:00:00Z", 0).1, "719528d 0h ago");
    assert_eq!(humanize("9999-12-31T23:59:59Z", u64::MAX).1.ends_with(" ago"), true);
}
