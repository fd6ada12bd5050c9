use memory_agent::date::{parse_time_to_chinese_date, show_time};

#[test]
fn a_time_in_utc_shows_its_own_day() {
    assert_eq!(parse_time_to_chinese_date("2026-07-11T08:30:00Z"), "2026年07月11日");
    assert_eq!(parse_time_to_chinese_date("0999-01-02T00:00:00Z"), "0999年01月02日");
    assert_eq!(parse_time_to_chinese_date("2024-02-29T23:59:59Z"), "2024年02月29日");
    assert_eq!(parse_time_to_chinese_date("2026-07-11 08:30:60z"), "2026年07月11日");
    assert_eq!(parse_time_to_chinese_date("2026-07-11t00:00:00Z"), "2026年07月11日");
}

#[test]
fn a_time_elsewhere_shows_the_day_in_utc() {
    assert_eq!(parse_time_to_chinese_date("2026-07-11T07:59:59+08:00"), "2026年07月10日");
    assert_eq!(parse_time_to_chinese_date("2026-07-11T08:00:00+08:00"), "2026年07月11日");
    assert_eq!(parse_time_to_chinese_date("2025-12-31T20:00:00.123456-05:00"), "2026年01月01日");
}

#[test]
fn a_year_of_more_or_fewer_digits_has_a_sign() {
    assert_eq!(parse_time_to_chinese_date("0000-01-01T00:00:00+01:00"), "-0001年12月31日");
    assert_eq!(parse_time_to_chinese_date("9999-12-31T23:59:59-01:00"), "+10000年01月01日");
}

#[test]
fn what_is_no_time_is_cut_after_ten_characters() {
    assert_eq!(parse_time_to_chinese_date("2026-07-11"), "2026-07-11");
    assert_eq!(parse_time_to_chinese_date("2026-07-11 08:30"), "2026-07-11");
    assert_eq!(parse_time_to_chinese_date("2026-02-30T08:30:00Z"), "2026-02-30");
    assert_eq!(parse_time_to_chinese_date("2026-07-11T08:30:00"), "2026-07-11");
    assert_eq!(parse_time_to_chinese_date("2025-02-29T08:30:00Z"), "2025-02-29");
    assert_eq!(parse_time_to_chinese_date("2026-13-01T08:30:00Z"), "2026-13-01");
    assert_eq!(parse_time_to_chinese_date("2026-04-31T08:30:00+08:00"), "2026-04-31");
    assert_eq!(parse_time_to_chinese_date("2026-07-11T24:00:00Z"), "2026-07-11");
    assert_eq!(parse_time_to_chinese_date("2026-07-11T08:60:00Z"), "2026-07-11");
    assert_eq!(parse_time_to_chinese_date("2026-07-11T08:30:61Z"), "2026-07-11");
    assert_eq!(parse_time_to_chinese_date("2026-07-11X08:30:00Z"), "2026-07-11");
    assert_eq!(parse_time_to_chinese_date("昨天"), "昨天");
    assert_eq!(parse_time_to_chinese_date(""), "");
}

#[test]
fn showing_a_day_that_was_read() {
    assert_eq!(show_time(Some((2026, 7, 1)), "x"), "2026年07月01日");
    assert_eq!(show_time(None, "01234567890"), "0123456789");
}
