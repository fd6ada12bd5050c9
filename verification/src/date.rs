//! Dates as they are shown beside a memory.
use crate::text::{all_digits, decimal_value, digit_value, is_digit, prefix, take_chars};
use chrono::{Datelike, TimeZone};
use vstd::prelude::*;

verus! {

/// A day of the calendar, in UTC.
#[derive(Debug, Clone, Copy, PartialEq, Eq, Structural)]
pub struct UtcDate {
    pub year: i32,
    pub month: u32,
    pub day: u32,
}

pub open spec fn is_leap_year(year: int) -> bool {
    year % 4 == 0 && (year % 100 != 0 || year % 400 == 0)
}

pub open spec fn days_in_month(year: int, month: int) -> int {
    if month == 2 {
        if is_leap_year(year) {
            29
        } else {
            28
        }
    } else if month == 4 || month == 6 || month == 9 || month == 11 {
        30
    } else {
        31
    }
}

/// There is such a day in the calendar.
pub open spec fn is_calendar_day(year: int, month: int, day: int) -> bool {
    1 <= month <= 12 && 1 <= day <= days_in_month(year, month)
}

/// A day that a time with a year of four digits can fall on in UTC.
pub open spec fn is_shown_day(year: int, month: int, day: int) -> bool {
    -1 <= year <= 10000 && is_calendar_day(year, month, day)
}

/// `n` in decimal digits, with zeros before it up to `width` digits.
pub open spec fn padded(n: nat, width: nat) -> Seq<char>
    decreases n, width,
{
    if n == 0 && width == 0 {
        Seq::empty()
    } else {
        let shorter = if width > 0 {
            (width - 1) as nat
        } else {
            0
        };
        padded(n / 10, shorter).push((n % 10 + '0' as nat) as char)
    }
}

/// A year: four digits, and a sign where four are not enough to write it.
pub open spec fn year_text(year: int) -> Seq<char> {
    if year < 0 {
        "-"@ + padded((-year) as nat, 4)
    } else if year > 9999 {
        "+"@ + padded(year as nat, 4)
    } else {
        padded(year as nat, 4)
    }
}

/// A day as it is shown.
pub open spec fn date_text(year: int, month: int, day: int) -> Seq<char> {
    year_text(year) + "年"@ + padded(month as nat, 2) + "月"@ + padded(day as nat, 2) + "日"@
}

/// Digits stand from `from` up to `to`.
pub open spec fn digits_at(s: Seq<char>, from: int, to: int) -> bool {
    all_digits(s.subrange(from, to))
}

/// The number that the digits from `from` up to `to` write.
pub open spec fn number_at(s: Seq<char>, from: int, to: int) -> int {
    decimal_value(s.subrange(from, to))
}

/// The text begins with a day and a time of day, as in `2026-07-11T08:30:00`, and
/// something follows. The day is one of the calendar, `t` or a space may stand in
/// place of `T`, and a minute may have a leap second.
pub open spec fn begins_with_time(s: Seq<char>) -> bool {
    &&& s.len() >= 20
    &&& digits_at(s, 0, 4) && s[4] == '-'
    &&& digits_at(s, 5, 7) && s[7] == '-'
    &&& digits_at(s, 8, 10) && (s[10] == 'T' || s[10] == 't' || s[10] == ' ')
    &&& digits_at(s, 11, 13) && s[13] == ':' && number_at(s, 11, 13) < 24
    &&& digits_at(s, 14, 16) && s[16] == ':' && number_at(s, 14, 16) < 60
    &&& digits_at(s, 17, 19) && number_at(s, 17, 19) <= 60
    &&& is_calendar_day(number_at(s, 0, 4), number_at(s, 5, 7), number_at(s, 8, 10))
}

/// A time in UTC in the form `2026-07-11T08:30:00Z`. The `Z` may be a small letter.
pub open spec fn is_utc_stamp(s: Seq<char>) -> bool {
    begins_with_time(s) && s.len() == 20 && (s[19] == 'Z' || s[19] == 'z')
}

/// The day that is written in such a time.
pub open spec fn stamped_day(s: Seq<char>) -> (i32, u32, u32) {
    (number_at(s, 0, 4) as i32, number_at(s, 5, 7) as u32, number_at(s, 8, 10) as u32)
}

/// The day in UTC, as year, month and day, of the time that
/// `chrono::DateTime::parse_from_rfc3339` reads.
pub uninterp spec fn rfc3339_utc_day(text: Seq<char>) -> Option<(i32, u32, u32)>;

/// `chrono::DateTime::parse_from_rfc3339`, its result taken as the day on which
/// that time falls in UTC. The result is named. It is stated that the day is one
/// of the calendar, in a year of four digits or next to one; that nothing is read
/// from a text that does not begin with a day of the calendar and a time of day,
/// with something behind them; and that the plain form with `Z` at the end gives
/// the day that is written in it.
#[verifier::external_body]
fn parse_from_rfc3339(text: &str) -> (r: Option<(i32, u32, u32)>)
    ensures
        r == rfc3339_utc_day(text@),
        r matches Some(d) ==> is_shown_day(d.0 as int, d.1 as int, d.2 as int),
        r is Some ==> begins_with_time(text@),
        is_utc_stamp(text@) ==> r == Some(stamped_day(text@)),
{
    match chrono::DateTime::parse_from_rfc3339(text) {
        Ok(time) => {
            let utc = time.with_timezone(&chrono::Utc);
            Some((utc.year(), utc.month(), utc.day()))
        },
        Err(_) => None,
    }
}

/// `chrono::DateTime::format`, on the first moment of a day in UTC, with the
/// pattern of the dates shown here: year, month and day in digits, the year with
/// four of them and a sign where it has more or is negative, the others with two.
#[verifier::external_body]
fn format_day(day: UtcDate, pattern: &str) -> (r: String)
    requires
        is_shown_day(day.year as int, day.month as int, day.day as int),
        pattern@ == "%Y年%m月%d日"@,
    ensures
        r@ == date_text(day.year as int, day.month as int, day.day as int),
{
    let start = chrono::Utc.with_ymd_and_hms(day.year, day.month, day.day, 0, 0, 0);
    start.unwrap().format(pattern).to_string()
}

/// What is shown of a time: its day, or the beginning of the text where no time
/// was read from it.
pub open spec fn time_text(read: Option<(i32, u32, u32)>, text: Seq<char>) -> Seq<char> {
    match read {
        Some(d) => date_text(d.0 as int, d.1 as int, d.2 as int),
        None => prefix(text, 10),
    }
}

/// What is shown of a time, given what was read from its text.
pub fn show_time(read: Option<(i32, u32, u32)>, text: &str) -> (r: String)
    requires
        read matches Some(d) ==> is_shown_day(d.0 as int, d.1 as int, d.2 as int),
    ensures
        r@ == time_text(read, text@),
{
    match read {
        Some((year, month, day)) => format_day(UtcDate { year, month, day }, "%Y年%m月%d日"),
        None => take_chars(text, 10),
    }
}

/// What is shown of a time: the day on which it falls in UTC, or the first ten
/// characters of a text that is no time.
pub fn parse_time_to_chinese_date(iso_str: &str) -> (r: String)
    ensures
        r@ == time_text(rfc3339_utc_day(iso_str@), iso_str@),
        rfc3339_utc_day(iso_str@) matches Some(d) ==> is_shown_day(
            d.0 as int,
            d.1 as int,
            d.2 as int,
        ),
        !begins_with_time(iso_str@) ==> r@ == prefix(iso_str@, 10),
        is_utc_stamp(iso_str@) ==> r@ == time_text(Some(stamped_day(iso_str@)), iso_str@),
{
    let read = parse_from_rfc3339(iso_str);
    show_time(read, iso_str)
}

/// A number in digits is made of digits, has as many as were asked for where that
/// is enough, and reads as the number.
pub proof fn law_padded(n: nat, width: nat)
    ensures
        all_digits(padded(n, width)),
        decimal_value(padded(n, width)) == n,
        padded(n, width).len() >= width,
        width == 2 && n < 100 ==> padded(n, width).len() == 2,
        width == 3 && n < 1000 ==> padded(n, width).len() == 3,
        width == 4 && n < 10000 ==> padded(n, width).len() == 4,
{
    lemma_padded(n, width);
    reveal_with_fuel(padded, 6);
}

proof fn lemma_padded(n: nat, width: nat)
    ensures
        all_digits(padded(n, width)),
        decimal_value(padded(n, width)) == n,
        padded(n, width).len() >= width,
    decreases n, width,
{
    if n > 0 || width > 0 {
        let shorter = if width > 0 {
            (width - 1) as nat
        } else {
            0
        };
        lemma_padded(n / 10, shorter);
        let front = padded(n / 10, shorter);
        let c = (n % 10 + '0' as nat) as char;
        assert(is_digit(c) && digit_value(c) == n % 10);
        let all = padded(n, width);
        assert(all == front.push(c));
        assert(all.drop_last() =~= front);
        assert forall|i: int| 0 <= i < all.len() implies is_digit(#[trigger] all[i]) by {
            if i < front.len() {
                assert(is_digit(front[i]));
            }
        }
    }
}

/// Digits that are read and written again with the same width are the same.
proof fn lemma_padded_again(digits: Seq<char>)
    requires
        all_digits(digits),
    ensures
        decimal_value(digits) >= 0,
        padded(decimal_value(digits) as nat, digits.len()) == digits,
    decreases digits.len(),
{
    if digits.len() > 0 {
        let front = digits.drop_last();
        assert forall|i: int| 0 <= i < front.len() implies is_digit(#[trigger] front[i]) by {
            assert(is_digit(digits[i]));
        }
        lemma_padded_again(front);
        assert(is_digit(digits[digits.len() - 1]));
        let n = decimal_value(digits);
        let d = digit_value(digits.last());
        assert(n == decimal_value(front) * 10 + d);
        assert(0 <= d < 10);
        assert(n / 10 == decimal_value(front) && n % 10 == d);
        assert((d + '0' as int) as char == digits.last());
        assert(padded(n as nat, digits.len()) =~= digits);
    }
}

/// What is shown of a day: its month and its day of the month in two digits each
/// and, before them, its year in four, each with its sign behind it. Years before
/// the year 0 and after the year 9999 have a plus or a minus. Where no time was
/// read, the beginning of the text is shown, ten characters at most.
pub proof fn law_show_time(read: Option<(i32, u32, u32)>, text: &str, r: String)
    requires
        read matches Some(d) ==> is_shown_day(d.0 as int, d.1 as int, d.2 as int),
        call_ensures(show_time, (read, text), r),
    ensures
        read is None ==> r@.is_prefix_of(text@) && (if text@.len() < 10 {
            r@ == text@
        } else {
            r@.len() == 10
        }),
        read matches Some(d) ==> {
            let n = r@.len() as int;
            &&& n >= 11
            &&& r@[n - 1] == '日' && r@[n - 4] == '月' && r@[n - 7] == '年'
            &&& all_digits(r@.subrange(n - 3, n - 1)) && decimal_value(r@.subrange(n - 3, n - 1))
                == d.2
            &&& all_digits(r@.subrange(n - 6, n - 4)) && decimal_value(r@.subrange(n - 6, n - 4))
                == d.1
            &&& 0 <= d.0 <= 9999 ==> n == 11 && all_digits(r@.subrange(0, 4)) && decimal_value(
                r@.subrange(0, 4),
            ) == d.0
            &&& d.0 < 0 ==> r@[0] == '-' && all_digits(r@.subrange(1, n - 7)) && decimal_value(
                r@.subrange(1, n - 7),
            ) == -d.0
            &&& d.0 > 9999 ==> r@[0] == '+' && all_digits(r@.subrange(1, n - 7)) && decimal_value(
                r@.subrange(1, n - 7),
            ) == d.0
        },
{
    match read {
        None => {
            assert(text@.subrange(0, r@.len() as int) =~= r@);
        },
        Some(d) => {
            reveal_strlit("年");
            reveal_strlit("月");
            reveal_strlit("日");
            reveal_strlit("-");
            reveal_strlit("+");
            let year = d.0 as int;
            let size = (if year < 0 {
                -year
            } else {
                year
            }) as nat;
            law_padded(size, 4);
            law_padded(d.1 as nat, 2);
            law_padded(d.2 as nat, 2);
            let n = r@.len() as int;
            assert(r@ == date_text(year, d.1 as int, d.2 as int));
            let y = year_text(year);
            assert(n == y.len() + 7);
            assert(r@.subrange(n - 3, n - 1) =~= padded(d.2 as nat, 2));
            assert(r@.subrange(n - 6, n - 4) =~= padded(d.1 as nat, 2));
            if 0 <= year <= 9999 {
                assert(r@.subrange(0, 4) =~= padded(size, 4));
            } else {
                assert(r@.subrange(1, n - 7) =~= padded(size, 4));
            }
        },
    }
}

/// What is shown of a text is what is shown of the time that was read from it, and
/// nothing else of the text counts where one was read.
pub proof fn law_time_is_shown_as_read(text: &str, other: &str, shown: String, r: String)
    requires
        call_ensures(parse_time_to_chinese_date, (text,), r),
        call_ensures(show_time, (rfc3339_utc_day(text@), other), shown),
        rfc3339_utc_day(text@) is None ==> other@ == text@,
    ensures
        r@ == shown@,
{
}

/// Of a time in UTC the day is shown in the digits in which it is written.
pub proof fn law_utc_time_shows_its_own_day(text: &str, r: String)
    requires
        call_ensures(parse_time_to_chinese_date, (text,), r),
        is_utc_stamp(text@),
    ensures
        r@ == text@.subrange(0, 4) + "年"@ + text@.subrange(5, 7) + "月"@ + text@.subrange(8, 10)
            + "日"@,
{
    let s = text@;
    let a = s.subrange(0, 4);
    let b = s.subrange(5, 7);
    let c = s.subrange(8, 10);
    lemma_padded_again(a);
    lemma_padded_again(b);
    lemma_padded_again(c);
    lemma_decimal_bound(a);
    lemma_decimal_bound(b);
    lemma_decimal_bound(c);
    assert(number_at(s, 0, 4) <= 9999);
    assert(year_text(number_at(s, 0, 4)) == a);
}

proof fn lemma_decimal_bound(digits: Seq<char>)
    requires
        all_digits(digits),
        digits.len() <= 4,
    ensures
        0 <= decimal_value(digits) <= 9999,
        digits.len() <= 3 ==> decimal_value(digits) <= 999,
        digits.len() <= 2 ==> decimal_value(digits) <= 99,
        digits.len() <= 1 ==> decimal_value(digits) <= 9,
    decreases digits.len(),
{
    if digits.len() > 0 {
        let front = digits.drop_last();
        assert forall|i: int| 0 <= i < front.len() implies is_digit(#[trigger] front[i]) by {
            assert(is_digit(digits[i]));
        }
        lemma_decimal_bound(front);
        assert(is_digit(digits[digits.len() - 1]));
        if front.len() == 0 {
            assert(decimal_value(front) == 0);
        }
    }
}

/// A text that is too short for a time, or does not begin with a day of the
/// calendar and a time of day, is cut after ten characters.
pub proof fn law_no_time_is_cut(text: &str, r: String)
    requires
        call_ensures(parse_time_to_chinese_date, (text,), r),
        text@.len() < 20 || !begins_with_time(text@),
    ensures
        r@.is_prefix_of(text@),
        text@.len() < 10 ==> r@ == text@,
        text@.len() >= 10 ==> r@.len() == 10,
{
    assert(text@.subrange(0, r@.len() as int) =~= r@);
}

} // verus!
