//! `touch`: the proleptic Gregorian calendar (days from 1970-01-01 and
//! back), time stamps of the forms `[[CC]YY]MMDDhhmm[.ss]`, `@SECONDS` and
//! `YYYY-MM-DD[ hh:mm[:ss]]`, and option parsing. A time stamp is the number
//! of seconds since the Unix epoch.
use vstd::prelude::*;
use crate::builtins::opts::{
    arg_is_dashdash, exit_model, exit_with_help, exit_with_line, fail_with_help, invalid_text,
    is_dashdash, long_parts, long_value, msg_invalid, msg_unrecognized, no_value_exit,
    no_value_text, short_value, split_long_option, take_long_value, take_short_value,
    unrecognized_text, ArgExit, ExitModel,
};
use crate::clock::{secs_since_epoch, system_now};
use crate::text::{
    all_digits, all_digits_range, chars_of, parse_signed, parse_signed_chars, split_by, split_chars,
    split_whitespace_chars, vviews, words, digits_upto, digits_value, find_char_from, first_index, is_digit,
    has_prefix, lemma_all_digits_sub, lemma_first_index_at, lemma_first_index_none, opt_view,
    owned, str_eq, str_starts_with, views, parse_unsigned, parse_unsigned_chars,
};

verus! {

/// A leap year of the Gregorian calendar.
pub open spec fn is_leap(y: int) -> bool {
    (y % 4 == 0 && y % 100 != 0) || y % 400 == 0
}

/// Whether `year` is a leap year.
pub fn leap_year(year: i32) -> (r: bool)
    ensures
        r == is_leap(year as int),
{
    (year % 4 == 0 && year % 100 != 0) || year % 400 == 0
}

/// The number of days of `month` in `year` (0 for a month that is not
/// `1..=12`).
pub open spec fn month_days(year: int, month: int) -> int {
    if month == 1 || month == 3 || month == 5 || month == 7 || month == 8 || month == 10 || month
        == 12 {
        31
    } else if month == 4 || month == 6 || month == 9 || month == 11 {
        30
    } else if month == 2 {
        if is_leap(year) {
            29
        } else {
            28
        }
    } else {
        0
    }
}

/// The number of days in a month.
pub fn days_in_month(year: i32, month: u32) -> (r: u32)
    ensures
        r == month_days(year as int, month as int),
{
    if month == 1 || month == 3 || month == 5 || month == 7 || month == 8 || month == 10 || month
        == 12 {
        31
    } else if month == 4 || month == 6 || month == 9 || month == 11 {
        30
    } else if month == 2 {
        if leap_year(year) {
            29
        } else {
            28
        }
    } else {
        0
    }
}

/// The day number of a civil date: days since 1970-01-01, counted in eras
/// of 400 years that start on March 1st.
pub open spec fn civil_days(y: int, m: int, d: int) -> int {
    let y2 = if m <= 2 {
        y - 1
    } else {
        y
    };
    let era = y2 / 400;
    let yoe = y2 - era * 400;
    let mp = if m > 2 {
        m - 3
    } else {
        m + 9
    };
    let doy = (153 * mp + 2) / 5 + d - 1;
    let doe = yoe * 365 + yoe / 4 - yoe / 100 + doy;
    era * 146097 + doe - 719468
}

/// The date is one whose day number the 32-bit computation reaches without
/// overflow.
pub open spec fn civil_fits(y: int, m: int, d: int) -> bool {
    i32::MIN <= civil_days(y, m, d) <= i32::MAX - 719468
}

/// Days since 1970-01-01 of a date, computed with 64 bits.
fn day_number(year: i32, month: i32, day: i32) -> (r: i64)
    requires
        1 <= month <= 12,
        1 <= day <= 31,
    ensures
        r == civil_days(year as int, month as int, day as int),
{
    let y: i64 = if month <= 2 {
        year as i64 - 1
    } else {
        year as i64
    };
    let era: i64 = if y >= 0 {
        y / 400
    } else {
        -((399 - y) / 400)
    };
    assert(era == y / 400) by (nonlinear_arith)
        requires
            era == (if y >= 0 {
                y / 400
            } else {
                -((399 - y) / 400)
            }),
            i32::MIN - 1 <= y <= i32::MAX,
    ;
    let yoe: i64 = y - era * 400;
    let mp: i64 = if month > 2 {
        month as i64 - 3
    } else {
        month as i64 + 9
    };
    let doy: i64 = (153 * mp + 2) / 5 + day as i64 - 1;
    let doe: i64 = yoe * 365 + yoe / 4 - yoe / 100 + doy;
    era * 146097 + doe - 719468
}

/// Days since 1970-01-01 of a date whose day number fits the 32-bit
/// computation.
pub fn days_from_civil(year: i32, month: i32, day: i32) -> (r: i64)
    requires
        1 <= month <= 12,
        1 <= day <= 31,
        civil_fits(year as int, month as int, day as int),
    ensures
        r == civil_days(year as int, month as int, day as int),
{
    day_number(year, month, day)
}

/// The civil date (year, month, day) of a day number.
pub open spec fn civil_of(days: int) -> (int, int, int) {
    let z = days + 719468;
    let era = z / 146097;
    let doe = z - era * 146097;
    let yoe = (doe - doe / 1460 + doe / 36524 - doe / 146096) / 365;
    let y = yoe + era * 400;
    let doy = doe - (365 * yoe + yoe / 4 - yoe / 100);
    let mp = (5 * doy + 2) / 153;
    let d = doy - (153 * mp + 2) / 5 + 1;
    let m = if mp < 10 {
        mp + 3
    } else {
        mp - 9
    };
    (
        if m <= 2 {
            y + 1
        } else {
            y
        },
        m,
        d,
    )
}

/// The civil date of a day number; the year is kept in 32 bits.
#[verifier::spinoff_prover]
#[verifier::rlimit(40)]
pub fn civil_from_days(days: i64) -> (r: (i32, u32, u32))
    requires
        days <= i64::MAX - 719468,
    ensures
        r.0 == civil_of(days as int).0 as i32,
        r.1 == civil_of(days as int).1,
        r.2 == civil_of(days as int).2,
{
    let z: i64 = days + 719468;
    let era: i64 = if z >= 0 {
        z / 146097
    } else {
        -((146096 - z) / 146097)
    };
    assert(era == z / 146097) by (nonlinear_arith)
        requires
            era == (if z >= 0 {
                z / 146097
            } else {
                -((146096 - z) / 146097)
            }),
    ;
    let doe: i64 = z - era * 146097;
    assert(0 <= doe < 146097) by (nonlinear_arith)
        requires
            doe == z - era * 146097,
            era == z / 146097,
    ;
    let yoe: i64 = (doe - doe / 1460 + doe / 36524 - doe / 146096) / 365;
    assert(0 <= yoe <= 400);
    let year: i64 = yoe + era * 400;
    let doy: i64 = doe - (365 * yoe + yoe / 4 - yoe / 100);
    let mp: i64 = (5 * doy + 2) / 153;
    let day: i64 = doy - (153 * mp + 2) / 5 + 1;
    let month: i64 = if mp < 10 {
        mp + 3
    } else {
        mp - 9
    };
    let year: i64 = if month <= 2 {
        year + 1
    } else {
        year
    };
    (year as i32, month as u32, day as u32)
}

/// Within an era: the day of the era of a date recovers its year of the
/// era.
proof fn lemma_year_of_era(yoe: int, doy: int)
    requires
        0 <= yoe <= 399,
        0 <= doy <= 365,
        doy == 365 ==> is_leap(yoe + 1),
    ensures
        ({
            let doe = yoe * 365 + yoe / 4 - yoe / 100 + doy;
            &&& 0 <= doe <= 146096
            &&& (doe - doe / 1460 + doe / 36524 - doe / 146096) / 365 == yoe
        }),
{
    let c = yoe / 100;
    let q = (yoe % 100) / 4;
    let r = yoe % 4;
    assert(yoe == 100 * c + 4 * q + r && 0 <= c <= 3 && 0 <= q <= 24 && 0 <= r <= 3) by (nonlinear_arith)
        requires
            0 <= yoe <= 399,
            c == yoe / 100,
            q == (yoe % 100) / 4,
            r == yoe % 4,
    ;
    assert(yoe / 4 == 25 * c + q) by (nonlinear_arith)
        requires
            yoe == 100 * c + 4 * q + r,
            0 <= r <= 3,
    ;
    let doe = yoe * 365 + yoe / 4 - yoe / 100 + doy;
    assert(doe == 36524 * c + 1461 * q + 365 * r + doy);
}

/// Within a year that starts on March 1st: the day of the year of a date
/// recovers its month.
proof fn lemma_month_of_year(mp: int, d: int, feb: int)
    requires
        0 <= mp <= 11,
        1 <= d,
        mp == 11 ==> d <= feb,
        mp != 11 ==> d <= (if mp == 1 || mp == 3 || mp == 6 || mp == 8 {
            30int
        } else {
            31int
        }),
        feb == 28 || feb == 29,
    ensures
        ({
            let doy = (153 * mp + 2) / 5 + d - 1;
            &&& (5 * doy + 2) / 153 == mp
            &&& 0 <= doy <= 336 + feb
        }),
{
    if mp == 0 {
    } else if mp == 1 {
    } else if mp == 2 {
    } else if mp == 3 {
    } else if mp == 4 {
    } else if mp == 5 {
    } else if mp == 6 {
    } else if mp == 7 {
    } else if mp == 8 {
    } else if mp == 9 {
    } else if mp == 10 {
    } else {
    }
}

/// Leap years repeat every 400 years.
proof fn lemma_leap_period(y: int, k: int)
    ensures
        is_leap(y + 400 * k) == is_leap(y),
{
    assert((y + 400 * k) % 4 == y % 4) by (nonlinear_arith);
    assert((y + 400 * k) % 100 == y % 100) by (nonlinear_arith);
    assert((y + 400 * k) % 400 == y % 400) by (nonlinear_arith);
}

/// `civil_of` inverts `civil_days`: the date of the day number of a valid
/// date is that date.
pub proof fn law_civil_round_trip(y: int, m: int, d: int)
    requires
        1 <= m <= 12,
        1 <= d <= month_days(y, m),
    ensures
        civil_of(civil_days(y, m, d)) == (y, m, d),
{
    let y2 = if m <= 2 {
        y - 1
    } else {
        y
    };
    let era = y2 / 400;
    let yoe = y2 - era * 400;
    let mp = if m > 2 {
        m - 3
    } else {
        m + 9
    };
    let feb: int = if is_leap(y) {
        29
    } else {
        28
    };
    assert(0 <= yoe <= 399) by (nonlinear_arith)
        requires
            era == y2 / 400,
            yoe == y2 - era * 400,
    ;
    lemma_month_of_year(mp, d, feb);
    let doy = (153 * mp + 2) / 5 + d - 1;
    lemma_leap_period(yoe + 1, era);
    assert(yoe + 1 + 400 * era == (if m <= 2 {
        y
    } else {
        y + 1
    }));
    assert(doy == 365 ==> is_leap(yoe + 1));
    lemma_year_of_era(yoe, doy);
    let doe = yoe * 365 + yoe / 4 - yoe / 100 + doy;
    let z = civil_days(y, m, d) + 719468;
    assert(z == era * 146097 + doe);
    assert(z / 146097 == era && z - (z / 146097) * 146097 == doe) by (nonlinear_arith)
        requires
            z == era * 146097 + doe,
            0 <= doe <= 146096,
    ;
}

/// The error for a time stamp that cannot be read.
pub open spec fn date_error(value: Seq<char>) -> ExitModel {
    ExitModel::Error(1, seq!["touch: invalid date format '"@ + value + "'"@])
}

/// `touch: invalid date format 'VALUE'`
fn date_error_exit(value: &str) -> (r: ArgExit)
    ensures
        exit_model(r) == date_error(value@),
{
    let line = owned("touch: invalid date format '").concat(value).concat("'");
    exit_with_line(1, line)
}

/// Seconds since the epoch of a date and time: the date must exist, the
/// time be valid (a leap second allowed), and the day number fit the
/// 32-bit computation.
pub open spec fn stamp_seconds(y: int, mo: int, d: int, h: int, mi: int, s: int) -> Option<int> {
    if 1 <= mo <= 12 && 1 <= d <= month_days(y, mo) && h <= 23 && mi <= 59 && s <= 60
        && civil_fits(y, mo, d) {
        Some(civil_days(y, mo, d) * 86400 + h * 3600 + mi * 60 + s)
    } else {
        None
    }
}

/// The time stamp of a date and time, or the error naming the text as typed.
pub fn file_time_from_parts(
    year: i32,
    month: u32,
    day: u32,
    hour: u32,
    minute: u32,
    second: u32,
    typed: &str,
) -> (r: Result<i64, ArgExit>)
    ensures
        stamp_seconds(
            year as int,
            month as int,
            day as int,
            hour as int,
            minute as int,
            second as int,
        ) matches Some(t) ==> i64::MIN <= t <= i64::MAX,
        match stamp_seconds(
            year as int,
            month as int,
            day as int,
            hour as int,
            minute as int,
            second as int,
        ) {
            Some(t) => r == Ok::<i64, ArgExit>(t as i64),
            None => r is Err && exit_model(r->Err_0) == date_error(typed@),
        },
{
    if !(1 <= month && month <= 12) || day == 0 || day > days_in_month(year, month) || hour > 23
        || minute > 59 || second > 60 {
        return Err(date_error_exit(typed));
    }
    let days = day_number(year, month as i32, day as i32);
    if days < -2147483648 || days > 2147483647 - 719468 {
        return Err(date_error_exit(typed));
    }
    Ok(days * 86400 + hour as i64 * 3600 + minute as i64 * 60 + second as i64)
}

/// The time stamp `[[CC]YY]MMDDhhmm[.ss]`: eight digits use `now_year`,
/// ten digits give years 1969 to 2068, twelve digits give the year in full.
pub open spec fn touch_stamp(value: Seq<char>, now_year: int) -> Option<int> {
    let main = match first_index(value, '.') {
        Some(i) => value.subrange(0, i),
        None => value,
    };
    let sec = match first_index(value, '.') {
        Some(i) => parse_unsigned(value.subrange(i + 1, value.len() as int), u32::MAX as int),
        None => Some(0int),
    };
    match sec {
        None => None,
        Some(second) => if !all_digits(main) {
            None
        } else {
            let year_off: Option<(int, int)> = if main.len() == 8 {
                Some((now_year, 0int))
            } else if main.len() == 10 {
                let yy = digits_value(main.subrange(0, 2));
                Some(
                    (
                        if yy >= 69 {
                            1900 + yy
                        } else {
                            2000 + yy
                        },
                        2int,
                    ),
                )
            } else if main.len() == 12 {
                Some((digits_value(main.subrange(0, 4)), 4int))
            } else {
                None
            };
            match year_off {
                None => None,
                Some((year, off)) => stamp_seconds(
                    year,
                    digits_value(main.subrange(off, off + 2)),
                    digits_value(main.subrange(off + 2, off + 4)),
                    digits_value(main.subrange(off + 4, off + 6)),
                    digits_value(main.subrange(off + 6, off + 8)),
                    second,
                ),
            }
        },
    }
}

/// The value of a run of two ASCII digits.
proof fn lemma_two_digits(s: Seq<char>)
    requires
        s.len() == 2,
        all_digits(s),
    ensures
        digits_value(s) == (s[0] as int - 48) * 10 + (s[1] as int - 48),
        0 <= digits_value(s) <= 99,
{
    let a = s.drop_last();
    assert(a.drop_last() =~= Seq::<char>::empty());
    assert(is_digit(s[0]) && is_digit(s[1]));
    assert(digits_value(a.drop_last()) == 0);
    assert(a.last() == s[0]);
    assert(digits_value(a) == s[0] as int - 48);
    assert(digits_value(s) == digits_value(a) * 10 + (s[1] as int - 48));
}

/// Four ASCII digits are worth at most 9999.
proof fn lemma_four_digits_bound(s: Seq<char>)
    requires
        s.len() == 4,
        all_digits(s),
    ensures
        0 <= digits_value(s) <= 9999,
{
    let s3 = s.drop_last();
    let s2 = s3.drop_last();
    assert(is_digit(s[2]) && is_digit(s[3]));
    assert(s2 =~= s.subrange(0, 2));
    lemma_all_digits_sub(s, 0, 2);
    lemma_two_digits(s2);
    assert(s3.last() == s[2]);
    assert(s3.drop_last() == s2);
    assert(digits_value(s3) == digits_value(s2) * 10 + (s[2] as int - 48));
    assert(digits_value(s) == digits_value(s3) * 10 + (s[3] as int - 48));
}

/// The value of two ASCII digits at `v[from..from + 2]`.
fn two_digits(v: &[char], from: usize) -> (r: u32)
    requires
        from + 2 <= v.len(),
        all_digits(v@.subrange(from as int, from + 2)),
    ensures
        r == digits_value(v@.subrange(from as int, from + 2)),
        r <= 99,
{
    proof {
        lemma_two_digits(v@.subrange(from as int, from + 2));
    }
    let x = digits_upto(v, from, from + 2, 99);
    match x {
        Some(n) => n as u32,
        None => 0,
    }
}

/// The value of a run of four ASCII digits.
proof fn lemma_four_digits_value(s: Seq<char>)
    requires
        s.len() == 4,
        all_digits(s),
    ensures
        digits_value(s) == (s[0] as int - 48) * 1000 + (s[1] as int - 48) * 100 + (s[2] as int - 48)
            * 10 + (s[3] as int - 48),
{
    let s3 = s.drop_last();
    let s2 = s3.drop_last();
    assert(s2 =~= s.subrange(0, 2));
    lemma_all_digits_sub(s, 0, 2);
    lemma_two_digits(s2);
    assert(s3.last() == s[2]);
    assert(digits_value(s3) == digits_value(s2) * 10 + (s[2] as int - 48));
    assert(digits_value(s) == digits_value(s3) * 10 + (s[3] as int - 48));
}

/// The two digits at `s[i..i + 2]` as a number.
proof fn lemma_two_digits_at(s: Seq<char>, i: int)
    requires
        all_digits(s),
        0 <= i,
        i + 2 <= s.len(),
    ensures
        digits_value(s.subrange(i, i + 2)) == (s[i] as int - 48) * 10 + (s[i + 1] as int - 48),
{
    lemma_all_digits_sub(s, i, i + 2);
    lemma_two_digits(s.subrange(i, i + 2));
}

/// Law: the twelve-digit stamp `CCYYMMDDhhmm` reads, in this order, the
/// year from its first four digits, the month from the next two, the day,
/// the hour and the minute; when those make a real date and time it is that
/// many seconds after the epoch, and otherwise it is refused.
pub proof fn law_touch_stamp_fields(value: Seq<char>, now_year: int)
    requires
        value.len() == 12,
        all_digits(value),
    ensures
        ({
            let y = (value[0] as int - 48) * 1000 + (value[1] as int - 48) * 100 + (value[2] as int
                - 48) * 10 + (value[3] as int - 48);
            let mo = (value[4] as int - 48) * 10 + (value[5] as int - 48);
            let d = (value[6] as int - 48) * 10 + (value[7] as int - 48);
            let h = (value[8] as int - 48) * 10 + (value[9] as int - 48);
            let mi = (value[10] as int - 48) * 10 + (value[11] as int - 48);
            touch_stamp(value, now_year) == if 1 <= mo <= 12 && 1 <= d <= month_days(y, mo) && h
                <= 23 && mi <= 59 && civil_fits(y, mo, d) {
                Some(civil_days(y, mo, d) * 86400 + h * 3600 + mi * 60)
            } else {
                None::<int>
            }
        }),
{
    assert forall|j: int| 0 <= j < value.len() implies value[j] != '.' by {
        assert(is_digit(value[j]));
    }
    lemma_first_index_none(value, '.');
    lemma_all_digits_sub(value, 0, 4);
    lemma_four_digits_value(value.subrange(0, 4));
    lemma_two_digits_at(value, 4);
    lemma_two_digits_at(value, 6);
    lemma_two_digits_at(value, 8);
    lemma_two_digits_at(value, 10);
}

/// Law: `CCYYMMDDhhmm.ss` reads like the twelve-digit stamp and adds the
/// seconds after the dot (up to a leap second, 60).
pub proof fn law_touch_stamp_seconds(main: Seq<char>, s1: char, s2: char, now_year: int)
    requires
        main.len() == 12,
        all_digits(main),
        is_digit(s1),
        is_digit(s2),
    ensures
        ({
            let value = main + seq!['.', s1, s2];
            let y = (main[0] as int - 48) * 1000 + (main[1] as int - 48) * 100 + (main[2] as int
                - 48) * 10 + (main[3] as int - 48);
            let mo = (main[4] as int - 48) * 10 + (main[5] as int - 48);
            let d = (main[6] as int - 48) * 10 + (main[7] as int - 48);
            let h = (main[8] as int - 48) * 10 + (main[9] as int - 48);
            let mi = (main[10] as int - 48) * 10 + (main[11] as int - 48);
            let sec = (s1 as int - 48) * 10 + (s2 as int - 48);
            touch_stamp(value, now_year) == if 1 <= mo <= 12 && 1 <= d <= month_days(y, mo) && h
                <= 23 && mi <= 59 && sec <= 60 && civil_fits(y, mo, d) {
                Some(civil_days(y, mo, d) * 86400 + h * 3600 + mi * 60 + sec)
            } else {
                None::<int>
            }
        }),
{
    let value = main + seq!['.', s1, s2];
    assert(value[12] == '.');
    assert forall|j: int| 0 <= j < 12 implies value[j] != '.' by {
        assert(value[j] == main[j]);
        assert(is_digit(main[j]));
    }
    lemma_first_index_at(value, '.', 12);
    assert(value.subrange(0, 12) =~= main);
    let tail = value.subrange(13, 15);
    assert(tail =~= seq![s1, s2]);
    assert(all_digits(tail));
    lemma_two_digits(tail);
    assert(tail[0] != '+');
    lemma_all_digits_sub(main, 0, 4);
    lemma_four_digits_value(main.subrange(0, 4));
    lemma_two_digits_at(main, 4);
    lemma_two_digits_at(main, 6);
    lemma_two_digits_at(main, 8);
    lemma_two_digits_at(main, 10);
}

/// Law: the eight-digit stamp `MMDDhhmm` takes the year given, then reads
/// the month from its first two digits, the day from the next two, the hour
/// and the minute.
pub proof fn law_touch_short_stamp_fields(value: Seq<char>, now_year: int)
    requires
        value.len() == 8,
        all_digits(value),
    ensures
        ({
            let mo = (value[0] as int - 48) * 10 + (value[1] as int - 48);
            let d = (value[2] as int - 48) * 10 + (value[3] as int - 48);
            let h = (value[4] as int - 48) * 10 + (value[5] as int - 48);
            let mi = (value[6] as int - 48) * 10 + (value[7] as int - 48);
            touch_stamp(value, now_year) == if 1 <= mo <= 12 && 1 <= d <= month_days(now_year, mo)
                && h <= 23 && mi <= 59 && civil_fits(now_year, mo, d) {
                Some(civil_days(now_year, mo, d) * 86400 + h * 3600 + mi * 60)
            } else {
                None::<int>
            }
        }),
{
    assert forall|j: int| 0 <= j < value.len() implies value[j] != '.' by {
        assert(is_digit(value[j]));
    }
    lemma_first_index_none(value, '.');
    lemma_two_digits_at(value, 0);
    lemma_two_digits_at(value, 2);
    lemma_two_digits_at(value, 4);
    lemma_two_digits_at(value, 6);
}

/// Law: the ten-digit stamp `YYMMDDhhmm` puts two-digit years from 69 on in
/// the 1900s and the others in the 2000s, then reads the month, the day,
/// the hour and the minute in that order.
pub proof fn law_touch_two_digit_year(value: Seq<char>, now_year: int)
    requires
        value.len() == 10,
        all_digits(value),
    ensures
        ({
            let yy = (value[0] as int - 48) * 10 + (value[1] as int - 48);
            let y = if yy >= 69 {
                1900 + yy
            } else {
                2000 + yy
            };
            let mo = (value[2] as int - 48) * 10 + (value[3] as int - 48);
            let d = (value[4] as int - 48) * 10 + (value[5] as int - 48);
            let h = (value[6] as int - 48) * 10 + (value[7] as int - 48);
            let mi = (value[8] as int - 48) * 10 + (value[9] as int - 48);
            touch_stamp(value, now_year) == if 1 <= mo <= 12 && 1 <= d <= month_days(y, mo) && h
                <= 23 && mi <= 59 && civil_fits(y, mo, d) {
                Some(civil_days(y, mo, d) * 86400 + h * 3600 + mi * 60)
            } else {
                None::<int>
            }
        }),
{
    assert forall|j: int| 0 <= j < value.len() implies value[j] != '.' by {
        assert(is_digit(value[j]));
    }
    lemma_first_index_none(value, '.');
    lemma_two_digits_at(value, 0);
    lemma_two_digits_at(value, 2);
    lemma_two_digits_at(value, 4);
    lemma_two_digits_at(value, 6);
    lemma_two_digits_at(value, 8);
}

/// Reads `[[CC]YY]MMDDhhmm[.ss]`, taking `now_year` as the year of the
/// eight-digit form.
pub fn parse_touch_timestamp_at(value: &str, now_year: i32) -> (r: Result<i64, ArgExit>)
    ensures
        touch_stamp(value@, now_year as int) matches Some(t) ==> i64::MIN <= t <= i64::MAX,
        match touch_stamp(value@, now_year as int) {
            Some(t) => r == Ok::<i64, ArgExit>(t as i64),
            None => r is Err && exit_model(r->Err_0) == date_error(value@),
        },
{
    let v = chars_of(value);
    let n = v.len();
    let dot = find_char_from(&v, '.', 0);
    let main_end: usize = match dot {
        Some(i) => i,
        None => n,
    };
    proof {
        match dot {
            Some(i) => {
                lemma_first_index_at(value@, '.', i as int);
            },
            None => {
                lemma_first_index_none(value@, '.');
                assert(v@.subrange(0, n as int) =~= v@);
            },
        }
    }
    let ghost main = v@.subrange(0, main_end as int);
    let second: u32 = match dot {
        Some(i) => match parse_unsigned_chars(&v, i + 1, n, 4294967295) {
            Some(x) => x as u32,
            None => {
                return Err(date_error_exit(value));
            },
        },
        None => 0,
    };
    if !all_digits_range(&v, 0, main_end) {
        return Err(date_error_exit(value));
    }
    let (year, off): (i32, usize) = if main_end == 8 {
        (now_year, 0)
    } else if main_end == 10 {
        proof {
            lemma_all_digits_sub(main, 0, 2);
            assert(main.subrange(0, 2) =~= v@.subrange(0, 2));
        }
        let yy = two_digits(&v, 0);
        if yy >= 69 {
            (1900 + yy as i32, 2)
        } else {
            (2000 + yy as i32, 2)
        }
    } else if main_end == 12 {
        proof {
            lemma_all_digits_sub(main, 0, 4);
            assert(main.subrange(0, 4) =~= v@.subrange(0, 4));
            lemma_four_digits_bound(v@.subrange(0, 4));
        }
        match digits_upto(&v, 0, 4, 9999) {
            Some(y) => (y as i32, 4),
            None => (0, 4),
        }
    } else {
        return Err(date_error_exit(value));
    };
    proof {
        lemma_all_digits_sub(main, off as int, off + 2);
        lemma_all_digits_sub(main, off + 2, off + 4);
        lemma_all_digits_sub(main, off + 4, off + 6);
        lemma_all_digits_sub(main, off + 6, off + 8);
        assert(main.subrange(off as int, off + 2) =~= v@.subrange(off as int, off + 2));
        assert(main.subrange(off + 2, off + 4) =~= v@.subrange(off + 2, off + 4));
        assert(main.subrange(off + 4, off + 6) =~= v@.subrange(off + 4, off + 6));
        assert(main.subrange(off + 6, off + 8) =~= v@.subrange(off + 6, off + 8));
    }
    let month = two_digits(&v, off);
    let day = two_digits(&v, off + 2);
    let hour = two_digits(&v, off + 4);
    let minute = two_digits(&v, off + 6);
    file_time_from_parts(year, month, day, hour, minute, second, value)
}

/// The civil year of the current time: the system clock's whole seconds
/// since the Unix epoch (0 when it reads before the epoch) taken as a
/// signed 64-bit number, as days, and the year kept in 32 bits.
pub fn current_year_utc() -> (r: i32)
    ensures
        exists|secs: int| i64::MIN <= secs <= i64::MAX && r == (#[trigger] civil_of(secs / 86400)).0 as i32,
{
    let now = system_now();
    let secs: i64 = match secs_since_epoch(&now) {
        Some(s) => s as i64,
        None => 0,
    };
    let days: i64 = if secs >= 0 {
        secs / 86400
    } else {
        -((-(secs + 1)) / 86400) - 1
    };
    assert(days == secs / 86400) by (nonlinear_arith)
        requires
            days == (if secs >= 0 {
                secs / 86400
            } else {
                -((-(secs + 1)) / 86400) - 1
            }),
    ;
    let (y, _, _) = civil_from_days(days);
    y
}

/// The time stamp of `YYYY-MM-DD[ hh:mm[:ss]]` (a `T` may separate the
/// date from the time).
pub open spec fn iso_stamp(value: Seq<char>) -> Option<int> {
    let norm = value.map_values(|c: char| if c == 'T' { ' ' } else { c });
    let ws = words(norm);
    if ws.len() == 0 || ws.len() > 2 {
        None
    } else {
        let date = ws[0];
        let time = if ws.len() == 2 {
            ws[1]
        } else {
            "00:00:00"@
        };
        let dp = split_by(date, '-');
        let tp = split_by(time, ':');
        if dp.len() != 3 || tp.len() < 2 || tp.len() > 3 {
            None
        } else {
            let sec = if tp.len() == 3 {
                parse_unsigned(tp[2], u32::MAX as int)
            } else {
                Some(0int)
            };
            match (
                parse_signed(dp[0], i32::MIN as int, i32::MAX as int),
                parse_unsigned(dp[1], u32::MAX as int),
                parse_unsigned(dp[2], u32::MAX as int),
                parse_unsigned(tp[0], u32::MAX as int),
                parse_unsigned(tp[1], u32::MAX as int),
                sec,
            ) {
                (Some(y), Some(mo), Some(d), Some(h), Some(mi), Some(s)) => stamp_seconds(
                    y,
                    mo,
                    d,
                    h,
                    mi,
                    s,
                ),
                _ => None,
            }
        }
    }
}

/// The time stamp of a `--date` value: `@SECONDS`, a `touch -t` stamp, or
/// `YYYY-MM-DD[ hh:mm[:ss]]`; `now_year` is the year of an eight-digit
/// stamp.
pub open spec fn date_time_of(value: Seq<char>, now_year: int) -> Option<int> {
    if value.len() > 0 && value[0] == '@' {
        parse_signed(value.drop_first(), i64::MIN as int, i64::MAX as int)
    } else {
        match touch_stamp(value, now_year) {
            Some(t) => Some(t),
            None => iso_stamp(value),
        }
    }
}

/// The whole of `v` as an unsigned 32-bit number.
fn u32_of(v: &Vec<char>) -> (r: Option<u32>)
    ensures
        parse_unsigned(v@, u32::MAX as int) matches Some(x) ==> 0 <= x <= u32::MAX,
        match parse_unsigned(v@, u32::MAX as int) {
            Some(x) => r == Some(x as u32),
            None => r is None,
        },
{
    assert(v@.subrange(0, v@.len() as int) =~= v@);
    match parse_unsigned_chars(v, 0, v.len(), 4294967295) {
        Some(x) => Some(x as u32),
        None => None,
    }
}

/// Reads the date form `YYYY-MM-DD[ hh:mm[:ss]]`.
fn parse_iso_date(value: &str) -> (r: Result<i64, ArgExit>)
    ensures
        iso_stamp(value@) matches Some(t) ==> i64::MIN <= t <= i64::MAX,
        match iso_stamp(value@) {
            Some(t) => r == Ok::<i64, ArgExit>(t as i64),
            None => r is Err && exit_model(r->Err_0) == date_error(value@),
        },
{
    let v = chars_of(value);
    let mut norm: Vec<char> = Vec::new();
    let mut i: usize = 0;
    while i < v.len()
        invariant
            i <= v@.len(),
            v@ == value@,
            norm@ == v@.subrange(0, i as int).map_values(
                |c: char| if c == 'T' { ' ' } else { c },
            ),
        decreases v.len() - i,
    {
        let c = if v[i] == 'T' {
            ' '
        } else {
            v[i]
        };
        norm.push(c);
        assert(v@.subrange(0, i + 1).map_values(|c: char| if c == 'T' { ' ' } else { c })
            =~= v@.subrange(0, i as int).map_values(|c: char| if c == 'T' { ' ' } else { c }).push(
            c,
        ));
        i = i + 1;
    }
    assert(v@.subrange(0, v@.len() as int) =~= v@);
    let ws = split_whitespace_chars(&norm);
    if ws.len() == 0 || ws.len() > 2 {
        return Err(date_error_exit(value));
    }
    assert(vviews(ws@)[0] == ws@[0]@);
    let time: Vec<char> = if ws.len() == 2 {
        assert(vviews(ws@)[1] == ws@[1]@);
        ws[1].clone()
    } else {
        chars_of("00:00:00")
    };
    let dp = split_chars(&ws[0], '-');
    let tp = split_chars(&time, ':');
    if dp.len() != 3 || tp.len() < 2 || tp.len() > 3 {
        return Err(date_error_exit(value));
    }
    assert(vviews(dp@)[0] == dp@[0]@);
    assert(vviews(dp@)[1] == dp@[1]@);
    assert(vviews(dp@)[2] == dp@[2]@);
    assert(vviews(tp@)[0] == tp@[0]@);
    assert(vviews(tp@)[1] == tp@[1]@);
    assert(dp@[0]@.subrange(0, dp@[0]@.len() as int) =~= dp@[0]@);
    let year = match parse_signed_chars(&dp[0], 0, dp[0].len(), -2147483648, 2147483647) {
        Some(y) => y as i32,
        None => {
            return Err(date_error_exit(value));
        },
    };
    let month = match u32_of(&dp[1]) {
        Some(x) => x,
        None => {
            return Err(date_error_exit(value));
        },
    };
    let day = match u32_of(&dp[2]) {
        Some(x) => x,
        None => {
            return Err(date_error_exit(value));
        },
    };
    let hour = match u32_of(&tp[0]) {
        Some(x) => x,
        None => {
            return Err(date_error_exit(value));
        },
    };
    let minute = match u32_of(&tp[1]) {
        Some(x) => x,
        None => {
            return Err(date_error_exit(value));
        },
    };
    let second = if tp.len() == 3 {
        assert(vviews(tp@)[2] == tp@[2]@);
        match u32_of(&tp[2]) {
            Some(x) => x,
            None => {
                return Err(date_error_exit(value));
            },
        }
    } else {
        0
    };
    proof {
        let norm_v = value@.map_values(|c: char| if c == 'T' { ' ' } else { c });
        assert(norm@ == norm_v);
        assert(words(norm_v) == vviews(ws@));
        let w = words(norm_v);
        assert(w[0] == ws@[0]@);
        let t = if w.len() == 2 {
            w[1]
        } else {
            "00:00:00"@
        };
        assert(t == time@);
        assert(split_by(w[0], '-') == vviews(dp@));
        assert(split_by(t, ':') == vviews(tp@));
        assert(parse_signed(split_by(w[0], '-')[0], i32::MIN as int, i32::MAX as int) == Some(
            year as int,
        ));
        let dps = split_by(w[0], '-');
        let tps = split_by(t, ':');
        assert(parse_unsigned(dps[1], u32::MAX as int) == Some(month as int));
        assert(parse_unsigned(dps[2], u32::MAX as int) == Some(day as int));
        assert(parse_unsigned(tps[0], u32::MAX as int) == Some(hour as int));
        assert(parse_unsigned(tps[1], u32::MAX as int) == Some(minute as int));
        let sec = if tps.len() == 3 {
            parse_unsigned(tps[2], u32::MAX as int)
        } else {
            Some(0int)
        };
        assert(sec == Some(second as int));
        assert(iso_stamp(value@) == stamp_seconds(
            year as int,
            month as int,
            day as int,
            hour as int,
            minute as int,
            second as int,
        ));
    }
    file_time_from_parts(year, month, day, hour, minute, second, value)
}

/// Reads a `--date` value, taking `now_year` as the year of an eight-digit
/// stamp.
pub fn parse_date_time_at(value: &str, now_year: i32) -> (r: Result<i64, ArgExit>)
    ensures
        date_time_of(value@, now_year as int) matches Some(t) ==> i64::MIN <= t <= i64::MAX,
        match date_time_of(value@, now_year as int) {
            Some(t) => r == Ok::<i64, ArgExit>(t as i64),
            None => r is Err && exit_model(r->Err_0) == date_error(value@),
        },
{
    let v = chars_of(value);
    if v.len() > 0 && v[0] == '@' {
        assert(v@.subrange(1, v@.len() as int) =~= value@.drop_first());
        return match parse_signed_chars(
            &v,
            1,
            v.len(),
            -9223372036854775808,
            9223372036854775807,
        ) {
            Some(t) => Ok(t),
            None => Err(date_error_exit(value)),
        };
    }
    match parse_touch_timestamp_at(value, now_year) {
        Ok(t) => Ok(t),
        Err(_) => parse_iso_date(value),
    }
}

/// The options of `touch`; a time stamp is in seconds since the Unix epoch.
#[derive(Debug, PartialEq, Eq)]
pub struct TouchOptions {
    pub no_create: bool,
    pub access_only: bool,
    pub modify_only: bool,
    pub no_dereference: bool,
    pub reference: Option<String>,
    pub timestamp: Option<i64>,
}

/// `TouchOptions` as plain values.
pub struct TouchModel {
    pub no_create: bool,
    pub access_only: bool,
    pub modify_only: bool,
    pub no_dereference: bool,
    pub reference: Option<Seq<char>>,
    pub timestamp: Option<int>,
}

/// The plain-value form of the options.
pub open spec fn touch_model(o: TouchOptions) -> TouchModel {
    TouchModel {
        no_create: o.no_create,
        access_only: o.access_only,
        modify_only: o.modify_only,
        no_dereference: o.no_dereference,
        reference: opt_view(o.reference),
        timestamp: match o.timestamp {
            Some(t) => Some(t as int),
            None => None,
        },
    }
}

/// The options before any argument is read.
pub open spec fn touch_defaults() -> TouchModel {
    TouchModel {
        no_create: false,
        access_only: false,
        modify_only: false,
        no_dereference: false,
        reference: None,
        timestamp: None,
    }
}

impl Default for TouchOptions {
    fn default() -> (r: Self)
        ensures
            touch_model(r) == touch_defaults(),
    {
        TouchOptions {
            no_create: false,
            access_only: false,
            modify_only: false,
            no_dereference: false,
            reference: None,
            timestamp: None,
        }
    }
}

/// The effect of `--time=WORD`: `access`, `atime` and `use` select the
/// access time only, `modify` and `mtime` the modification time only.
pub open spec fn time_selector(v: Seq<char>, o: TouchModel) -> Result<TouchModel, ExitModel> {
    if v == "access"@ || v == "atime"@ || v == "use"@ {
        Ok(TouchModel { access_only: true, modify_only: false, ..o })
    } else if v == "modify"@ || v == "mtime"@ {
        Ok(TouchModel { modify_only: true, access_only: false, ..o })
    } else {
        Err(ExitModel::Error(1, seq!["touch: invalid argument '"@ + v + "' for '--time'"@]))
    }
}

/// The effect of a value-taking option (`d` for a date, `r` for a
/// reference file, `t` for a `-t` stamp) given the value `v`.
pub open spec fn touch_valued(kind: char, v: Seq<char>, o: TouchModel, now_year: int) -> Result<
    TouchModel,
    ExitModel,
> {
    if kind == 'r' {
        Ok(TouchModel { reference: Some(v), ..o })
    } else {
        let t = if kind == 'd' {
            date_time_of(v, now_year)
        } else {
            touch_stamp(v, now_year)
        };
        match t {
            Some(x) => Ok(TouchModel { timestamp: Some(x), ..o }),
            None => Err(date_error(v)),
        }
    }
}

/// The effect of one long option at `args[i]`: the new options, and whether
/// it also used the next argument as its value.
pub open spec fn touch_long(
    arg: Seq<char>,
    args: Seq<Seq<char>>,
    i: int,
    o: TouchModel,
    now_year: int,
) -> Result<(TouchModel, bool), ExitModel> {
    let name = long_parts(arg).0;
    let value = long_parts(arg).1;
    if name == "no-create"@ || name == "no-dereference"@ {
        if value is Some {
            Err(no_value_exit(1, "touch"@, arg))
        } else if name == "no-create"@ {
            Ok((TouchModel { no_create: true, ..o }, false))
        } else {
            Ok((TouchModel { no_dereference: true, ..o }, false))
        }
    } else if name == "date"@ || name == "reference"@ || name == "time"@ {
        match long_value("touch"@, arg, value, args, i) {
            Err(e) => Err(e),
            Ok((v, next)) => {
                let r = if name == "time"@ {
                    time_selector(v, o)
                } else if name == "date"@ {
                    touch_valued('d', v, o, now_year)
                } else {
                    touch_valued('r', v, o, now_year)
                };
                match r {
                    Ok(o2) => Ok((o2, next == i + 2)),
                    Err(e) => Err(e),
                }
            },
        }
    } else {
        Err(fail_with_help(1, "touch"@, msg_unrecognized("touch"@, arg)))
    }
}

/// Applies `--time=WORD`.
fn apply_time_selector(value: &str, options: TouchOptions) -> (r: Result<TouchOptions, ArgExit>)
    ensures
        match time_selector(value@, touch_model(options)) {
            Ok(o) => r is Ok && touch_model(r->Ok_0) == o,
            Err(e) => r is Err && exit_model(r->Err_0) == e,
        },
{
    if str_eq(value, "access") || str_eq(value, "atime") || str_eq(value, "use") {
        Ok(TouchOptions { access_only: true, modify_only: false, ..options })
    } else if str_eq(value, "modify") || str_eq(value, "mtime") {
        Ok(TouchOptions { modify_only: true, access_only: false, ..options })
    } else {
        let line = owned("touch: invalid argument '").concat(value).concat("' for '--time'");
        Err(exit_with_line(1, line))
    }
}

/// Applies a value-taking option (`d`, `r` or `t`) with its value.
fn apply_valued(kind: char, value: String, options: TouchOptions, now_year: i32) -> (r: Result<
    TouchOptions,
    ArgExit,
>)
    ensures
        match touch_valued(kind, value@, touch_model(options), now_year as int) {
            Ok(o) => r is Ok && touch_model(r->Ok_0) == o,
            Err(e) => r is Err && exit_model(r->Err_0) == e,
        },
{
    if kind == 'r' {
        return Ok(TouchOptions { reference: Some(value), ..options });
    }
    let t = if kind == 'd' {
        parse_date_time_at(value.as_str(), now_year)
    } else {
        parse_touch_timestamp_at(value.as_str(), now_year)
    };
    match t {
        Ok(x) => Ok(TouchOptions { timestamp: Some(x), ..options }),
        Err(e) => Err(e),
    }
}

/// Applies the long option `arg` found at `args[index]`; returns the new
/// options and the index after the option and any value it took.
pub fn parse_touch_long_option(
    arg: &str,
    args: &[String],
    index: usize,
    options: TouchOptions,
    now_year: i32,
) -> (r: Result<(TouchOptions, usize), ArgExit>)
    requires
        index < args.len(),
    ensures
        match touch_long(arg@, views(args@), index as int, touch_model(options), now_year as int) {
            Ok((o, extra)) => r matches Ok((op, next)) && touch_model(op) == o && next == index
                + if extra {
                2int
            } else {
                1int
            },
            Err(e) => r is Err && exit_model(r->Err_0) == e,
        },
{
    let (name, value) = split_long_option(arg);
    let n = name.as_str();
    if str_eq(n, "no-create") || str_eq(n, "no-dereference") {
        if value.is_some() {
            return Err(exit_with_help(1, "touch", no_value_text("touch", arg)));
        }
        if str_eq(n, "no-create") {
            return Ok((TouchOptions { no_create: true, ..options }, index + 1));
        } else {
            return Ok((TouchOptions { no_dereference: true, ..options }, index + 1));
        }
    }
    if str_eq(n, "date") || str_eq(n, "reference") || str_eq(n, "time") {
        let mut next = index;
        let v = match take_long_value("touch", arg, value, args, &mut next) {
            Ok(v) => v,
            Err(e) => {
                return Err(e);
            },
        };
        let r = if str_eq(n, "time") {
            apply_time_selector(v.as_str(), options)
        } else if str_eq(n, "date") {
            apply_valued('d', v, options, now_year)
        } else {
            apply_valued('r', v, options, now_year)
        };
        return match r {
            Ok(o) => Ok((o, next)),
            Err(e) => Err(e),
        };
    }
    Err(exit_with_help(1, "touch", unrecognized_text("touch", arg)))
}

/// The letters `arg[pos..]` of a short-option cluster at `args[i]` applied
/// in order. `-d`, `-r` and `-t` take the rest of the cluster as their
/// value, or the next argument when nothing follows them, and end the
/// cluster. The result says whether the next argument was used.
pub open spec fn touch_shorts(
    arg: Seq<char>,
    pos: int,
    args: Seq<Seq<char>>,
    i: int,
    o: TouchModel,
    now_year: int,
) -> Result<(TouchModel, bool), ExitModel>
    decreases arg.len() - pos,
{
    if pos < 0 || pos >= arg.len() {
        Ok((o, false))
    } else {
        let c = arg[pos];
        if c == 'a' {
            touch_shorts(arg, pos + 1, args, i, TouchModel { access_only: true, ..o }, now_year)
        } else if c == 'c' {
            touch_shorts(arg, pos + 1, args, i, TouchModel { no_create: true, ..o }, now_year)
        } else if c == 'f' {
            touch_shorts(arg, pos + 1, args, i, o, now_year)
        } else if c == 'm' {
            touch_shorts(arg, pos + 1, args, i, TouchModel { modify_only: true, ..o }, now_year)
        } else if c == 'd' || c == 'r' || c == 't' {
            match short_value("touch"@, arg, pos, args, i) {
                Ok((v, extra)) => match touch_valued(c, v, o, now_year) {
                    Ok(o2) => Ok((o2, extra)),
                    Err(e) => Err(e),
                },
                Err(e) => Err(e),
            }
        } else {
            Err(fail_with_help(1, "touch"@, msg_invalid("touch"@, c)))
        }
    }
}

/// A cluster uses the next argument only when there is one.
pub proof fn lemma_touch_shorts_extra(
    arg: Seq<char>,
    pos: int,
    args: Seq<Seq<char>>,
    i: int,
    o: TouchModel,
    now_year: int,
)
    ensures
        touch_shorts(arg, pos, args, i, o, now_year) matches Ok((_, extra)) ==> (extra ==> i + 1
            < args.len()),
    decreases arg.len() - pos,
{
    if 0 <= pos < arg.len() {
        let c = arg[pos];
        if c == 'a' {
            lemma_touch_shorts_extra(arg, pos + 1, args, i, TouchModel { access_only: true, ..o }, now_year);
        } else if c == 'c' {
            lemma_touch_shorts_extra(arg, pos + 1, args, i, TouchModel { no_create: true, ..o }, now_year);
        } else if c == 'f' {
            lemma_touch_shorts_extra(arg, pos + 1, args, i, o, now_year);
        } else if c == 'm' {
            lemma_touch_shorts_extra(arg, pos + 1, args, i, TouchModel { modify_only: true, ..o }, now_year);
        }
    }
}

/// Applies the short-option cluster `arg` found at `args[index]`; returns
/// the new options and the index after the cluster and any value it took.
pub fn parse_touch_short_options(
    arg: &str,
    args: &[String],
    index: usize,
    options: TouchOptions,
    now_year: i32,
) -> (r: Result<(TouchOptions, usize), ArgExit>)
    requires
        index < args.len(),
    ensures
        match touch_shorts(arg@, 1, views(args@), index as int, touch_model(options), now_year as int) {
            Ok((o, extra)) => r matches Ok((op, next)) && touch_model(op) == o && next == index
                + if extra {
                2int
            } else {
                1int
            },
            Err(e) => r is Err && exit_model(r->Err_0) == e,
        },
{
    let chars = chars_of(arg);
    let mut o = options;
    let mut pos: usize = 1;
    if chars.len() == 0 {
        return Ok((o, index + 1));
    }
    while pos < chars.len()
        invariant
            1 <= pos <= chars@.len(),
            chars@ == arg@,
            index < args.len(),
            touch_shorts(arg@, 1, views(args@), index as int, touch_model(options), now_year as int)
                == touch_shorts(arg@, pos as int, views(args@), index as int, touch_model(o), now_year as int),
        decreases chars.len() - pos,
    {
        let c = chars[pos];
        assert(arg@[pos as int] == c);
        if c == 'a' {
            o = TouchOptions { access_only: true, ..o };
        } else if c == 'c' {
            o = TouchOptions { no_create: true, ..o };
        } else if c == 'f' {
        } else if c == 'm' {
            o = TouchOptions { modify_only: true, ..o };
        } else if c == 'd' || c == 'r' || c == 't' {
            match take_short_value("touch", &chars, pos, args, index) {
                Ok((value, extra)) => {
                    let next = if extra {
                        index + 2
                    } else {
                        index + 1
                    };
                    return match apply_valued(c, value, o, now_year) {
                        Ok(o2) => Ok((o2, next)),
                        Err(e) => Err(e),
                    };
                },
                Err(e) => {
                    return Err(e);
                },
            }
        } else {
            return Err(exit_with_help(1, "touch", invalid_text("touch", c)));
        }
        pos = pos + 1;
    }
    Ok((o, index + 1))
}

/// The arguments `args[i..]` applied on top of `st` (options and operands).
pub open spec fn touch_args(
    args: Seq<Seq<char>>,
    i: int,
    opts: bool,
    st: (TouchModel, Seq<Seq<char>>),
    now_year: int,
) -> Result<(TouchModel, Seq<Seq<char>>), ExitModel>
    decreases args.len() - i,
{
    if i < 0 || i >= args.len() {
        Ok(st)
    } else {
        let a = args[i];
        if opts && is_dashdash(a) {
            touch_args(args, i + 1, false, st, now_year)
        } else if opts && (a == "-h"@ || a == "--help"@) {
            Err(ExitModel::Help)
        } else if opts && (a == "-V"@ || a == "--version"@) {
            Err(ExitModel::Version)
        } else if opts && has_prefix(a, "--"@) {
            match touch_long(a, args, i, st.0, now_year) {
                Ok((o, extra)) => touch_args(
                    args,
                    if extra {
                        i + 2
                    } else {
                        i + 1
                    },
                    opts,
                    (o, st.1),
                    now_year,
                ),
                Err(e) => Err(e),
            }
        } else if opts && has_prefix(a, "-"@) && a != "-"@ {
            match touch_shorts(a, 1, args, i, st.0, now_year) {
                Ok((o, extra)) => {
                    proof {
                        lemma_touch_shorts_extra(a, 1, args, i, st.0, now_year);
                    }
                    touch_args(
                        args,
                        if extra {
                            i + 2
                        } else {
                            i + 1
                        },
                        opts,
                        (o, st.1),
                        now_year,
                    )
                },
                Err(e) => Err(e),
            }
        } else {
            touch_args(args, i + 1, opts, (st.0, st.1.push(a)), now_year)
        }
    }
}

/// Parses the arguments of `touch` into options and operands, taking
/// `now_year` as the year of eight-digit stamps.
pub fn parse_touch_args_at(args: &[String], now_year: i32) -> (r: Result<
    (TouchOptions, Vec<String>),
    ArgExit,
>)
    ensures
        match touch_args(views(args@), 0, true, (touch_defaults(), Seq::empty()), now_year as int) {
            Ok((o, ops)) => r is Ok && touch_model(r->Ok_0.0) == o && views(r->Ok_0.1@) == ops,
            Err(e) => r is Err && exit_model(r->Err_0) == e,
        },
{
    let mut options = TouchOptions::default();
    let mut operands: Vec<String> = Vec::new();
    let mut parse_options = true;
    let ghost all = views(args@);
    let mut index: usize = 0;
    assert(views(operands@) =~= Seq::<Seq<char>>::empty());
    while index < args.len()
        invariant
            index <= args@.len(),
            all == views(args@),
            touch_args(all, 0, true, (touch_defaults(), Seq::empty()), now_year as int)
                == touch_args(
                all,
                index as int,
                parse_options,
                (touch_model(options), views(operands@)),
                now_year as int,
            ),
        decreases args.len() - index,
    {
        let arg = args[index].as_str();
        assert(all[index as int] == arg@);
        if parse_options && arg_is_dashdash(arg) {
            parse_options = false;
            index = index + 1;
            continue;
        }
        if parse_options && (str_eq(arg, "-h") || str_eq(arg, "--help")) {
            return Err(ArgExit::Help);
        }
        if parse_options && (str_eq(arg, "-V") || str_eq(arg, "--version")) {
            return Err(ArgExit::Version);
        }
        if parse_options && str_starts_with(arg, "--") {
            let (o, next) = parse_touch_long_option(arg, args, index, options, now_year)?;
            options = o;
            index = next;
            continue;
        }
        if parse_options && str_starts_with(arg, "-") && !str_eq(arg, "-") {
            proof {
                lemma_touch_shorts_extra(arg@, 1, all, index as int, touch_model(options), now_year as int);
            }
            let (o, next) = parse_touch_short_options(arg, args, index, options, now_year)?;
            options = o;
            index = next;
            continue;
        }
        let ghost before = views(operands@);
        operands.push(args[index].clone());
        assert(views(operands@) =~= before.push(arg@));
        index = index + 1;
    }
    Ok((options, operands))
}

/// Parses the arguments of `touch`; eight-digit stamps take the current
/// year from the system clock.
pub fn parse_touch_args(args: &[String]) -> (r: Result<(TouchOptions, Vec<String>), ArgExit>)
    ensures
        exists|y: i32|
            match #[trigger] touch_args(views(args@), 0, true, (touch_defaults(), Seq::empty()), y as int) {
                Ok((o, ops)) => r is Ok && touch_model(r->Ok_0.0) == o && views(r->Ok_0.1@) == ops,
                Err(e) => r is Err && exit_model(r->Err_0) == e,
            },
{
    let year = current_year_utc();
    parse_touch_args_at(args, year)
}

/// Reads `[[CC]YY]MMDDhhmm[.ss]`; the eight-digit form takes the current
/// year from the system clock.
pub fn parse_touch_timestamp(value: &str) -> (r: Result<i64, ArgExit>)
    ensures
        exists|y: i32|
            match #[trigger] touch_stamp(value@, y as int) {
                Some(t) => r == Ok::<i64, ArgExit>(t as i64),
                None => r is Err && exit_model(r->Err_0) == date_error(value@),
            },
{
    let year = current_year_utc();
    parse_touch_timestamp_at(value, year)
}

/// Reads a `--date` value; an eight-digit stamp takes the current year from
/// the system clock.
pub fn parse_date_time(value: &str) -> (r: Result<i64, ArgExit>)
    ensures
        exists|y: i32|
            match #[trigger] date_time_of(value@, y as int) {
                Some(t) => r == Ok::<i64, ArgExit>(t as i64),
                None => r is Err && exit_model(r->Err_0) == date_error(value@),
            },
{
    let year = current_year_utc();
    parse_date_time_at(value, year)
}

/// A file that does not exist is created unless `-c` was given.
pub fn creates_missing(options: &TouchOptions) -> (r: bool)
    ensures
        r == !options.no_create,
{
    !options.no_create
}

/// The access and modification times to give a file: the reference file's
/// times, else the time stamp, else `now`; a time that `-a` or `-m` leaves
/// out keeps its `current` value.
pub fn touch_times<T: Copy>(
    options: &TouchOptions,
    reference: Option<(T, T)>,
    stamp: Option<T>,
    now: T,
    current: (T, T),
) -> (r: (T, T))
    ensures
        ({
            let cand = match reference {
                Some(p) => p,
                None => match stamp {
                    Some(t) => (t, t),
                    None => (now, now),
                },
            };
            &&& r.0 == if options.access_only || !options.modify_only {
                cand.0
            } else {
                current.0
            }
            &&& r.1 == if options.modify_only || !options.access_only {
                cand.1
            } else {
                current.1
            }
        }),
{
    let cand = match reference {
        Some(p) => p,
        None => match stamp {
            Some(t) => (t, t),
            None => (now, now),
        },
    };
    let set_access = options.access_only || !options.modify_only;
    let set_modify = options.modify_only || !options.access_only;
    let atime = if set_access {
        cand.0
    } else {
        current.0
    };
    let mtime = if set_modify {
        cand.1
    } else {
        current.1
    };
    (atime, mtime)
}

} // verus!
