//! Calendar dates: validity in the proleptic Gregorian calendar, the
//! previous day, and the date arguments the command line accepts
//! (`YYYY-MM-DD`, `MM-DD`, `today`, `yesterday`).

use vstd::prelude::*;

use crate::text::{
    chars_of, eq_ignore_ascii_case, lower_chars, split_on_char, split_sep, string_from_chars,
};

verus! {

/// A calendar date, held as plain year, month and day.
#[derive(Clone, Copy, Debug, PartialEq, Eq, Structural)]
pub struct Date {
    pub year: i32,
    pub month: u8,
    pub day: u8,
}

pub open spec fn is_leap_year(y: int) -> bool {
    (y % 4 == 0 && y % 100 != 0) || y % 400 == 0
}

pub open spec fn days_in_month(y: int, m: int) -> int {
    if m == 2 {
        if is_leap_year(y) {
            29
        } else {
            28
        }
    } else if m == 4 || m == 6 || m == 9 || m == 11 {
        30
    } else {
        31
    }
}

/// A month and day that exist in the given year.
pub open spec fn valid_date(d: Date) -> bool {
    1 <= d.month <= 12 && 1 <= d.day <= days_in_month(d.year as int, d.month as int)
}

/// The day before `d`: back one day, else to the end of the previous month,
/// else to the last day of the previous year.
pub open spec fn pred_date(d: Date) -> Date {
    if d.day > 1 {
        Date { year: d.year, month: d.month, day: (d.day - 1) as u8 }
    } else if d.month > 1 {
        Date {
            year: d.year,
            month: (d.month - 1) as u8,
            day: days_in_month(d.year as int, d.month as int - 1) as u8,
        }
    } else {
        Date { year: (d.year - 1) as i32, month: 12, day: 31 }
    }
}

pub fn leap_year(y: i32) -> (r: bool)
    ensures
        r == is_leap_year(y as int),
{
    (y % 4 == 0 && y % 100 != 0) || y % 400 == 0
}

pub fn month_days(y: i32, m: u8) -> (r: u8)
    requires
        1 <= m <= 12,
    ensures
        r as int == days_in_month(y as int, m as int),
{
    if m == 2 {
        if leap_year(y) {
            29
        } else {
            28
        }
    } else if m == 4 || m == 6 || m == 9 || m == 11 {
        30
    } else {
        31
    }
}

/// The previous calendar day.
pub fn pred(d: Date) -> (r: Date)
    requires
        valid_date(d),
        d.year > i32::MIN,
    ensures
        r == pred_date(d),
        valid_date(r),
{
    if d.day > 1 {
        Date { year: d.year, month: d.month, day: d.day - 1 }
    } else if d.month > 1 {
        Date { year: d.year, month: d.month - 1, day: month_days(d.year, d.month - 1) }
    } else {
        Date { year: d.year - 1, month: 12, day: 31 }
    }
}

pub open spec fn is_digit(c: char) -> bool {
    48 <= c as u32 <= 57
}

pub open spec fn all_digits(s: Seq<char>) -> bool {
    forall|i: int| 0 <= i < s.len() ==> is_digit(s[i])
}

/// The number a digit sequence reads as, most significant digit first.
pub open spec fn digits_value(s: Seq<char>) -> int
    decreases s.len(),
{
    if s.len() == 0 {
        0
    } else {
        digits_value(s.drop_last()) * 10 + (s.last() as u32 - 48)
    }
}

/// A run of one to `max_len` digits.
pub open spec fn digit_run(s: Seq<char>, max_len: int) -> bool {
    1 <= s.len() <= max_len && all_digits(s)
}

/// The date a `YYYY-MM-DD` or `MM-DD` argument names. The year takes up to
/// four digits, month and day up to two; a two-part form borrows the year of
/// `today`. A form whose parts do not read as an existing calendar date
/// names none.
pub open spec fn parse_date_parts(s: Seq<char>, default_year: int) -> Option<Date> {
    let parts = split_sep(s, '-');
    if parts.len() == 3 && digit_run(parts[0], 4) && digit_run(parts[1], 2) && digit_run(
        parts[2],
        2,
    ) {
        let d = Date {
            year: digits_value(parts[0]) as i32,
            month: digits_value(parts[1]) as u8,
            day: digits_value(parts[2]) as u8,
        };
        if valid_date(d) {
            Some(d)
        } else {
            None
        }
    } else if parts.len() == 2 && digit_run(parts[0], 2) && digit_run(parts[1], 2) {
        let d = Date {
            year: default_year as i32,
            month: digits_value(parts[0]) as u8,
            day: digits_value(parts[1]) as u8,
        };
        if valid_date(d) {
            Some(d)
        } else {
            None
        }
    } else {
        None
    }
}

/// The date a log or report argument names, relative to `today`: the words
/// `today` and `yesterday` (ASCII case-insensitive), or a dated form as
/// `parse_date_parts` reads it.
pub open spec fn parse_relative_spec(s: Seq<char>, today: Date) -> Option<Date> {
    if lower_chars(s) == lower_chars("today"@) {
        Some(today)
    } else if lower_chars(s) == lower_chars("yesterday"@) {
        Some(pred_date(today))
    } else {
        parse_date_parts(s, today.year as int)
    }
}

proof fn lemma_digits_value_bound(s: Seq<char>)
    requires
        all_digits(s),
    ensures
        0 <= digits_value(s),
        s.len() <= 1 ==> digits_value(s) <= 9,
        s.len() <= 2 ==> digits_value(s) <= 99,
        s.len() <= 3 ==> digits_value(s) <= 999,
        s.len() <= 4 ==> digits_value(s) <= 9999,
    decreases s.len(),
{
    if s.len() > 0 {
        assert(all_digits(s.drop_last()));
        lemma_digits_value_bound(s.drop_last());
    }
}

/// One digit-run part as a number; `None` when the part is not such a run.
pub(crate) fn parse_digit_run(part: &String, max_len: usize) -> (r: Option<u32>)
    requires
        max_len <= 4,
    ensures
        match r {
            Some(v) => digit_run(part@, max_len as int) && v == digits_value(part@) && v
                <= 9999,
            None => !digit_run(part@, max_len as int),
        },
{
    let cs = chars_of(part.as_str());
    let n = cs.len();
    if n == 0 || n > max_len {
        return None;
    }
    let mut v: u32 = 0;
    let mut i: usize = 0;
    while i < n
        invariant
            n == cs@.len(),
            cs@ == part@,
            n <= 4,
            i <= n,
            all_digits(part@.take(i as int)),
            v == digits_value(part@.take(i as int)),
            v <= 9999,
        decreases n - i,
    {
        let c = cs[i] as u32;
        if c < 48 || c > 57 {
            return None;
        }
        proof {
            assert(part@.take(i + 1).drop_last() =~= part@.take(i as int));
            assert(part@.take(i + 1).last() == part@[i as int]);
            assert(all_digits(part@.take(i + 1)));
            lemma_digits_value_bound(part@.take(i as int));
            lemma_digits_value_bound(part@.take(i + 1));
        }
        v = v * 10 + (c - 48);
        i = i + 1;
    }
    proof {
        assert(part@.take(n as int) =~= part@);
    }
    Some(v)
}

/// The date an argument names, relative to `today`, or the error message the
/// command line reports for a form that names none.
pub fn parse_date_relative(s: &str, today: Date) -> (r: Result<Date, String>)
    requires
        valid_date(today),
        today.year > i32::MIN,
    ensures
        match r {
            Ok(d) => parse_relative_spec(s@, today) == Some(d),
            Err(m) => parse_relative_spec(s@, today) is None && m@
                == "invalid date format, expected YYYY-MM-DD, MM-DD, today, or yesterday: "@
                + s@,
        },
{
    if eq_ignore_ascii_case(s, "today") {
        return Ok(today);
    }
    if eq_ignore_ascii_case(s, "yesterday") {
        return Ok(pred(today));
    }
    let parts = split_on_char(s, '-');
    proof {
        assert(parts.deep_view().len() == parts@.len());
    }
    if parts.len() == 3 {
        let y = parse_digit_run(&parts[0], 4);
        let m = parse_digit_run(&parts[1], 2);
        let d = parse_digit_run(&parts[2], 2);
        if let (Some(y), Some(m), Some(d)) = (y, m, d) {
            proof {
                assert(parts.deep_view()[0] == parts@[0]@);
                assert(parts.deep_view()[1] == parts@[1]@);
                assert(parts.deep_view()[2] == parts@[2]@);
            }
            let date = Date { year: y as i32, month: m as u8, day: d as u8 };
            if 1 <= date.month && date.month <= 12 && 1 <= date.day && date.day <= month_days(
                date.year,
                date.month,
            ) {
                return Ok(date);
            }
        }
        return Err(date_error_message(s));
    }
    if parts.len() == 2 {
        let m = parse_digit_run(&parts[0], 2);
        let d = parse_digit_run(&parts[1], 2);
        if let (Some(m), Some(d)) = (m, d) {
            proof {
                assert(parts.deep_view()[0] == parts@[0]@);
                assert(parts.deep_view()[1] == parts@[1]@);
            }
            let date = Date { year: today.year, month: m as u8, day: d as u8 };
            if 1 <= date.month && date.month <= 12 && 1 <= date.day && date.day <= month_days(
                date.year,
                date.month,
            ) {
                return Ok(date);
            }
        }
        return Err(date_error_message(s));
    }
    Err(date_error_message(s))
}

/// The date a strict `YYYY-MM-DD` argument names: the three-part form of
/// `parse_date_parts`, with no relative words and no year borrowing.
pub open spec fn parse_full_date_spec(s: Seq<char>) -> Option<Date> {
    let parts = split_sep(s, '-');
    if parts.len() == 3 && digit_run(parts[0], 4) && digit_run(parts[1], 2) && digit_run(
        parts[2],
        2,
    ) {
        let d = Date {
            year: digits_value(parts[0]) as i32,
            month: digits_value(parts[1]) as u8,
            day: digits_value(parts[2]) as u8,
        };
        if valid_date(d) {
            Some(d)
        } else {
            None
        }
    } else {
        None
    }
}

/// The date a strict `YYYY-MM-DD` argument names, or the error message the
/// command line reports.
pub fn parse_date(s: &str) -> (r: Result<Date, String>)
    ensures
        match r {
            Ok(d) => parse_full_date_spec(s@) == Some(d) && valid_date(d) && 0 <= d.year
                <= 9999,
            Err(m) => parse_full_date_spec(s@) is None && m@
                == "invalid date format, expected YYYY-MM-DD: "@ + s@,
        },
{
    let parts = split_on_char(s, '-');
    proof {
        assert(parts.deep_view().len() == parts@.len());
    }
    if parts.len() == 3 {
        let y = parse_digit_run(&parts[0], 4);
        let m = parse_digit_run(&parts[1], 2);
        let d = parse_digit_run(&parts[2], 2);
        if let (Some(y), Some(m), Some(d)) = (y, m, d) {
            proof {
                assert(parts.deep_view()[0] == parts@[0]@);
                assert(parts.deep_view()[1] == parts@[1]@);
                assert(parts.deep_view()[2] == parts@[2]@);
            }
            let date = Date { year: y as i32, month: m as u8, day: d as u8 };
            if 1 <= date.month && date.month <= 12 && 1 <= date.day && date.day <= month_days(
                date.year,
                date.month,
            ) {
                return Ok(date);
            }
        }
    }
    let prefix = "invalid date format, expected YYYY-MM-DD: ";
    let mut msg: Vec<char> = chars_of(prefix);
    let cs = chars_of(s);
    let n = cs.len();
    let mut i: usize = 0;
    while i < n
        invariant
            n == cs@.len(),
            cs@ == s@,
            i <= n,
            msg@ == prefix@ + s@.take(i as int),
        decreases n - i,
    {
        msg.push(cs[i]);
        i = i + 1;
        proof {
            assert(msg@ =~= prefix@ + s@.take(i as int));
        }
    }
    proof {
        assert(prefix@ + s@.take(n as int) =~= prefix@ + s@);
    }
    Err(string_from_chars(&msg))
}

/// The message for a date argument that names no date.
fn date_error_message(s: &str) -> (r: String)
    ensures
        r@ == "invalid date format, expected YYYY-MM-DD, MM-DD, today, or yesterday: "@ + s@,
{
    let prefix = "invalid date format, expected YYYY-MM-DD, MM-DD, today, or yesterday: ";
    let mut msg: Vec<char> = chars_of(prefix);
    let cs = chars_of(s);
    let n = cs.len();
    let mut i: usize = 0;
    while i < n
        invariant
            n == cs@.len(),
            cs@ == s@,
            i <= n,
            msg@ == prefix@ + s@.take(i as int),
        decreases n - i,
    {
        msg.push(cs[i]);
        i = i + 1;
        proof {
            assert(msg@ =~= prefix@ + s@.take(i as int));
        }
    }
    proof {
        assert(prefix@ + s@.take(n as int) =~= prefix@ + s@);
    }
    string_from_chars(&msg)
}

} // verus!
