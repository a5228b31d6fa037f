//! Calendar date and wall-clock time with second precision, and its
//! `YYYY-MM-DDTHH:MM:SS` text form.
use vstd::prelude::*;
use crate::text::{
    all_digits, chars_of, digit_value, is_digit, lemma_padded_value, padded,
    pow10, value_of,
};

verus! {

/// A local date and time, to the second, without a time zone.
#[derive(Clone, Copy, Debug, PartialEq, Eq, Structural)]
pub struct DateTime {
    pub year: u16,
    pub month: u8,
    pub day: u8,
    pub hour: u8,
    pub minute: u8,
    pub second: u8,
}

pub open spec fn is_leap_year(y: int) -> bool {
    (y % 4 == 0 && y % 100 != 0) || y % 400 == 0
}

pub open spec fn days_in_month(y: int, m: int) -> int {
    if m == 2 {
        if is_leap_year(y) {
            29
        } else {
            28
        }
    } else if m == 4 || m == 6 || m == 9 || m == 11 {
        30
    } else {
        31
    }
}

/// Whether the fields name an existing calendar date and a time of day
/// (years 0 to 9999, written with four digits).
pub open spec fn valid_fields(year: int, month: int, day: int, hour: int, minute: int, second: int) -> bool {
    &&& 0 <= year <= 9999
    &&& 1 <= month <= 12
    &&& 1 <= day <= days_in_month(year, month)
    &&& 0 <= hour < 24
    &&& 0 <= minute < 60
    &&& 0 <= second < 60
}

impl DateTime {
    pub open spec fn wf(&self) -> bool {
        valid_fields(
            self.year as int,
            self.month as int,
            self.day as int,
            self.hour as int,
            self.minute as int,
            self.second as int,
        )
    }

    /// The date and time with these fields, if they name one.
    pub fn new(year: i32, month: u8, day: u8, hour: u8, minute: u8, second: u8) -> (r: Option<DateTime>)
        ensures
            r is Some <==> valid_fields(year as int, month as int, day as int, hour as int, minute as int, second as int),
            r matches Some(d) ==> d.year == year && d.month == month && d.day == day && d.hour == hour
                && d.minute == minute && d.second == second,
    {
        if year < 0 || year > 9999 || month < 1 || month > 12 || hour >= 24 || minute >= 60 || second >= 60 {
            return None;
        }
        let y = year as u16;
        if day < 1 || day as u32 > month_length(y, month) {
            return None;
        }
        Some(DateTime { year: y, month, day, hour, minute, second })
    }
}

fn month_length(y: u16, m: u8) -> (r: u32)
    ensures
        r == days_in_month(y as int, m as int),
{
    if m == 2 {
        if (y % 4 == 0 && y % 100 != 0) || y % 400 == 0 {
            29
        } else {
            28
        }
    } else if m == 4 || m == 6 || m == 9 || m == 11 {
        30
    } else {
        31
    }
}

/// The text form `YYYY-MM-DDTHH:MM:SS`, every field zero-padded.
pub open spec fn format_spec(d: DateTime) -> Seq<char> {
    padded(d.year as nat, 4) + seq!['-'] + padded(d.month as nat, 2) + seq!['-'] + padded(d.day as nat, 2)
        + seq!['T'] + padded(d.hour as nat, 2) + seq![':'] + padded(d.minute as nat, 2) + seq![':']
        + padded(d.second as nat, 2)
}

/// The separator that the text form holds at position `i`, if any.
pub open spec fn separator_at(i: int) -> Option<char> {
    if i == 4 || i == 7 {
        Some('-')
    } else if i == 10 {
        Some('T')
    } else if i == 13 || i == 16 {
        Some(':')
    } else {
        None
    }
}

/// Whether `s` has the shape of the text form: nineteen characters, digits
/// where fields stand and the separators between them.
pub open spec fn datetime_shaped(s: Seq<char>) -> bool {
    &&& s.len() == 19
    &&& forall|i: int|
        0 <= i < 19 ==> match separator_at(i) {
            Some(c) => #[trigger] s[i] == c,
            None => is_digit(s[i]),
        }
}

/// The date and time that the text form `s` denotes, if it is well formed.
pub open spec fn parse_datetime_spec(s: Seq<char>) -> Option<DateTime> {
    if datetime_shaped(s) {
        let y = value_of(s.subrange(0, 4));
        let mo = value_of(s.subrange(5, 7));
        let d = value_of(s.subrange(8, 10));
        let h = value_of(s.subrange(11, 13));
        let mi = value_of(s.subrange(14, 16));
        let se = value_of(s.subrange(17, 19));
        if valid_fields(y as int, mo as int, d as int, h as int, mi as int, se as int) {
            Some(
                DateTime {
                    year: y as u16,
                    month: mo as u8,
                    day: d as u8,
                    hour: h as u8,
                    minute: mi as u8,
                    second: se as u8,
                },
            )
        } else {
            None
        }
    } else {
        None
    }
}

/// Relies on `time`: the value built by `Month::try_from`,
/// `Date::from_calendar_date`, `Time::from_hms` and `PrimitiveDateTime::new`,
/// written by `PrimitiveDateTime::format` after the description that
/// `format_description::parse` reads from `description`. For the description
/// `[year]-[month]-[day]T[hour]:[minute]:[second]` and a year from 0 to 9999,
/// `time` writes the year as four digits without sign and every other field as
/// two, all zero-padded, between the literal separators.
#[verifier::external_body]
fn format_with_time(d: &DateTime, description: &str) -> (r: String)
    requires
        d.wf(),
        description@ == "[year]-[month]-[day]T[hour]:[minute]:[second]"@,
    ensures
        r@ == format_spec(*d),
{
    let items = time::format_description::parse(description);
    let month = time::Month::try_from(d.month);
    let t = time::Time::from_hms(d.hour, d.minute, d.second);
    match (items, month, t) {
        (Ok(items), Ok(m), Ok(t)) => match time::Date::from_calendar_date(d.year as i32, m, d.day) {
            Ok(date) => time::PrimitiveDateTime::new(date, t).format(&items).unwrap_or_default(),
            Err(_) => String::new(),
        },
        _ => String::new(),
    }
}

/// The text form of `d`.
pub fn format_datetime(d: &DateTime) -> (r: Vec<char>)
    requires
        d.wf(),
    ensures
        r@ == format_spec(*d),
{
    let text = format_with_time(d, "[year]-[month]-[day]T[hour]:[minute]:[second]");
    chars_of(text.as_str())
}

fn separator(i: usize) -> (r: Option<char>)
    ensures
        r == separator_at(i as int),
{
    if i == 4 || i == 7 {
        Some('-')
    } else if i == 10 {
        Some('T')
    } else if i == 13 || i == 16 {
        Some(':')
    } else {
        None
    }
}

/// The number written by the digits of `s` from `from` to `to` (at most four).
fn number(s: &Vec<char>, from: usize, to: usize) -> (r: u16)
    requires
        from <= to <= s@.len(),
        to - from <= 4,
        all_digits(s@.subrange(from as int, to as int)),
    ensures
        r as nat == value_of(s@.subrange(from as int, to as int)),
{
    let mut v: u16 = 0;
    let mut i: usize = from;
    while i < to
        invariant
            from <= i <= to <= s@.len(),
            to - from <= 4,
            all_digits(s@.subrange(from as int, to as int)),
            v as nat == value_of(s@.subrange(from as int, i as int)),
            v as nat <= pow10((i - from) as nat) - 1,
        decreases to - i,
    {
        proof {
            reveal_with_fuel(pow10, 5);
            let sub = s@.subrange(from as int, to as int);
            assert(is_digit(sub[i - from]));
            assert(s@.subrange(from as int, i + 1).drop_last() =~= s@.subrange(from as int, i as int));
            assert(pow10((i + 1 - from) as nat) == 10 * pow10((i - from) as nat));
        }
        let c = s[i];
        let d = (c as u32 - 48) as u16;
        assert(d as nat == digit_value(c));
        assert(v * 10 + d <= pow10((i + 1 - from) as nat) - 1) by (nonlinear_arith)
            requires
                v as nat <= pow10((i - from) as nat) - 1,
                d <= 9,
                pow10((i + 1 - from) as nat) == 10 * pow10((i - from) as nat),
        ;
        v = v * 10 + d;
        i = i + 1;
    }
    v
}

/// The date and time written in `s` in the text form, if `s` is one.
pub fn parse_datetime(s: &Vec<char>) -> (r: Option<DateTime>)
    ensures
        r == parse_datetime_spec(s@),
{
    if s.len() != 19 {
        return None;
    }
    let mut i: usize = 0;
    while i < 19
        invariant
            s@.len() == 19,
            i <= 19,
            forall|k: int|
                0 <= k < i ==> match separator_at(k) {
                    Some(c) => #[trigger] s@[k] == c,
                    None => is_digit(s@[k]),
                },
        decreases 19 - i,
    {
        match separator(i) {
            Some(c) => {
                if s[i] != c {
                    return None;
                }
            },
            None => {
                if !(s[i] >= '0' && s[i] <= '9') {
                    return None;
                }
            },
        }
        i = i + 1;
    }
    assert(datetime_shaped(s@));
    proof {
        assert forall|a: int, b: int| 0 <= a <= b <= 19 && (forall|k: int| a <= k < b ==> separator_at(k) is None)
            implies all_digits(#[trigger] s@.subrange(a, b)) by {
            assert forall|k: int| 0 <= k < b - a implies is_digit(#[trigger] s@.subrange(a, b)[k]) by {
                assert(separator_at(a + k) is None);
                assert(s@.subrange(a, b)[k] == s@[a + k]);
            }
        }
    }
    let y = number(s, 0, 4);
    let mo = number(s, 5, 7);
    let d = number(s, 8, 10);
    let h = number(s, 11, 13);
    let mi = number(s, 14, 16);
    let se = number(s, 17, 19);
    if mo > 255 || d > 255 || h > 255 || mi > 255 || se > 255 {
        return None;
    }
    DateTime::new(y as i32, mo as u8, d as u8, h as u8, mi as u8, se as u8)
}

/// Reading the text form of a valid date and time gives it back.
pub proof fn lemma_datetime_round_trip(d: DateTime)
    requires
        d.wf(),
    ensures
        parse_datetime_spec(format_spec(d)) == Some(d),
{
    reveal_with_fuel(pow10, 5);
    let s = format_spec(d);
    lemma_padded_value(d.year as nat, 4);
    lemma_padded_value(d.month as nat, 2);
    lemma_padded_value(d.day as nat, 2);
    lemma_padded_value(d.hour as nat, 2);
    lemma_padded_value(d.minute as nat, 2);
    lemma_padded_value(d.second as nat, 2);
    assert(s.subrange(0, 4) =~= padded(d.year as nat, 4));
    assert(s.subrange(5, 7) =~= padded(d.month as nat, 2));
    assert(s.subrange(8, 10) =~= padded(d.day as nat, 2));
    assert(s.subrange(11, 13) =~= padded(d.hour as nat, 2));
    assert(s.subrange(14, 16) =~= padded(d.minute as nat, 2));
    assert(s.subrange(17, 19) =~= padded(d.second as nat, 2));
    assert forall|i: int|
        0 <= i < 19 implies match separator_at(i) {
            Some(c) => #[trigger] s[i] == c,
            None => is_digit(s[i]),
        } by {
        if 0 <= i < 4 {
            assert(s[i] == s.subrange(0, 4)[i]);
        } else if 5 <= i < 7 {
            assert(s[i] == s.subrange(5, 7)[i - 5]);
        } else if 8 <= i < 10 {
            assert(s[i] == s.subrange(8, 10)[i - 8]);
        } else if 11 <= i < 13 {
            assert(s[i] == s.subrange(11, 13)[i - 11]);
        } else if 14 <= i < 16 {
            assert(s[i] == s.subrange(14, 16)[i - 14]);
        } else if 17 <= i < 19 {
            assert(s[i] == s.subrange(17, 19)[i - 17]);
        }
    }
}

} // verus!
