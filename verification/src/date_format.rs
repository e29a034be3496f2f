//! Calendar dates written in six digits, `YYMMDD`.
//!
//! The two digits of the year stand for a year between 1970 and 2069: `00` to
//! `69` are the years 2000 to 2069, `70` to `99` the years 1970 to 1999. The
//! rule is the same for every date.
//!
//! The text is exactly six ASCII digits that name a day of the proleptic
//! Gregorian calendar; `230230` is rejected, as is `23615`.

use vstd::prelude::*;
use vstd::string::*;
use crate::digits::{
    all_digits, append_two_digits, ascii_bytes, bytes_spell, digits_value, is_digit,
    lemma_digits_are_ascii, lemma_two_digits, lemma_two_digits_value, two_digits, DIGIT_NINE,
    DIGIT_ZERO,
};
use crate::error::FieldFormat;

verus! {

/// A year, a month and a day as plain numbers.
pub struct Ymd {
    pub year: int,
    pub month: int,
    pub day: int,
}

/// A day of the calendar between 1970-01-01 and 2069-12-31.
#[derive(Clone, Copy, Debug, PartialEq, Eq, Hash)]
pub struct Date {
    year: u16,
    month: u8,
    day: u8,
}

impl View for Date {
    type V = Ymd;

    closed spec fn view(&self) -> Ymd {
        Ymd { year: self.year as int, month: self.month as int, day: self.day as int }
    }
}

/// Whether `year` has a 29th of February.
pub open spec fn is_leap_year(year: int) -> bool {
    year % 4 == 0 && (year % 100 != 0 || year % 400 == 0)
}

/// The number of days of a month.
pub open spec fn days_in_month(year: int, month: int) -> int
    recommends
        1 <= month <= 12,
{
    if month == 2 {
        if is_leap_year(year) {
            29
        } else {
            28
        }
    } else if month == 4 || month == 6 || month == 9 || month == 11 {
        30
    } else {
        31
    }
}

/// Whether the calendar has such a day.
pub open spec fn is_calendar_date(d: Ymd) -> bool {
    1 <= d.month <= 12 && 1 <= d.day <= days_in_month(d.year, d.month)
}

/// Whether the year is one that two digits can name.
pub open spec fn in_window(d: Ymd) -> bool {
    1970 <= d.year <= 2069
}

/// The year that a two-digit year stands for.
pub open spec fn full_year(two_digit_year: nat) -> int
    recommends
        two_digit_year < 100,
{
    if two_digit_year < 70 {
        2000 + two_digit_year as int
    } else {
        1900 + two_digit_year as int
    }
}

/// Whether `s` has the shape of a date: six decimal digits.
pub open spec fn is_date_token(s: Seq<char>) -> bool {
    s.len() == 6 && all_digits(s)
}

/// The year, month and day that the six digits of `s` name.
pub open spec fn token_ymd(s: Seq<char>) -> Ymd
    recommends
        is_date_token(s),
{
    Ymd {
        year: full_year(digits_value(s.subrange(0, 2))),
        month: digits_value(s.subrange(2, 4)) as int,
        day: digits_value(s.subrange(4, 6)) as int,
    }
}

/// Whether `s` is a date as this module reads it.
pub open spec fn is_date(s: Seq<char>) -> bool {
    is_date_token(s) && is_calendar_date(token_ymd(s))
}

/// The six digits of a date.
pub open spec fn date_text(d: Ymd) -> Seq<char>
    recommends
        is_calendar_date(d),
        in_window(d),
{
    two_digits((d.year % 100) as nat) + two_digits(d.month as nat) + two_digits(d.day as nat)
}

/// The two digits of a year name a year from 1970 to 2069 that ends in those
/// two digits, whatever the rest of the date is.
pub proof fn lemma_century_rule(s: Seq<char>)
    requires
        is_date_token(s),
    ensures
        in_window(token_ymd(s)),
        token_ymd(s).year % 100 == digits_value(s.subrange(0, 2)),
        token_ymd(s).year >= 2000 <==> digits_value(s.subrange(0, 2)) < 70,
{
    lemma_two_digits(s.subrange(0, 2));
}

/// A date names a day in the window, and the text of that day is the date
/// itself.
pub proof fn lemma_date_round_trip(s: Seq<char>)
    requires
        is_date(s),
    ensures
        in_window(token_ymd(s)),
        date_text(token_ymd(s)) == s,
{
    lemma_two_digits(s.subrange(0, 2));
    lemma_two_digits(s.subrange(2, 4));
    lemma_two_digits(s.subrange(4, 6));
    assert(date_text(token_ymd(s)) =~= s);
}

/// The text of a day in the window is a date, and it names that day.
pub proof fn lemma_date_text_round_trip(d: Ymd)
    requires
        is_calendar_date(d),
        in_window(d),
    ensures
        is_date(date_text(d)),
        token_ymd(date_text(d)) == d,
{
    let s = date_text(d);
    let yy = (d.year % 100) as nat;
    lemma_two_digits_value(yy);
    lemma_two_digits_value(d.month as nat);
    lemma_two_digits_value(d.day as nat);
    assert(s.subrange(0, 2) =~= two_digits(yy));
    assert(s.subrange(2, 4) =~= two_digits(d.month as nat));
    assert(s.subrange(4, 6) =~= two_digits(d.day as nat));
    assert forall|i: int| 0 <= i < s.len() implies is_digit(#[trigger] s[i]) by {
        if i < 2 {
            assert(s[i] == two_digits(yy)[i]);
        } else if i < 4 {
            assert(s[i] == two_digits(d.month as nat)[i - 2]);
        } else {
            assert(s[i] == two_digits(d.day as nat)[i - 4]);
        }
    }
}

/// Calls `chrono::NaiveDate::parse_from_str` with the format `%y%m%d` and
/// reads the year, month and day off the date it returns.
///
/// Trusted: on six ASCII digits chrono takes two digits each for the year,
/// the month and the day, places a two-digit year below 70 in the 2000s and
/// any other in the 1900s, and returns a date exactly when the calendar has
/// that day.
#[verifier::external_body]
fn chrono_parse_yymmdd(s: &str) -> (r: Option<(i32, u32, u32)>)
    requires
        is_date_token(s@),
    ensures
        r.is_some() <==> is_calendar_date(token_ymd(s@)),
        r matches Some((year, month, day)) ==> token_ymd(s@) == (Ymd {
            year: year as int,
            month: month as int,
            day: day as int,
        }),
{
    match chrono::NaiveDate::parse_from_str(s, "%y%m%d") {
        Ok(date) => Some(
            (
                chrono::Datelike::year(&date),
                chrono::Datelike::month(&date),
                chrono::Datelike::day(&date),
            ),
        ),
        Err(_) => None,
    }
}

/// Whether `s` consists of six ASCII digits.
fn has_date_shape(s: &str) -> (r: bool)
    ensures
        r == is_date_token(s@),
{
    let bytes = match ascii_bytes(s) {
        Some(bytes) => bytes,
        None => {
            proof {
                if all_digits(s@) {
                    lemma_digits_are_ascii(s@);
                }
            }
            return false;
        },
    };
    if bytes.len() != 6 {
        return false;
    }
    let mut i: usize = 0;
    while i < 6
        invariant
            i <= 6,
            s@.len() == 6,
            bytes_spell(bytes@, s@),
            forall|k: int| 0 <= k < i ==> is_digit(#[trigger] s@[k]),
        decreases 6 - i,
    {
        let b = bytes[i];
        assert(b < 128 && b as char == s@[i as int]);
        if b < DIGIT_ZERO || b > DIGIT_NINE {
            assert(!is_digit(s@[i as int]));
            return false;
        }
        i = i + 1;
    }
    true
}

impl Date {
    #[verifier::type_invariant]
    spec fn valid(self) -> bool {
        is_calendar_date(self@) && in_window(self@)
    }

    /// The given day, if the calendar has it and its year lies between 1970
    /// and 2069.
    pub fn from_ymd(year: u16, month: u8, day: u8) -> (r: Option<Date>)
        ensures
            r.is_some() <==> is_calendar_date(
                Ymd { year: year as int, month: month as int, day: day as int },
            ) && 1970 <= year <= 2069,
            r matches Some(d) ==> d@ == (Ymd {
                year: year as int,
                month: month as int,
                day: day as int,
            }),
    {
        if year < 1970 || year > 2069 || month < 1 || month > 12 || day < 1 {
            return None;
        }
        let leap = year % 4 == 0 && (year % 100 != 0 || year % 400 == 0);
        let last: u8 = if month == 2 {
            if leap {
                29
            } else {
                28
            }
        } else if month == 4 || month == 6 || month == 9 || month == 11 {
            30
        } else {
            31
        };
        if day > last {
            return None;
        }
        Some(Date { year, month, day })
    }

    /// The year, between 1970 and 2069.
    pub fn year(&self) -> (r: u16)
        ensures
            r as int == self@.year,
            1970 <= r <= 2069,
    {
        proof {
            use_type_invariant(self);
        }
        self.year
    }

    /// The month, from 1 to 12.
    pub fn month(&self) -> (r: u8)
        ensures
            r as int == self@.month,
            1 <= r <= 12,
    {
        proof {
            use_type_invariant(self);
        }
        self.month
    }

    /// The day of the month, from 1.
    pub fn day(&self) -> (r: u8)
        ensures
            r as int == self@.day,
            1 <= r as int <= days_in_month(self@.year, self@.month),
    {
        proof {
            use_type_invariant(self);
        }
        self.day
    }
}

/// Decodes a date.
///
/// Succeeds exactly on the texts that `is_date` accepts, with the day that
/// `token_ymd` gives; any other text is a `Date` format error.
pub fn deserialize(s: &str) -> (r: Result<Date, FieldFormat>)
    ensures
        is_date(s@) ==> r is Ok && r->Ok_0@ == token_ymd(s@),
        !is_date(s@) ==> r == Err::<Date, FieldFormat>(FieldFormat::Date),
{
    if !has_date_shape(s) {
        return Err(FieldFormat::Date);
    }
    proof {
        lemma_century_rule(s@);
        lemma_two_digits(s@.subrange(2, 4));
        lemma_two_digits(s@.subrange(4, 6));
    }
    match chrono_parse_yymmdd(s) {
        Some((year, month, day)) => Ok(
            Date { year: year as u16, month: month as u8, day: day as u8 },
        ),
        None => Err(FieldFormat::Date),
    }
}

/// Encodes a date as `YYMMDD`.
pub fn serialize(d: &Date) -> (r: String)
    ensures
        r@ == date_text(d@),
{
    proof {
        use_type_invariant(d);
    }
    let mut out = String::new();
    append_two_digits(&mut out, (d.year % 100) as u8);
    append_two_digits(&mut out, d.month);
    append_two_digits(&mut out, d.day);
    assert(out@ =~= date_text(d@));
    out
}

} // verus!
