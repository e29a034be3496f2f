//! Service-day clock times, written `HH:MM:SS`.
//!
//! A service day may run past midnight: `25:10:00` is ten past one in the
//! night that ends the service day. A time is therefore held as an offset from
//! the start of the service day and never folded into a wall-clock time.
//!
//! The text is exactly eight characters: two digits, a colon, two digits, a
//! colon, two digits. Hours run from `00` to `99`, minutes and seconds from
//! `00` to `59`. Text that is not zero-padded, such as `3:4:5`, is rejected.

use vstd::prelude::*;
use vstd::string::*;
use crate::digits::{
    all_digits, append_two_digits, ascii_bytes, bytes_spell, digits_value, is_digit,
    lemma_digits_value_two, lemma_two_digits, lemma_two_digits_value, two_digits, DIGIT_NINE,
    DIGIT_ZERO,
};
use crate::error::FieldFormat;

verus! {

/// The byte of the colon.
const COLON: u8 = 58;

/// The number of seconds in a day.
pub const SECONDS_PER_DAY: u32 = 86_400;

/// One more than the largest offset that `HH:MM:SS` can spell.
pub const SERVICE_TIME_LIMIT: u32 = 360_000;

/// An offset from the start of a service day, in whole seconds.
#[derive(Clone, Copy, Debug, PartialEq, Eq, Hash)]
pub struct ServiceTime {
    seconds: u32,
}

impl View for ServiceTime {
    type V = nat;

    /// The offset in seconds.
    closed spec fn view(&self) -> nat {
        self.seconds as nat
    }
}

/// Whether `s` is a clock time as this module reads it.
pub open spec fn is_clock_time(s: Seq<char>) -> bool {
    &&& s.len() == 8
    &&& s[2] == ':'
    &&& s[5] == ':'
    &&& all_digits(s.subrange(0, 2))
    &&& all_digits(s.subrange(3, 5))
    &&& all_digits(s.subrange(6, 8))
    &&& digits_value(s.subrange(3, 5)) < 60
    &&& digits_value(s.subrange(6, 8)) < 60
}

/// The offset that a clock time spells: hours, minutes and seconds added up.
pub open spec fn clock_seconds(s: Seq<char>) -> nat
    recommends
        is_clock_time(s),
{
    3600 * digits_value(s.subrange(0, 2)) + 60 * digits_value(s.subrange(3, 5)) + digits_value(
        s.subrange(6, 8),
    )
}

/// The text of an offset below one hundred hours.
pub open spec fn clock_text(seconds: nat) -> Seq<char>
    recommends
        seconds < SERVICE_TIME_LIMIT,
{
    two_digits(seconds / 3600) + seq![':'] + two_digits(seconds % 3600 / 60) + seq![':']
        + two_digits(seconds % 60)
}

/// A clock time spells an offset below one hundred hours, and the text of
/// that offset is the clock time itself.
pub proof fn lemma_clock_time_round_trip(s: Seq<char>)
    requires
        is_clock_time(s),
    ensures
        clock_seconds(s) < SERVICE_TIME_LIMIT,
        clock_text(clock_seconds(s)) == s,
{
    let h = s.subrange(0, 2);
    let m = s.subrange(3, 5);
    let x = s.subrange(6, 8);
    lemma_two_digits(h);
    lemma_two_digits(m);
    lemma_two_digits(x);
    let t = clock_seconds(s);
    assert(t / 3600 == digits_value(h));
    assert(t % 3600 / 60 == digits_value(m));
    assert(t % 60 == digits_value(x));
    assert(clock_text(t) =~= s);
}

/// The text of an offset below one hundred hours is a clock time, and it
/// spells that offset.
pub proof fn lemma_clock_text_round_trip(seconds: nat)
    requires
        seconds < SERVICE_TIME_LIMIT,
    ensures
        is_clock_time(clock_text(seconds)),
        clock_seconds(clock_text(seconds)) == seconds,
{
    let s = clock_text(seconds);
    let h = seconds / 3600;
    let m = seconds % 3600 / 60;
    let x = seconds % 60;
    lemma_two_digits_value(h);
    lemma_two_digits_value(m);
    lemma_two_digits_value(x);
    assert(s.len() == 8);
    assert(s.subrange(0, 2) =~= two_digits(h));
    assert(s.subrange(3, 5) =~= two_digits(m));
    assert(s.subrange(6, 8) =~= two_digits(x));
    assert(s[2] == ':');
    assert(s[5] == ':');
}

/// Every character of a clock time is ASCII.
pub proof fn lemma_clock_time_is_ascii(s: Seq<char>)
    requires
        is_clock_time(s),
    ensures
        vstd::utf8::is_ascii_chars(s),
{
    assert forall|i: int| 0 <= i < s.len() implies '\0' <= #[trigger] s[i] <= '\u{7f}' by {
        if i < 2 {
            assert(is_digit(s.subrange(0, 2)[i]));
        } else if 3 <= i < 5 {
            assert(is_digit(s.subrange(3, 5)[i - 3]));
        } else if 6 <= i {
            assert(is_digit(s.subrange(6, 8)[i - 6]));
        }
    }
}

/// Reads the two bytes at `at` and `at + 1` as a two-digit number.
fn two_digit_field(bytes: &[u8], at: usize, Ghost(s): Ghost<Seq<char>>) -> (r: Option<u8>)
    requires
        bytes_spell(bytes@, s),
        at + 2 <= s.len(),
    ensures
        r.is_some() <==> all_digits(s.subrange(at as int, at + 2)),
        r matches Some(v) ==> v as nat == digits_value(s.subrange(at as int, at + 2)) && v < 100,
{
    let a = bytes[at];
    let b = bytes[at + 1];
    let ghost f = s.subrange(at as int, at + 2);
    assert(f[0] == s[at as int] && f[1] == s[at + 1]);
    assert(a < 128 && a as char == f[0]);
    assert(b < 128 && b as char == f[1]);
    if a < DIGIT_ZERO || a > DIGIT_NINE || b < DIGIT_ZERO || b > DIGIT_NINE {
        assert(!is_digit(f[0]) || !is_digit(f[1]));
        return None;
    }
    proof {
        lemma_digits_value_two(f);
    }
    Some((a - DIGIT_ZERO) * 10 + (b - DIGIT_ZERO))
}

impl ServiceTime {
    #[verifier::type_invariant]
    spec fn in_range(self) -> bool {
        self.seconds < SERVICE_TIME_LIMIT
    }

    /// The time that lies `seconds` after the start of the service day, if
    /// that is less than one hundred hours.
    pub fn from_seconds(seconds: u32) -> (r: Option<ServiceTime>)
        ensures
            r.is_some() <==> seconds < SERVICE_TIME_LIMIT,
            r matches Some(t) ==> t@ == seconds as nat,
    {
        if seconds < SERVICE_TIME_LIMIT {
            Some(ServiceTime { seconds })
        } else {
            None
        }
    }

    /// The whole offset in seconds; always below one hundred hours.
    pub fn total_seconds(&self) -> (r: u32)
        ensures
            r as nat == self@,
            r < SERVICE_TIME_LIMIT,
    {
        proof {
            use_type_invariant(self);
        }
        self.seconds
    }

    /// The hours of the offset, which may be 24 or more.
    pub fn hours(&self) -> (r: u32)
        ensures
            r as nat == self@ / 3600,
    {
        self.seconds / 3600
    }

    /// The minutes past the hour.
    pub fn minutes(&self) -> (r: u32)
        ensures
            r as nat == self@ % 3600 / 60,
    {
        self.seconds % 3600 / 60
    }

    /// The seconds past the minute.
    pub fn seconds(&self) -> (r: u32)
        ensures
            r as nat == self@ % 60,
    {
        self.seconds % 60
    }

    /// Whether the time lies at or after the midnight that ends the first
    /// calendar day of the service day.
    pub fn is_past_midnight(&self) -> (r: bool)
        ensures
            r == (self@ >= SECONDS_PER_DAY),
    {
        self.seconds >= SECONDS_PER_DAY
    }
}

/// Decodes a clock time.
///
/// Succeeds exactly on the texts that `is_clock_time` accepts, with the
/// offset that `clock_seconds` gives; any other text is a `ClockTime` format
/// error.
pub fn deserialize(s: &str) -> (r: Result<ServiceTime, FieldFormat>)
    ensures
        is_clock_time(s@) ==> r is Ok && r->Ok_0@ == clock_seconds(s@),
        !is_clock_time(s@) ==> r == Err::<ServiceTime, FieldFormat>(FieldFormat::ClockTime),
{
    let bytes = match ascii_bytes(s) {
        Some(bytes) => bytes,
        None => {
            proof {
                if is_clock_time(s@) {
                    lemma_clock_time_is_ascii(s@);
                }
            }
            return Err(FieldFormat::ClockTime);
        },
    };
    if bytes.len() != 8 || bytes[2] != COLON || bytes[5] != COLON {
        return Err(FieldFormat::ClockTime);
    }
    let hours = match two_digit_field(bytes, 0, Ghost(s@)) {
        Some(v) => v,
        None => {
            return Err(FieldFormat::ClockTime);
        },
    };
    let minutes = match two_digit_field(bytes, 3, Ghost(s@)) {
        Some(v) => v,
        None => {
            return Err(FieldFormat::ClockTime);
        },
    };
    let seconds = match two_digit_field(bytes, 6, Ghost(s@)) {
        Some(v) => v,
        None => {
            return Err(FieldFormat::ClockTime);
        },
    };
    if minutes >= 60 || seconds >= 60 {
        return Err(FieldFormat::ClockTime);
    }
    Ok(ServiceTime { seconds: hours as u32 * 3600 + minutes as u32 * 60 + seconds as u32 })
}

/// Encodes a time as `HH:MM:SS`.
pub fn serialize(t: &ServiceTime) -> (r: String)
    ensures
        r@ == clock_text(t@),
{
    proof {
        use_type_invariant(t);
        reveal_strlit(":");
    }
    let mut out = String::new();
    append_two_digits(&mut out, (t.seconds / 3600) as u8);
    out.append(":");
    append_two_digits(&mut out, (t.seconds % 3600 / 60) as u8);
    out.append(":");
    append_two_digits(&mut out, (t.seconds % 60) as u8);
    assert(out@ =~= clock_text(t@));
    out
}

} // verus!
