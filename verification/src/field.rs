//! The fields of a table: the kinds of value that a column holds, how the
//! text of a field is read as such a value, and how a value is written back.
//!
//! | kind              | text                                         |
//! |-------------------|----------------------------------------------|
//! | `Integer`         | decimal digits, at most `u32::MAX`           |
//! | `Direction`       | `0` or `1`, or either with zeros in front    |
//! | `OptionalInteger` | nothing, or an `Integer`                     |
//! | `Text`            | anything                                     |
//! | `ClockTime`       | `HH:MM:SS`, see `time_format`                |
//! | `Date`            | `YYMMDD`, see `date_format`                  |
//! | `Decimal`         | `-12.345`, see `decimal`                     |

use vstd::prelude::*;
use vstd::string::*;
use crate::date_format::{
    date_text, in_window, is_calendar_date, is_date, lemma_date_round_trip,
    lemma_date_text_round_trip, token_ymd, Date, Ymd,
};
use crate::decimal::{
    decimal_of, decimal_text, fits, integer_part, is_decimal, lemma_decimal_fits,
    lemma_decimal_round_trip, lemma_decimal_text_round_trip, Decimal, DecimalValue,
};
use crate::digits::{
    append_number, digits_value, is_shortest, lemma_nat_digits, lemma_shortest_is_nat_digits,
    nat_digits, parse_number, spells_number,
};
use crate::error::FieldFormat;
use crate::time_format::{
    clock_seconds, clock_text, is_clock_time, lemma_clock_text_round_trip,
    lemma_clock_time_round_trip, ServiceTime, SERVICE_TIME_LIMIT,
};

verus! {

/// The kind of value that a column holds.
#[derive(Clone, Copy, Debug, PartialEq, Eq, Structural)]
pub enum FieldKind {
    /// A whole number that fits in 32 bits.
    Integer,
    /// A direction of travel: 0 or 1.
    Direction,
    /// Nothing, or a whole number that fits in 32 bits.
    OptionalInteger,
    /// Any text.
    Text,
    /// A time of a service day.
    ClockTime,
    /// A day of the calendar.
    Date,
    /// A decimal number.
    Decimal,
}

/// The value of a field.
#[derive(Clone, Debug, PartialEq, Eq)]
pub enum Value {
    Integer(u32),
    Direction(u8),
    OptionalInteger(Option<u32>),
    Text(String),
    ClockTime(ServiceTime),
    Date(Date),
    Decimal(Decimal),
}

/// What the value of a field is, as plain numbers and characters.
pub enum FieldValue {
    Integer(nat),
    Direction(nat),
    OptionalInteger(Option<nat>),
    Text(Seq<char>),
    ClockTime(nat),
    Date(Ymd),
    Decimal(DecimalValue),
}

impl View for Value {
    type V = FieldValue;

    open spec fn view(&self) -> FieldValue {
        match *self {
            Value::Integer(n) => FieldValue::Integer(n as nat),
            Value::Direction(n) => FieldValue::Direction(n as nat),
            Value::OptionalInteger(Some(n)) => FieldValue::OptionalInteger(Some(n as nat)),
            Value::OptionalInteger(None) => FieldValue::OptionalInteger(None),
            Value::Text(s) => FieldValue::Text(s@),
            Value::ClockTime(t) => FieldValue::ClockTime(t@),
            Value::Date(d) => FieldValue::Date(d@),
            Value::Decimal(d) => FieldValue::Decimal(d@),
        }
    }
}

/// The kind of a value.
pub open spec fn kind_of(v: FieldValue) -> FieldKind {
    match v {
        FieldValue::Integer(_) => FieldKind::Integer,
        FieldValue::Direction(_) => FieldKind::Direction,
        FieldValue::OptionalInteger(_) => FieldKind::OptionalInteger,
        FieldValue::Text(_) => FieldKind::Text,
        FieldValue::ClockTime(_) => FieldKind::ClockTime,
        FieldValue::Date(_) => FieldKind::Date,
        FieldValue::Decimal(_) => FieldKind::Decimal,
    }
}

/// Whether a value is one that a `Value` can hold.
pub open spec fn in_range(v: FieldValue) -> bool {
    match v {
        FieldValue::Integer(n) => n <= u32::MAX,
        FieldValue::Direction(n) => n <= 1,
        FieldValue::OptionalInteger(Some(n)) => n <= u32::MAX,
        FieldValue::OptionalInteger(None) => true,
        FieldValue::Text(_) => true,
        FieldValue::ClockTime(t) => t < SERVICE_TIME_LIMIT,
        FieldValue::Date(d) => is_calendar_date(d) && in_window(d),
        FieldValue::Decimal(d) => fits(d),
    }
}

/// Whether `text` is a well-formed field of the given kind.
pub open spec fn accepts(kind: FieldKind, text: Seq<char>) -> bool {
    match kind {
        FieldKind::Integer => spells_number(text, u32::MAX as nat),
        FieldKind::Direction => spells_number(text, 1),
        FieldKind::OptionalInteger => text.len() == 0 || spells_number(text, u32::MAX as nat),
        FieldKind::Text => true,
        FieldKind::ClockTime => is_clock_time(text),
        FieldKind::Date => is_date(text),
        FieldKind::Decimal => is_decimal(text),
    }
}

/// The value that a well-formed field of the given kind spells.
pub open spec fn value_of(kind: FieldKind, text: Seq<char>) -> FieldValue
    recommends
        accepts(kind, text),
{
    match kind {
        FieldKind::Integer => FieldValue::Integer(digits_value(text)),
        FieldKind::Direction => FieldValue::Direction(digits_value(text)),
        FieldKind::OptionalInteger => if text.len() == 0 {
            FieldValue::OptionalInteger(None)
        } else {
            FieldValue::OptionalInteger(Some(digits_value(text)))
        },
        FieldKind::Text => FieldValue::Text(text),
        FieldKind::ClockTime => FieldValue::ClockTime(clock_seconds(text)),
        FieldKind::Date => FieldValue::Date(token_ymd(text)),
        FieldKind::Decimal => FieldValue::Decimal(decimal_of(text)),
    }
}

/// The text of a value.
pub open spec fn text_of(v: FieldValue) -> Seq<char>
    recommends
        in_range(v),
{
    match v {
        FieldValue::Integer(n) => nat_digits(n),
        FieldValue::Direction(n) => nat_digits(n),
        FieldValue::OptionalInteger(Some(n)) => nat_digits(n),
        FieldValue::OptionalInteger(None) => Seq::empty(),
        FieldValue::Text(s) => s,
        FieldValue::ClockTime(t) => clock_text(t),
        FieldValue::Date(d) => date_text(d),
        FieldValue::Decimal(d) => decimal_text(d),
    }
}

/// Whether a field is written the way this library writes it: a number has
/// no zero in front that could be left out. Of the other kinds every
/// well-formed text is plain.
pub open spec fn is_plain(kind: FieldKind, text: Seq<char>) -> bool {
    match kind {
        FieldKind::Integer => is_shortest(text),
        FieldKind::Direction => is_shortest(text),
        FieldKind::OptionalInteger => text.len() == 0 || is_shortest(text),
        FieldKind::Decimal => is_shortest(integer_part(text)),
        _ => true,
    }
}

/// Reading a plain, well-formed field and writing the value back gives the
/// same text.
pub proof fn lemma_field_text_round_trip(kind: FieldKind, text: Seq<char>)
    requires
        accepts(kind, text),
        is_plain(kind, text),
    ensures
        text_of(value_of(kind, text)) == text,
{
    match kind {
        FieldKind::Integer => lemma_shortest_is_nat_digits(text),
        FieldKind::Direction => lemma_shortest_is_nat_digits(text),
        FieldKind::OptionalInteger => {
            if text.len() == 0 {
                assert(text =~= Seq::<char>::empty());
            } else {
                lemma_shortest_is_nat_digits(text);
            }
        },
        FieldKind::Text => {},
        FieldKind::ClockTime => lemma_clock_time_round_trip(text),
        FieldKind::Date => lemma_date_round_trip(text),
        FieldKind::Decimal => lemma_decimal_round_trip(text),
    }
}

/// A well-formed field spells a value of its kind that a `Value` can hold.
pub proof fn lemma_field_value_in_range(kind: FieldKind, text: Seq<char>)
    requires
        accepts(kind, text),
    ensures
        kind_of(value_of(kind, text)) == kind,
        in_range(value_of(kind, text)),
{
    match kind {
        FieldKind::ClockTime => lemma_clock_time_round_trip(text),
        FieldKind::Date => lemma_date_round_trip(text),
        FieldKind::Decimal => lemma_decimal_fits(text),
        _ => {},
    }
}

/// Writing a value and reading the text back gives the same value, and the
/// text written is plain.
pub proof fn lemma_field_value_round_trip(v: FieldValue)
    requires
        in_range(v),
    ensures
        accepts(kind_of(v), text_of(v)),
        is_plain(kind_of(v), text_of(v)),
        value_of(kind_of(v), text_of(v)) == v,
{
    match v {
        FieldValue::Integer(n) => lemma_nat_digits(n),
        FieldValue::Direction(n) => lemma_nat_digits(n),
        FieldValue::OptionalInteger(Some(n)) => lemma_nat_digits(n),
        FieldValue::OptionalInteger(None) => {},
        FieldValue::Text(_) => {},
        FieldValue::ClockTime(t) => lemma_clock_text_round_trip(t),
        FieldValue::Date(d) => lemma_date_text_round_trip(d),
        FieldValue::Decimal(d) => lemma_decimal_text_round_trip(d),
    }
}

/// Decodes a whole number that fits in 32 bits.
pub fn read_u32(text: &str) -> (r: Result<u32, FieldFormat>)
    ensures
        r is Ok <==> spells_number(text@, u32::MAX as nat),
        r matches Ok(n) ==> n as nat == digits_value(text@),
        r matches Err(e) ==> e == FieldFormat::Integer,
{
    match parse_number(text, 0xffff_ffff) {
        Some(n) => Ok(n as u32),
        None => Err(FieldFormat::Integer),
    }
}

/// Decodes a direction of travel, which is 0 or 1.
pub fn read_direction(text: &str) -> (r: Result<u8, FieldFormat>)
    ensures
        r is Ok <==> spells_number(text@, 1),
        r matches Ok(n) ==> n as nat == digits_value(text@),
        r matches Err(e) ==> e == FieldFormat::Integer,
{
    match parse_number(text, 1) {
        Some(n) => Ok(n as u8),
        None => Err(FieldFormat::Integer),
    }
}

/// Decodes a field that is either empty or a whole number that fits in 32
/// bits.
pub fn read_optional_u32(text: &str) -> (r: Result<Option<u32>, FieldFormat>)
    ensures
        r is Ok <==> text@.len() == 0 || spells_number(text@, u32::MAX as nat),
        r matches Ok(found) ==> (found is None <==> text@.len() == 0),
        r matches Ok(Some(n)) ==> n as nat == digits_value(text@),
        r matches Err(e) ==> e == FieldFormat::Integer,
{
    if text.is_empty() {
        return Ok(None);
    }
    match parse_number(text, 0xffff_ffff) {
        Some(n) => Ok(Some(n as u32)),
        None => Err(FieldFormat::Integer),
    }
}

/// Encodes a whole number in the fewest digits.
pub fn write_u32(n: u32) -> (r: String)
    ensures
        r@ == nat_digits(n as nat),
{
    let mut out = String::new();
    append_number(&mut out, n as u64);
    assert(out@ =~= nat_digits(n as nat));
    out
}

/// Decodes a field of the given kind.
///
/// Returns the value that the text spells if the text is well-formed for
/// the kind, and `None` if it is not.
pub fn read_field(kind: FieldKind, text: &str) -> (r: Option<Value>)
    ensures
        r is Some <==> accepts(kind, text@),
        r matches Some(v) ==> v@ == value_of(kind, text@),
{
    match kind {
        FieldKind::Integer => match read_u32(text) {
            Ok(n) => Some(Value::Integer(n)),
            Err(_) => None,
        },
        FieldKind::Direction => match read_direction(text) {
            Ok(n) => Some(Value::Direction(n)),
            Err(_) => None,
        },
        FieldKind::OptionalInteger => match read_optional_u32(text) {
            Ok(n) => Some(Value::OptionalInteger(n)),
            Err(_) => None,
        },
        FieldKind::Text => Some(Value::Text(text.to_owned())),
        FieldKind::ClockTime => match crate::time_format::deserialize(text) {
            Ok(t) => Some(Value::ClockTime(t)),
            Err(_) => None,
        },
        FieldKind::Date => match crate::date_format::deserialize(text) {
            Ok(d) => Some(Value::Date(d)),
            Err(_) => None,
        },
        FieldKind::Decimal => match crate::decimal::deserialize(text) {
            Ok(d) => Some(Value::Decimal(d)),
            Err(_) => None,
        },
    }
}

/// Encodes a value as the text of a field.
pub fn write_field(v: &Value) -> (r: String)
    ensures
        r@ == text_of(v@),
{
    match v {
        Value::Integer(n) => write_u32(*n),
        Value::Direction(n) => write_u32(*n as u32),
        Value::OptionalInteger(Some(n)) => write_u32(*n),
        Value::OptionalInteger(None) => String::new(),
        Value::Text(s) => s.clone(),
        Value::ClockTime(t) => crate::time_format::serialize(t),
        Value::Date(d) => crate::date_format::serialize(d),
        Value::Decimal(d) => crate::decimal::serialize(d),
    }
}

} // verus!
