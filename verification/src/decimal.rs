//! Decimal numbers as a feed writes them: coordinates in degrees and
//! distances along a shape.
//!
//! A number is held exactly, as its digits and the place of the decimal
//! point, so that nothing is rounded on the way in or out.
//!
//! The text is an optional `-`, one or more digits and, optionally, a point
//! followed by one or more digits; at most nineteen digits in all. A `+`, an
//! exponent, a missing digit on either side of the point and surrounding
//! blanks are rejected.

use vstd::prelude::*;
use vstd::string::*;
use crate::digits::{
    all_digits, append_fixed_digits, append_number, ascii_bytes, bytes_spell, digits_value,
    fixed_digits, is_digit, is_shortest, lemma_digits_value_bound, lemma_digits_value_push,
    lemma_fixed_digits, lemma_fixed_digits_of_value, lemma_nat_digits, lemma_pow10_19,
    lemma_pow10_add, lemma_pow10_monotonic, lemma_shortest_is_nat_digits, nat_digits, pow10,
    pow10_u64, DIGIT_NINE, DIGIT_ZERO,
};
use crate::error::FieldFormat;
use crate::scan::{first_index_of, lemma_first_index_of};

verus! {

/// The byte of the minus sign.
const MINUS: u8 = 45;

/// The byte of the decimal point.
const POINT: u8 = 46;

/// The largest number of digits that a decimal number may have.
pub const MAX_DIGITS: u8 = 19;

/// What a decimal number is: `mantissa` divided by ten to the power `scale`,
/// negated if `negative`.
pub struct DecimalValue {
    pub negative: bool,
    pub mantissa: nat,
    pub scale: nat,
}

/// A decimal number of at most nineteen digits.
///
/// Two numbers are equal when they have the same sign, digits and scale:
/// `1.50` and `1.5` are different values, and so are `-0` and `0`.
#[derive(Clone, Copy, Debug, PartialEq, Eq, Hash)]
pub struct Decimal {
    negative: bool,
    mantissa: u64,
    scale: u8,
}

impl View for Decimal {
    type V = DecimalValue;

    closed spec fn view(&self) -> DecimalValue {
        DecimalValue {
            negative: self.negative,
            mantissa: self.mantissa as nat,
            scale: self.scale as nat,
        }
    }
}

/// Whether a value fits a `Decimal`: its integer part and its `scale`
/// fraction digits are nineteen digits at most.
pub open spec fn fits(v: DecimalValue) -> bool {
    v.scale < MAX_DIGITS && v.mantissa < pow10(MAX_DIGITS as nat)
}

/// The text without its sign.
pub open spec fn unsigned_part(s: Seq<char>) -> Seq<char> {
    if s.len() > 0 && s[0] == '-' {
        s.drop_first()
    } else {
        s
    }
}

/// Whether the text starts with a minus sign.
pub open spec fn has_minus(s: Seq<char>) -> bool {
    s.len() > 0 && s[0] == '-'
}

/// The digits before the decimal point.
pub open spec fn integer_part(s: Seq<char>) -> Seq<char> {
    let body = unsigned_part(s);
    body.take(first_index_of(body, '.'))
}

/// Whether the text holds a decimal point.
pub open spec fn has_point(s: Seq<char>) -> bool {
    let body = unsigned_part(s);
    first_index_of(body, '.') < body.len()
}

/// The digits after the decimal point; empty if there is no point.
pub open spec fn fraction_part(s: Seq<char>) -> Seq<char> {
    let body = unsigned_part(s);
    if has_point(s) {
        body.skip(first_index_of(body, '.') + 1)
    } else {
        Seq::empty()
    }
}

/// Whether `s` is a decimal number as this module reads it.
pub open spec fn is_decimal(s: Seq<char>) -> bool {
    &&& integer_part(s).len() >= 1
    &&& all_digits(integer_part(s))
    &&& all_digits(fraction_part(s))
    &&& has_point(s) ==> fraction_part(s).len() >= 1
    &&& integer_part(s).len() + fraction_part(s).len() <= MAX_DIGITS
}

/// The number that a decimal text spells.
pub open spec fn decimal_of(s: Seq<char>) -> DecimalValue
    recommends
        is_decimal(s),
{
    DecimalValue {
        negative: has_minus(s),
        mantissa: digits_value(integer_part(s)) * pow10(fraction_part(s).len()) + digits_value(
            fraction_part(s),
        ),
        scale: fraction_part(s).len(),
    }
}

/// The sign of a number as text.
pub open spec fn sign_text(negative: bool) -> Seq<char> {
    if negative {
        seq!['-']
    } else {
        Seq::empty()
    }
}

/// The point and the fraction digits of a number; empty for scale zero.
pub open spec fn fraction_text(v: DecimalValue) -> Seq<char> {
    if v.scale > 0 {
        seq!['.'] + fixed_digits(v.mantissa % pow10(v.scale), v.scale)
    } else {
        Seq::empty()
    }
}

/// The text of a number: the sign, the integer part without leading zeros
/// and, for a scale above zero, the point and exactly `scale` digits.
pub open spec fn decimal_text(v: DecimalValue) -> Seq<char>
    recommends
        fits(v),
{
    sign_text(v.negative) + nat_digits(v.mantissa / pow10(v.scale)) + fraction_text(v)
}

/// Whether a decimal text has no zero before its integer part that could be
/// left out.
pub open spec fn is_plain_decimal(s: Seq<char>) -> bool {
    is_decimal(s) && is_shortest(integer_part(s))
}

/// An integer part of `a` digits followed by `k` fraction digits stays below
/// ten to the power `a + k`, and splits again into the two parts.
proof fn lemma_mantissa_parts(whole: nat, a: nat, fraction: nat, k: nat)
    requires
        whole < pow10(a),
        fraction < pow10(k),
    ensures
        whole * pow10(k) + fraction < pow10(a + k),
        (whole * pow10(k) + fraction) / pow10(k) == whole,
        (whole * pow10(k) + fraction) % pow10(k) == fraction,
{
    lemma_pow10_add(a, k);
    lemma_pow10_add(k, 0);
    let p = pow10(k);
    assert(whole * p + fraction < pow10(a) * p) by (nonlinear_arith)
        requires
            whole < pow10(a),
            fraction < p,
            p >= 1,
    ;
    vstd::arithmetic::div_mod::lemma_fundamental_div_mod_converse(
        (whole * p + fraction) as int,
        p as int,
        whole as int,
        fraction as int,
    );
}

/// A decimal text spells a number that fits.
pub proof fn lemma_decimal_fits(s: Seq<char>)
    requires
        is_decimal(s),
    ensures
        fits(decimal_of(s)),
{
    let i = integer_part(s);
    let f = fraction_part(s);
    lemma_digits_value_bound(i);
    lemma_digits_value_bound(f);
    lemma_mantissa_parts(digits_value(i), i.len(), digits_value(f), f.len());
    lemma_pow10_monotonic(i.len() + f.len(), MAX_DIGITS as nat);
}

/// The text shape that the parts of a decimal add up to.
proof fn lemma_decimal_shape(s: Seq<char>)
    requires
        is_decimal(s),
    ensures
        s == sign_text(has_minus(s)) + integer_part(s) + (if has_point(s) {
            seq!['.'] + fraction_part(s)
        } else {
            Seq::empty()
        }),
{
    let body = unsigned_part(s);
    lemma_first_index_of(body, '.');
    let d = first_index_of(body, '.');
    let rest = if has_point(s) {
        seq!['.'] + fraction_part(s)
    } else {
        Seq::empty()
    };
    assert(body =~= integer_part(s) + rest);
    assert(s =~= sign_text(has_minus(s)) + body);
    assert(s =~= sign_text(has_minus(s)) + integer_part(s) + rest);
}

/// A decimal text without needless leading zeros is the text of the number
/// it spells.
pub proof fn lemma_decimal_round_trip(s: Seq<char>)
    requires
        is_plain_decimal(s),
    ensures
        decimal_text(decimal_of(s)) == s,
{
    let i = integer_part(s);
    let f = fraction_part(s);
    let v = decimal_of(s);
    lemma_digits_value_bound(i);
    lemma_digits_value_bound(f);
    lemma_mantissa_parts(digits_value(i), i.len(), digits_value(f), f.len());
    lemma_shortest_is_nat_digits(i);
    lemma_fixed_digits_of_value(f);
    lemma_decimal_shape(s);
    if has_point(s) {
        assert(v.scale > 0);
        assert(fraction_text(v) == seq!['.'] + f);
    } else {
        assert(f.len() == 0);
        assert(fraction_text(v) =~= Seq::<char>::empty());
    }
}

/// The parts of a text that is put together from a sign, digits, a point and
/// more digits.
proof fn lemma_parts_of_text(negative: bool, i: Seq<char>, f: Seq<char>)
    requires
        i.len() >= 1,
        all_digits(i),
        all_digits(f),
    ensures
        ({
            let s = sign_text(negative) + i + (if f.len() > 0 {
                seq!['.'] + f
            } else {
                Seq::empty()
            });
            &&& has_minus(s) == negative
            &&& integer_part(s) == i
            &&& fraction_part(s) == f
            &&& has_point(s) == (f.len() > 0)
        }),
{
    let rest = if f.len() > 0 {
        seq!['.'] + f
    } else {
        Seq::empty()
    };
    let s = sign_text(negative) + i + rest;
    assert(is_digit(i[0]));
    if negative {
        assert(s[0] == '-');
    } else {
        assert(s[0] == i[0]);
    }
    let body = unsigned_part(s);
    assert(body =~= i + rest);
    lemma_first_index_of(body, '.');
    let d = first_index_of(body, '.');
    assert forall|j: int| 0 <= j < i.len() implies body[j] != '.' by {
        assert(is_digit(i[j]));
    }
    if f.len() > 0 {
        assert(body[i.len() as int] == '.');
        assert(d == i.len());
        assert(body.skip(d + 1) =~= f);
    } else {
        assert(d == i.len());
    }
    assert(body.take(d) =~= i);
    assert(fraction_part(s) =~= f);
}

/// The text of a number that fits is a decimal text without needless
/// leading zeros, and it spells that number.
pub proof fn lemma_decimal_text_round_trip(v: DecimalValue)
    requires
        fits(v),
    ensures
        is_plain_decimal(decimal_text(v)),
        decimal_of(decimal_text(v)) == v,
{
    let k = v.scale;
    let p = pow10(k);
    lemma_pow10_add(k, 0);
    let whole = v.mantissa / p;
    let fraction = v.mantissa % p;
    let i = nat_digits(whole);
    let f = fixed_digits(fraction, k);
    lemma_nat_digits(whole);
    assert(fraction < p) by (nonlinear_arith)
        requires
            fraction == v.mantissa % p,
            p >= 1,
    ;
    lemma_fixed_digits(fraction, k);
    lemma_parts_of_text(v.negative, i, f);
    let s = decimal_text(v);
    if k == 0 {
        assert(f.len() == 0);
        assert(fraction_text(v) =~= Seq::<char>::empty());
    }
    assert(s == sign_text(v.negative) + i + (if f.len() > 0 {
        seq!['.'] + f
    } else {
        Seq::empty()
    }));
    assert(whole * p + fraction == v.mantissa) by (nonlinear_arith)
        requires
            whole == v.mantissa / p,
            fraction == v.mantissa % p,
            p >= 1,
    ;
    lemma_integer_digits(v, i.len());
}

/// The integer part of a number that fits, spelled without leading zeros,
/// leaves room for the fraction digits.
proof fn lemma_integer_digits(v: DecimalValue, len: nat)
    requires
        fits(v),
        len == nat_digits(v.mantissa / pow10(v.scale)).len(),
    ensures
        len + v.scale <= MAX_DIGITS,
{
    let k = v.scale;
    let p = pow10(k);
    lemma_pow10_add(k, 0);
    let whole = v.mantissa / p;
    let i = nat_digits(whole);
    lemma_nat_digits(whole);
    if len + k > MAX_DIGITS {
        // More than one digit, so the first is not zero and the integer part
        // is at least ten to the power of its length less one.
        assert(len >= 2);
        lemma_leading_digit_bound(i);
        let a = (len - 1) as nat;
        lemma_pow10_add(a, k);
        lemma_pow10_monotonic(MAX_DIGITS as nat, a + k);
        assert(whole * p <= v.mantissa) by (nonlinear_arith)
            requires
                whole == v.mantissa / p,
                p >= 1,
        ;
        assert(pow10(a) * p <= whole * p) by (nonlinear_arith)
            requires
                pow10(a) <= whole,
                p >= 1,
        ;
    }
}

/// A digit string that does not start with a zero spells at least ten to the
/// power of its length less one.
proof fn lemma_leading_digit_bound(s: Seq<char>)
    requires
        s.len() >= 1,
        all_digits(s),
        s[0] != '0',
    ensures
        digits_value(s) >= pow10((s.len() - 1) as nat),
    decreases s.len(),
{
    if s.len() == 1 {
        assert(s.drop_last().len() == 0);
        assert(digits_value(s.drop_last()) == 0);
        assert(is_digit(s[0]));
    } else {
        let p = s.drop_last();
        assert(p[0] == s[0]);
        lemma_leading_digit_bound(p);
    }
}

/// Every character of a decimal text is ASCII.
pub proof fn lemma_decimal_is_ascii(s: Seq<char>)
    requires
        is_decimal(s),
    ensures
        vstd::utf8::is_ascii_chars(s),
{
    lemma_decimal_shape(s);
    let sign = sign_text(has_minus(s));
    let i = integer_part(s);
    let f = fraction_part(s);
    assert forall|j: int| 0 <= j < s.len() implies '\0' <= #[trigger] s[j] <= '\u{7f}' by {
        if j < sign.len() {
            assert(s[j] == '-');
        } else if j < sign.len() + i.len() {
            assert(s[j] == i[j - sign.len()]);
            assert(is_digit(i[j - sign.len()]));
        } else if j == sign.len() + i.len() {
            assert(s[j] == '.');
        } else {
            assert(s[j] == f[j - sign.len() - i.len() - 1]);
            assert(is_digit(f[j - sign.len() - i.len() - 1]));
        }
    }
}

/// Reads the longest run of digits that starts at `from`, if it is no
/// longer than `budget` digits.
///
/// Returns where the run ends and the number it spells; `None` if more than
/// `budget` digits follow one another from `from` on.
fn scan_digits(bytes: &[u8], from: usize, budget: u8, Ghost(s): Ghost<Seq<char>>) -> (r: Option<
    (usize, u64),
>)
    requires
        bytes_spell(bytes@, s),
        from <= s.len(),
        budget <= 19,
    ensures
        match r {
            Some((end, value)) => {
                &&& from <= end <= s.len()
                &&& end - from <= budget
                &&& all_digits(s.subrange(from as int, end as int))
                &&& end < s.len() ==> !is_digit(s[end as int])
                &&& value as nat == digits_value(s.subrange(from as int, end as int))
            },
            None => from + budget < s.len() && all_digits(
                s.subrange(from as int, from + budget + 1),
            ),
        },
{
    let n = bytes.len();
    let mut i: usize = from;
    let mut acc: u64 = 0;
    while i < n
        invariant
            from <= i <= n,
            n == s.len(),
            bytes_spell(bytes@, s),
            budget <= 19,
            i - from <= budget,
            all_digits(s.subrange(from as int, i as int)),
            acc as nat == digits_value(s.subrange(from as int, i as int)),
        decreases n - i,
    {
        let b = bytes[i];
        let ghost c = s[i as int];
        assert(b < 128 && b as char == c);
        if b < DIGIT_ZERO || b > DIGIT_NINE {
            assert(!is_digit(c));
            return Some((i, acc));
        }
        let ghost run = s.subrange(from as int, i as int);
        assert(s.subrange(from as int, i + 1) =~= run.push(c));
        if i - from >= budget as usize {
            return None;
        }
        proof {
            lemma_digits_value_push(run, c);
            lemma_digits_value_bound(run);
            lemma_pow10_monotonic(run.len(), 18);
            lemma_pow10_19();
            assert(pow10(19) == 10 * pow10(18));
        }
        acc = acc * 10 + (b - DIGIT_ZERO) as u64;
        i = i + 1;
    }
    Some((i, acc))
}

impl Decimal {
    #[verifier::type_invariant]
    spec fn in_range(self) -> bool {
        fits(self@)
    }

    /// The number `mantissa` divided by ten to the power `scale`, negated if
    /// `negative`; `None` unless it fits in nineteen digits.
    pub fn new(negative: bool, mantissa: u64, scale: u8) -> (r: Option<Decimal>)
        ensures
            r.is_some() <==> fits(
                DecimalValue { negative, mantissa: mantissa as nat, scale: scale as nat },
            ),
            r matches Some(d) ==> d@ == (DecimalValue {
                negative,
                mantissa: mantissa as nat,
                scale: scale as nat,
            }),
    {
        proof {
            lemma_pow10_19();
        }
        if scale < MAX_DIGITS && mantissa < 10_000_000_000_000_000_000 {
            Some(Decimal { negative, mantissa, scale })
        } else {
            None
        }
    }

    /// Whether the number was written with a minus sign.
    pub fn is_negative(&self) -> (r: bool)
        ensures
            r == self@.negative,
    {
        self.negative
    }

    /// All digits of the number, read as a whole number.
    pub fn mantissa(&self) -> (r: u64)
        ensures
            r as nat == self@.mantissa,
    {
        self.mantissa
    }

    /// The number of digits after the decimal point.
    pub fn scale(&self) -> (r: u8)
        ensures
            r as nat == self@.scale,
            r < MAX_DIGITS,
    {
        proof {
            use_type_invariant(self);
        }
        self.scale
    }
}

/// Decodes a decimal number.
///
/// Succeeds exactly on the texts that `is_decimal` accepts, with the number
/// that `decimal_of` gives; any other text is a `Decimal` format error.
pub fn deserialize(s: &str) -> (r: Result<Decimal, FieldFormat>)
    ensures
        is_decimal(s@) ==> r is Ok && r->Ok_0@ == decimal_of(s@),
        !is_decimal(s@) ==> r == Err::<Decimal, FieldFormat>(FieldFormat::Decimal),
{
    let bytes = match ascii_bytes(s) {
        Some(bytes) => bytes,
        None => {
            proof {
                if is_decimal(s@) {
                    lemma_decimal_is_ascii(s@);
                }
            }
            return Err(FieldFormat::Decimal);
        },
    };
    let n = bytes.len();
    let negative = n > 0 && bytes[0] == MINUS;
    let start: usize = if negative {
        1
    } else {
        0
    };
    let ghost body = unsigned_part(s@);
    let ghost d = first_index_of(body, '.');
    proof {
        assert(n > 0 ==> bytes@[0] as char == s@[0]);
        assert(negative == has_minus(s@));
        assert(body =~= s@.skip(start as int));
        lemma_first_index_of(body, '.');
    }
    let (point, whole) = match scan_digits(bytes, start, MAX_DIGITS, Ghost(s@)) {
        Some(found) => found,
        None => {
            proof {
                let run = s@.subrange(start as int, start + MAX_DIGITS + 1);
                if d <= MAX_DIGITS {
                    assert(body[d] == run[d]);
                    assert(is_digit(run[d]));
                }
            }
            return Err(FieldFormat::Decimal);
        },
    };
    let ghost run = s@.subrange(start as int, point as int);
    proof {
        assert(run =~= body.take(point - start));
        if d < point - start {
            assert(body[d] == run[d]);
            assert(is_digit(run[d]));
        }
    }
    if point == start {
        proof {
            if d > 0 {
                assert(integer_part(s@)[0] == body[0]);
                assert(!is_digit(integer_part(s@)[0]));
            }
        }
        return Err(FieldFormat::Decimal);
    }
    if point == n {
        proof {
            assert(d == body.len());
            assert(integer_part(s@) =~= run);
            assert(fraction_part(s@).len() == 0);
            assert(fraction_part(s@) =~= Seq::<char>::empty());
            assert(pow10(0) == 1);
            assert(digits_value(fraction_part(s@)) == 0);
            assert(is_decimal(s@));
            assert(digits_value(run) * 1 == digits_value(run)) by (nonlinear_arith);
            assert(decimal_of(s@).mantissa == whole);
            lemma_decimal_fits(s@);
        }
        return Ok(Decimal { negative, mantissa: whole, scale: 0 });
    }
    if bytes[point] != POINT {
        proof {
            assert(bytes@[point as int] as char == s@[point as int]);
            assert(body[point - start] == s@[point as int]);
            assert(d > point - start);
            assert(integer_part(s@)[point - start] == body[point - start]);
            assert(!is_digit(integer_part(s@)[point - start]));
        }
        return Err(FieldFormat::Decimal);
    }
    proof {
        assert(bytes@[point as int] as char == s@[point as int]);
        assert(body[point - start] == '.');
        assert(d == point - start);
        assert(integer_part(s@) =~= run);
        assert(has_point(s@));
        assert(fraction_part(s@) =~= s@.subrange(point + 1, n as int));
    }
    let budget: u8 = MAX_DIGITS - (point - start) as u8;
    let (end, fraction) = match scan_digits(bytes, point + 1, budget, Ghost(s@)) {
        Some(found) => found,
        None => {
            return Err(FieldFormat::Decimal);
        },
    };
    if end != n {
        proof {
            assert(fraction_part(s@)[end - point - 1] == s@[end as int]);
        }
        return Err(FieldFormat::Decimal);
    }
    if end == point + 1 {
        return Err(FieldFormat::Decimal);
    }
    let scale: u8 = (end - point - 1) as u8;
    proof {
        assert(is_decimal(s@));
        lemma_decimal_fits(s@);
        lemma_pow10_19();
    }
    let unit = pow10_u64(scale);
    assert(whole * unit + fraction == decimal_of(s@).mantissa);
    Ok(Decimal { negative, mantissa: whole * unit + fraction, scale })
}

/// Encodes a decimal number: the sign, the integer part without leading
/// zeros and, for a scale above zero, the point and the fraction digits.
pub fn serialize(d: &Decimal) -> (r: String)
    ensures
        r@ == decimal_text(d@),
{
    proof {
        use_type_invariant(d);
        reveal_strlit("-");
        reveal_strlit(".");
    }
    let unit = pow10_u64(d.scale);
    proof {
        lemma_pow10_add(d.scale as nat, 0);
    }
    let mut out = String::new();
    if d.negative {
        out.append("-");
    }
    assert(out@ =~= sign_text(d.negative));
    append_number(&mut out, d.mantissa / unit);
    if d.scale > 0 {
        out.append(".");
        append_fixed_digits(&mut out, d.mantissa % unit, d.scale);
    }
    assert(out@ =~= decimal_text(d@));
    out
}

} // verus!
