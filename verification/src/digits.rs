//! Decimal digits: the characters `'0'..='9'`, the numbers they spell, and the
//! text that spells a number.

use vstd::prelude::*;
use vstd::string::*;

verus! {

/// The byte of the character `'0'`.
pub const DIGIT_ZERO: u8 = 48;

/// The byte of the character `'9'`.
pub const DIGIT_NINE: u8 = 57;

/// Whether `c` is one of the ASCII characters `'0'` to `'9'`.
pub open spec fn is_digit(c: char) -> bool {
    '0' <= c && c <= '9'
}

/// The number that the digit `c` stands for.
pub open spec fn digit_value(c: char) -> nat
    recommends
        is_digit(c),
{
    (c as u32 - 48) as nat
}

/// The character that spells the one-digit number `d`.
pub open spec fn digit_char(d: nat) -> char
    recommends
        d < 10,
{
    ((d + 48) as u8) as char
}

/// Whether every character of `s` is a decimal digit.
pub open spec fn all_digits(s: Seq<char>) -> bool {
    forall|i: int| 0 <= i < s.len() ==> is_digit(#[trigger] s[i])
}

/// The number spelled by the digits of `s`, most significant first.
/// The empty sequence spells zero.
pub open spec fn digits_value(s: Seq<char>) -> nat
    decreases s.len(),
{
    if s.len() == 0 {
        0
    } else {
        10 * digits_value(s.drop_last()) + digit_value(s.last())
    }
}

/// The shortest decimal spelling of `n`: no leading zero, except for zero itself.
pub open spec fn nat_digits(n: nat) -> Seq<char>
    decreases n,
{
    if n < 10 {
        seq![digit_char(n)]
    } else {
        nat_digits(n / 10).push(digit_char(n % 10))
    }
}

/// The spelling of `n` in exactly two digits, for `n < 100`.
pub open spec fn two_digits(n: nat) -> Seq<char>
    recommends
        n < 100,
{
    seq![digit_char(n / 10), digit_char(n % 10)]
}

/// Whether a digit string is the shortest spelling of its number.
pub open spec fn is_shortest(s: Seq<char>) -> bool {
    s.len() == 1 || (s.len() > 1 && s[0] != '0')
}

/// A digit and the character that spells it determine each other.
pub proof fn lemma_digit_char_value(d: nat)
    requires
        d < 10,
    ensures
        is_digit(digit_char(d)),
        digit_value(digit_char(d)) == d,
{
}

/// Spelling the value of a digit gives the digit back.
pub proof fn lemma_digit_value_char(c: char)
    requires
        is_digit(c),
    ensures
        digit_value(c) < 10,
        digit_char(digit_value(c)) == c,
{
}

/// A prefix of a digit string never spells more than the whole string.
pub proof fn lemma_digits_value_prefix(s: Seq<char>, k: int)
    requires
        0 <= k <= s.len(),
    ensures
        digits_value(s.take(k)) <= digits_value(s),
    decreases s.len(),
{
    if k == s.len() {
        assert(s.take(k) =~= s);
    } else {
        lemma_digits_value_prefix(s.drop_last(), k);
        assert(s.drop_last().take(k) =~= s.take(k));
    }
}

/// Appending one digit multiplies the value by ten and adds the digit.
pub proof fn lemma_digits_value_push(s: Seq<char>, c: char)
    ensures
        digits_value(s.push(c)) == 10 * digits_value(s) + digit_value(c),
{
    assert(s.push(c).drop_last() =~= s);
}

/// The value of a two-character string.
pub proof fn lemma_digits_value_two(s: Seq<char>)
    requires
        s.len() == 2,
    ensures
        digits_value(s) == 10 * digit_value(s[0]) + digit_value(s[1]),
{
    let p = s.drop_last();
    assert(p.len() == 1);
    assert(p.drop_last().len() == 0);
    assert(digits_value(p.drop_last()) == 0);
    assert(digits_value(p) == digit_value(p.last()));
}

/// The shortest spelling of `n` consists of digits, has no leading zero and
/// spells `n`.
pub proof fn lemma_nat_digits(n: nat)
    ensures
        nat_digits(n).len() >= 1,
        all_digits(nat_digits(n)),
        is_shortest(nat_digits(n)),
        digits_value(nat_digits(n)) == n,
        n >= 10 ==> nat_digits(n)[0] != '0',
    decreases n,
{
    if n < 10 {
        lemma_digit_char_value(n);
        let s = nat_digits(n);
        assert(s.drop_last().len() == 0);
        assert(digits_value(s.drop_last()) == 0);
    } else {
        lemma_nat_digits(n / 10);
        lemma_digit_char_value(n % 10);
        let p = nat_digits(n / 10);
        lemma_digits_value_push(p, digit_char(n % 10));
        if n / 10 < 10 {
            assert(p[0] == digit_char(n / 10));
        }
    }
}

/// A digit string that does not start with `'0'` spells a positive number.
pub proof fn lemma_leading_nonzero_positive(s: Seq<char>)
    requires
        s.len() >= 1,
        all_digits(s),
        s[0] != '0',
    ensures
        digits_value(s) >= 1,
    decreases s.len(),
{
    if s.len() == 1 {
        assert(s.drop_last().len() == 0);
        assert(digits_value(s.drop_last()) == 0);
        assert(is_digit(s[0]));
    } else {
        lemma_leading_nonzero_positive(s.drop_last());
    }
}

/// The shortest spelling of a number is unique: a digit string without a
/// leading zero is the spelling of its own value.
pub proof fn lemma_shortest_is_nat_digits(s: Seq<char>)
    requires
        all_digits(s),
        is_shortest(s),
    ensures
        nat_digits(digits_value(s)) == s,
    decreases s.len(),
{
    let c = s.last();
    assert(is_digit(c));
    lemma_digit_value_char(c);
    if s.len() == 1 {
        assert(s.drop_last().len() == 0);
        assert(digits_value(s.drop_last()) == 0);
        assert(nat_digits(digits_value(s)) =~= s);
    } else {
        let p = s.drop_last();
        assert(p[0] == s[0]);
        lemma_leading_nonzero_positive(p);
        lemma_shortest_is_nat_digits(p);
        let v = digits_value(s);
        assert(v == 10 * digits_value(p) + digit_value(c));
        assert(v / 10 == digits_value(p));
        assert(v % 10 == digit_value(c));
        assert(nat_digits(v) == nat_digits(v / 10).push(digit_char(v % 10)));
        assert(p.push(c) =~= s);
    }
}

/// Two digits spell a number below one hundred, and spelling it again in two
/// digits gives the same characters.
pub proof fn lemma_two_digits(s: Seq<char>)
    requires
        s.len() == 2,
        all_digits(s),
    ensures
        digits_value(s) < 100,
        two_digits(digits_value(s)) == s,
{
    lemma_digits_value_two(s);
    assert(is_digit(s[0]) && is_digit(s[1]));
    lemma_digit_value_char(s[0]);
    lemma_digit_value_char(s[1]);
    assert(two_digits(digits_value(s)) =~= s);
}

/// The two-digit spelling of `n` consists of digits and spells `n`.
pub proof fn lemma_two_digits_value(n: nat)
    requires
        n < 100,
    ensures
        two_digits(n).len() == 2,
        all_digits(two_digits(n)),
        digits_value(two_digits(n)) == n,
{
    lemma_digit_char_value(n / 10);
    lemma_digit_char_value(n % 10);
    lemma_digits_value_two(two_digits(n));
}

/// Ten to the power `n`.
pub open spec fn pow10(n: nat) -> nat
    decreases n,
{
    if n == 0 {
        1
    } else {
        10 * pow10((n - 1) as nat)
    }
}

/// The spelling of `n` in exactly `width` digits, padded with zeros on the
/// left, for `n` below ten to the power `width`.
pub open spec fn fixed_digits(n: nat, width: nat) -> Seq<char>
    recommends
        n < pow10(width),
    decreases width,
{
    if width == 0 {
        Seq::empty()
    } else {
        fixed_digits(n / 10, (width - 1) as nat).push(digit_char(n % 10))
    }
}

/// Powers of ten multiply by adding their exponents, and none is zero.
pub proof fn lemma_pow10_add(a: nat, b: nat)
    ensures
        pow10(a + b) == pow10(a) * pow10(b),
        pow10(a) >= 1,
    decreases a,
{
    if a == 0 {
        assert(pow10(0) == 1);
        assert(pow10(b) == 1 * pow10(b));
    } else {
        lemma_pow10_add((a - 1) as nat, b);
        assert(pow10(a + b) == 10 * pow10((a - 1 + b) as nat));
        assert(10 * (pow10((a - 1) as nat) * pow10(b)) == (10 * pow10((a - 1) as nat)) * pow10(b))
            by (nonlinear_arith);
    }
}

/// Powers of ten grow with their exponent.
pub proof fn lemma_pow10_monotonic(a: nat, b: nat)
    requires
        a <= b,
    ensures
        pow10(a) <= pow10(b),
    decreases b,
{
    if a < b {
        lemma_pow10_monotonic(a, (b - 1) as nat);
    }
}

/// Ten to the power nineteen, the largest power of ten that a `u64` holds.
pub proof fn lemma_pow10_19()
    ensures
        pow10(19) == 10_000_000_000_000_000_000,
        pow10(19) <= u64::MAX,
{
    reveal_with_fuel(pow10, 20);
}

/// A string of `n` digits spells a number below ten to the power `n`.
pub proof fn lemma_digits_value_bound(s: Seq<char>)
    requires
        all_digits(s),
    ensures
        digits_value(s) < pow10(s.len()),
    decreases s.len(),
{
    if s.len() > 0 {
        lemma_digits_value_bound(s.drop_last());
        assert(is_digit(s.last()));
    }
}

/// The fixed-width spelling of `n` has the asked width, consists of digits
/// and spells `n`.
pub proof fn lemma_fixed_digits(n: nat, width: nat)
    requires
        n < pow10(width),
    ensures
        fixed_digits(n, width).len() == width,
        all_digits(fixed_digits(n, width)),
        digits_value(fixed_digits(n, width)) == n,
    decreases width,
{
    if width > 0 {
        lemma_fixed_digits(n / 10, (width - 1) as nat);
        lemma_digit_char_value(n % 10);
        lemma_digits_value_push(fixed_digits(n / 10, (width - 1) as nat), digit_char(n % 10));
    }
}

/// A digit string is the fixed-width spelling of its own value.
pub proof fn lemma_fixed_digits_of_value(s: Seq<char>)
    requires
        all_digits(s),
    ensures
        fixed_digits(digits_value(s), s.len()) == s,
    decreases s.len(),
{
    if s.len() == 0 {
        assert(fixed_digits(digits_value(s), s.len()) =~= s);
    } else {
        let p = s.drop_last();
        let c = s.last();
        assert(is_digit(c));
        lemma_digit_value_char(c);
        lemma_fixed_digits_of_value(p);
        let v = digits_value(s);
        assert(v / 10 == digits_value(p));
        assert(v % 10 == digit_value(c));
        assert(p.push(c) =~= s);
    }
}

/// Whether `s` spells a number of at most `max`: one or more decimal digits,
/// nothing else. Leading zeros are accepted; a sign is not.
pub open spec fn spells_number(s: Seq<char>, max: nat) -> bool {
    s.len() > 0 && all_digits(s) && digits_value(s) <= max
}

/// Digits are ASCII characters.
pub proof fn lemma_digits_are_ascii(s: Seq<char>)
    requires
        all_digits(s),
    ensures
        vstd::utf8::is_ascii_chars(s),
{
    assert forall|i: int| 0 <= i < s.len() implies '\0' <= #[trigger] s[i] <= '\u{7f}' by {
        assert(is_digit(s[i]));
    }
}

/// Whether `bytes` holds the characters of `s`, one byte for each.
pub open spec fn bytes_spell(bytes: Seq<u8>, s: Seq<char>) -> bool {
    &&& bytes.len() == s.len()
    &&& forall|i: int|
        0 <= i < s.len() ==> (#[trigger] bytes[i]) < 128 && bytes[i] as char == s[i]
}

/// The bytes of a text that is ASCII throughout, one for each character;
/// `None` if the text holds any other character.
pub fn ascii_bytes(s: &str) -> (r: Option<&[u8]>)
    ensures
        r.is_some() <==> vstd::utf8::is_ascii_chars(s@),
        r matches Some(bytes) ==> bytes_spell(bytes@, s@),
{
    if !s.is_ascii() {
        return None;
    }
    let bytes = s.as_bytes();
    proof {
        is_ascii_spec_bytes(s);
        assert forall|i: int| 0 <= i < s@.len() implies (#[trigger] bytes@[i]) < 128
            && bytes@[i] as char == s@[i] by {
            assert('\0' <= s@[i] <= '\u{7f}');
        }
    }
    Some(bytes)
}

/// Reads a text made of decimal digits as a number of at most `max`.
///
/// Returns the number if and only if the text is one or more ASCII digits
/// whose value does not exceed `max`.
pub fn parse_number(s: &str, max: u64) -> (r: Option<u64>)
    ensures
        r.is_some() <==> spells_number(s@, max as nat),
        r matches Some(v) ==> v as nat == digits_value(s@),
{
    let bytes = match ascii_bytes(s) {
        Some(bytes) => bytes,
        None => {
            proof {
                if all_digits(s@) {
                    lemma_digits_are_ascii(s@);
                }
            }
            return None;
        },
    };
    let n = bytes.len();
    if n == 0 {
        return None;
    }
    let mut acc: u64 = 0;
    let mut i: usize = 0;
    while i < n
        invariant
            i <= n,
            n == s@.len(),
            bytes_spell(bytes@, s@),
            all_digits(s@.take(i as int)),
            acc as nat == digits_value(s@.take(i as int)),
            acc <= max,
        decreases n - i,
    {
        let b = bytes[i];
        let ghost c = s@[i as int];
        assert(b < 128 && b as char == c);
        if b < DIGIT_ZERO || b > DIGIT_NINE {
            assert(!is_digit(c));
            return None;
        }
        let d: u64 = (b - DIGIT_ZERO) as u64;
        proof {
            assert(is_digit(c));
            assert(d as nat == digit_value(c));
            assert(s@.take(i + 1) =~= s@.take(i as int).push(c));
            lemma_digits_value_push(s@.take(i as int), c);
            lemma_digits_value_prefix(s@, i + 1);
        }
        if d > max || acc > (max - d) / 10 {
            return None;
        }
        acc = acc * 10 + d;
        i = i + 1;
    }
    assert(s@.take(n as int) =~= s@);
    Some(acc)
}

/// The one-character text of a digit.
pub fn digit_text(d: u8) -> (t: &'static str)
    requires
        d < 10,
    ensures
        t@ == seq![digit_char(d as nat)],
{
    proof {
        reveal_strlit("0");
        reveal_strlit("1");
        reveal_strlit("2");
        reveal_strlit("3");
        reveal_strlit("4");
        reveal_strlit("5");
        reveal_strlit("6");
        reveal_strlit("7");
        reveal_strlit("8");
        reveal_strlit("9");
    }
    let t = match d {
        0 => "0",
        1 => "1",
        2 => "2",
        3 => "3",
        4 => "4",
        5 => "5",
        6 => "6",
        7 => "7",
        8 => "8",
        _ => "9",
    };
    assert(t@ =~= seq![digit_char(d as nat)]);
    t
}

/// Appends the shortest decimal spelling of `n` to `out`.
pub fn append_number(out: &mut String, n: u64)
    ensures
        final(out)@ == old(out)@ + nat_digits(n as nat),
    decreases n,
{
    if n >= 10 {
        append_number(out, n / 10);
    }
    out.append(digit_text((n % 10) as u8));
    assert(out@ =~= old(out)@ + nat_digits(n as nat));
}

/// Appends the two-digit spelling of `n` to `out`.
pub fn append_two_digits(out: &mut String, n: u8)
    requires
        n < 100,
    ensures
        final(out)@ == old(out)@ + two_digits(n as nat),
{
    out.append(digit_text(n / 10));
    out.append(digit_text(n % 10));
    assert(out@ =~= old(out)@ + two_digits(n as nat));
}

/// Appends the spelling of `n` in exactly `width` digits to `out`.
pub fn append_fixed_digits(out: &mut String, n: u64, width: u8)
    ensures
        final(out)@ == old(out)@ + fixed_digits(n as nat, width as nat),
    decreases width,
{
    if width > 0 {
        append_fixed_digits(out, n / 10, width - 1);
        out.append(digit_text((n % 10) as u8));
    }
    assert(out@ =~= old(out)@ + fixed_digits(n as nat, width as nat));
}

/// Ten to the power `n`, for a power that a `u64` holds.
pub fn pow10_u64(n: u8) -> (r: u64)
    requires
        n <= 19,
    ensures
        r as nat == pow10(n as nat),
{
    let mut r: u64 = 1;
    let mut i: u8 = 0;
    while i < n
        invariant
            i <= n <= 19,
            r as nat == pow10(i as nat),
        decreases n - i,
    {
        proof {
            lemma_pow10_monotonic((i + 1) as nat, 19);
            lemma_pow10_19();
        }
        r = r * 10;
        i = i + 1;
    }
    r
}

} // verus!
