//! Integers as text: reading them in a radix, and writing them.

use vstd::prelude::*;
use vstd::string::StrSliceExecFns;
use vstd::string::StringExecFns;

verus! {

/// Why a text is no integer.
#[derive(Debug, Clone, Copy, PartialEq, Eq, Structural)]
pub enum ParseIntError {
    /// The text is empty.
    Empty,
    /// The text holds a character that is no digit, or is a sign alone.
    InvalidDigit,
    /// The number is above the largest of its type.
    PosOverflow,
    /// The number is below the smallest of its type.
    NegOverflow,
}

impl ParseIntError {
    /// The reason, for a person to read.
    pub fn message(&self) -> (text: String)
        ensures
            text@ == match *self {
                ParseIntError::Empty => "cannot parse integer from empty string"@,
                ParseIntError::InvalidDigit => "invalid digit found in string"@,
                ParseIntError::PosOverflow => "number too large to fit in target type"@,
                ParseIntError::NegOverflow => "number too small to fit in target type"@,
            },
    {
        match self {
            ParseIntError::Empty => "cannot parse integer from empty string".to_owned(),
            ParseIntError::InvalidDigit => "invalid digit found in string".to_owned(),
            ParseIntError::PosOverflow => "number too large to fit in target type".to_owned(),
            ParseIntError::NegOverflow => "number too small to fit in target type".to_owned(),
        }
    }
}

/// The value of a character as a digit: `0` to `9`, then the letters, in
/// either case, from ten on.
pub open spec fn digit_of(c: char) -> Option<int> {
    let code = c as u32;
    if 48 <= code <= 57 {
        Some(code - 48)
    } else if 97 <= code <= 122 {
        Some(code - 97 + 10)
    } else if 65 <= code <= 90 {
        Some(code - 65 + 10)
    } else {
        None
    }
}

/// The value of a character as a digit in `radix`.
pub open spec fn digit_in(c: char, radix: int) -> Option<int> {
    match digit_of(c) {
        Some(d) => if d < radix {
            Some(d)
        } else {
            None
        },
        None => None,
    }
}

/// The number that a run of digits denotes in `radix`, counted downwards
/// where `negative`; the first digit that takes it out of `min ..= max`, or
/// is no digit, decides the error.
pub open spec fn accumulated(
    digits: Seq<char>,
    radix: int,
    negative: bool,
    min: int,
    max: int,
) -> Result<int, ParseIntError>
    decreases digits.len(),
{
    if digits.len() == 0 {
        Ok(0)
    } else {
        match accumulated(digits.drop_last(), radix, negative, min, max) {
            Err(e) => Err(e),
            Ok(value) => match digit_in(digits.last(), radix) {
                None => Err(ParseIntError::InvalidDigit),
                Some(d) => if negative {
                    if value * radix - d < min {
                        Err(ParseIntError::NegOverflow)
                    } else {
                        Ok(value * radix - d)
                    }
                } else {
                    if value * radix + d > max {
                        Err(ParseIntError::PosOverflow)
                    } else {
                        Ok(value * radix + d)
                    }
                },
            },
        }
    }
}

/// The integer that a text denotes in `radix`: digits, after `+` or, where
/// `min` is negative, after `-`.
pub open spec fn parsed(text: Seq<char>, radix: int, min: int, max: int) -> Result<
    int,
    ParseIntError,
> {
    if text.len() == 0 {
        Err(ParseIntError::Empty)
    } else if text.len() == 1 && (text[0] == '+' || text[0] == '-') {
        Err(ParseIntError::InvalidDigit)
    } else if text[0] == '+' {
        accumulated(text.skip(1), radix, false, min, max)
    } else if text[0] == '-' && min < 0 {
        accumulated(text.skip(1), radix, true, min, max)
    } else {
        accumulated(text, radix, false, min, max)
    }
}

/// Once a run of digits has failed, more digits do not mend it.
pub proof fn lemma_error_sticks(
    digits: Seq<char>,
    k: int,
    radix: int,
    negative: bool,
    min: int,
    max: int,
)
    requires
        0 <= k <= digits.len(),
        accumulated(digits.take(k), radix, negative, min, max) is Err,
    ensures
        accumulated(digits, radix, negative, min, max) == accumulated(
            digits.take(k),
            radix,
            negative,
            min,
            max,
        ),
    decreases digits.len(),
{
    if k == digits.len() {
        assert(digits.take(k) =~= digits);
    } else {
        assert(digits.drop_last().take(k) =~= digits.take(k));
        lemma_error_sticks(digits.drop_last(), k, radix, negative, min, max);
    }
}

/// The value of a character as a digit in `radix`.
pub fn digit_value(c: char, radix: u32) -> (digit: Option<u32>)
    ensures
        match digit {
            Some(d) => digit_in(c, radix as int) == Some(d as int),
            None => digit_in(c, radix as int) is None,
        },
{
    let code: u32 = c as u32;
    let d: u32 = if 48 <= code && code <= 57 {
        code - 48
    } else if 97 <= code && code <= 122 {
        code - 97 + 10
    } else if 65 <= code && code <= 90 {
        code - 65 + 10
    } else {
        return None;
    };
    if d < radix {
        Some(d)
    } else {
        None
    }
}

/// Reads an integer of `min ..= max` in `radix`.
pub fn parse_integer(text: &str, radix: u32, min: i64, max: i64) -> (r: Result<i64, ParseIntError>)
    requires
        2 <= radix <= 36,
        -0x1_0000_0000 <= min <= 0 <= max <= 0x1_0000_0000,
    ensures
        match r {
            Ok(value) => parsed(text@, radix as int, min as int, max as int) == Ok::<
                int,
                ParseIntError,
            >(value as int) && min <= value <= max,
            Err(e) => parsed(text@, radix as int, min as int, max as int) == Err::<
                int,
                ParseIntError,
            >(e),
        },
{
    let n: usize = text.unicode_len();
    if n == 0 {
        return Err(ParseIntError::Empty);
    }
    let first = text.get_char(0);
    if n == 1 && (first == '+' || first == '-') {
        return Err(ParseIntError::InvalidDigit);
    }
    let negative = first == '-' && min < 0;
    let start: usize = if first == '+' || negative {
        1
    } else {
        0
    };
    let ghost digits = text@.skip(start as int);
    assert(text@.skip(0) =~= text@);
    assert(digits.take(0) =~= Seq::empty());
    let mut value: i64 = 0;
    let mut i: usize = start;
    while i < n
        invariant
            start <= i <= n,
            parsed(text@, radix as int, min as int, max as int) == accumulated(
                digits,
                radix as int,
                negative,
                min as int,
                max as int,
            ),
            n == text@.len(),
            2 <= radix <= 36,
            -0x1_0000_0000 <= min <= 0 <= max <= 0x1_0000_0000,
            digits == text@.skip(start as int),
            min <= value <= max,
            accumulated(
                digits.take(i - start),
                radix as int,
                negative,
                min as int,
                max as int,
            ) == Ok::<int, ParseIntError>(value as int),
            negative ==> value <= 0,
            !negative ==> value >= 0,
        decreases n - i,
    {
        let c = text.get_char(i);
        proof {
            let next = digits.take(i - start + 1);
            assert(next.drop_last() =~= digits.take(i - start));
            assert(next.last() == text@[i as int]);
            assert(value * radix <= 0x1_0000_0000 * 36 && value * radix >= -0x1_0000_0000 * 36
                && (value <= 0 ==> value * radix <= 0) && (value >= 0 ==> value * radix >= 0))
                by (nonlinear_arith)
                requires
                    -0x1_0000_0000 <= value <= 0x1_0000_0000,
                    2 <= radix <= 36,
            ;
            if accumulated(next, radix as int, negative, min as int, max as int) is Err {
                lemma_error_sticks(
                    digits,
                    i - start + 1,
                    radix as int,
                    negative,
                    min as int,
                    max as int,
                );
            }
        }
        let d: i64 = match digit_value(c, radix) {
            Some(d) => d as i64,
            None => {
                return Err(ParseIntError::InvalidDigit);
            },
        };
        let scaled: i64 = value * (radix as i64);
        if negative {
            if scaled - d < min {
                return Err(ParseIntError::NegOverflow);
            }
            value = scaled - d;
        } else {
            if scaled + d > max {
                return Err(ParseIntError::PosOverflow);
            }
            value = scaled + d;
        }
        i += 1;
    }
    assert(digits.take(n - start) =~= digits);
    Ok(value)
}

/// The character of a digit below sixteen, letters in lower case.
pub open spec fn digit_char(d: int) -> char {
    if d == 0 {
        '0'
    } else if d == 1 {
        '1'
    } else if d == 2 {
        '2'
    } else if d == 3 {
        '3'
    } else if d == 4 {
        '4'
    } else if d == 5 {
        '5'
    } else if d == 6 {
        '6'
    } else if d == 7 {
        '7'
    } else if d == 8 {
        '8'
    } else if d == 9 {
        '9'
    } else if d == 10 {
        'a'
    } else if d == 11 {
        'b'
    } else if d == 12 {
        'c'
    } else if d == 13 {
        'd'
    } else if d == 14 {
        'e'
    } else {
        'f'
    }
}

/// The digits of a number in `radix`, the most significant first, none of
/// them a leading zero but for zero itself.
pub open spec fn digits_of(n: nat, radix: nat) -> Seq<char>
    decreases n,
    via digits_of_decreases
{
    if n < radix || radix < 2 {
        seq![digit_char(n as int)]
    } else {
        digits_of(n / radix, radix).push(digit_char((n % radix) as int))
    }
}

#[via_fn]
proof fn digits_of_decreases(n: nat, radix: nat) {
    if !(n < radix || radix < 2) {
        lemma_quotient_smaller(n, radix);
    }
}

/// Dividing by two or more makes a number that is not zero smaller.
pub proof fn lemma_quotient_smaller(n: nat, radix: nat)
    requires
        2 <= radix <= n,
    ensures
        n / radix < n,
{
    assert(n / radix < n) by (nonlinear_arith)
        requires
            2 <= radix <= n,
    ;
}

/// An integer in decimal notation, with `-` before a negative one.
pub open spec fn decimal(value: int) -> Seq<char> {
    if value < 0 {
        seq!['-'] + digits_of((-value) as nat, 10)
    } else {
        digits_of(value as nat, 10)
    }
}

/// A text with zeros put before it up to `width` characters.
pub open spec fn zero_padded(text: Seq<char>, width: nat) -> Seq<char> {
    if text.len() < width {
        Seq::new((width - text.len()) as nat, |i: int| '0') + text
    } else {
        text
    }
}

/// The bits of a 32-bit integer read as a number that is not negative.
pub open spec fn unsigned_bits(value: int) -> nat {
    if value < 0 {
        (value + 0x1_0000_0000) as nat
    } else {
        value as nat
    }
}

/// A 32-bit integer in hexadecimal notation, its bits read as a number that
/// is not negative, with zeros in front up to sixteen characters.
pub open spec fn long_hex(value: int) -> Seq<char> {
    zero_padded(digits_of(unsigned_bits(value), 16), 16)
}

/// The text of a digit below sixteen.
pub fn digit_text(d: u32) -> (text: &'static str)
    requires
        d < 16,
    ensures
        text@ == seq![digit_char(d as int)],
{
    proof {
        reveal_strlit("0");
        reveal_strlit("1");
        reveal_strlit("2");
        reveal_strlit("3");
        reveal_strlit("4");
        reveal_strlit("5");
        reveal_strlit("6");
        reveal_strlit("7");
        reveal_strlit("8");
        reveal_strlit("9");
        reveal_strlit("a");
        reveal_strlit("b");
        reveal_strlit("c");
        reveal_strlit("d");
        reveal_strlit("e");
        reveal_strlit("f");
    }
    let text = if d == 0 {
        "0"
    } else if d == 1 {
        "1"
    } else if d == 2 {
        "2"
    } else if d == 3 {
        "3"
    } else if d == 4 {
        "4"
    } else if d == 5 {
        "5"
    } else if d == 6 {
        "6"
    } else if d == 7 {
        "7"
    } else if d == 8 {
        "8"
    } else if d == 9 {
        "9"
    } else if d == 10 {
        "a"
    } else if d == 11 {
        "b"
    } else if d == 12 {
        "c"
    } else if d == 13 {
        "d"
    } else if d == 14 {
        "e"
    } else {
        "f"
    };
    assert(text@ =~= seq![digit_char(d as int)]);
    text
}

/// Appends the digits of `n` in `radix` to `out`.
pub fn append_digits(n: u64, radix: u64, out: &mut String)
    requires
        2 <= radix <= 16,
    ensures
        final(out)@ == old(out)@ + digits_of(n as nat, radix as nat),
    decreases n,
{
    if n < radix {
        out.append(digit_text(n as u32));
    } else {
        proof {
            lemma_quotient_smaller(n as nat, radix as nat);
        }
        append_digits(n / radix, radix, out);
        out.append(digit_text((n % radix) as u32));
        assert(out@ =~= old(out)@ + digits_of(n as nat, radix as nat));
    }
}

/// Writes an integer in decimal notation.
pub fn decimal_text(value: i32) -> (text: String)
    ensures
        text@ == decimal(value as int),
{
    let mut text = String::new();
    if value < 0 {
        proof {
            reveal_strlit("-");
        }
        text.append("-");
        let magnitude: u64 = (-(value as i64)) as u64;
        append_digits(magnitude, 10, &mut text);
        assert(text@ =~= decimal(value as int));
    } else {
        append_digits(value as u64, 10, &mut text);
        assert(text@ =~= decimal(value as int));
    }
    text
}

/// Writes a 64-bit integer in decimal notation.
pub fn decimal_text_wide(value: i64) -> (text: String)
    ensures
        text@ == decimal(value as int),
{
    let mut text = String::new();
    if value < 0 {
        proof {
            reveal_strlit("-");
        }
        text.append("-");
        let magnitude: u64 = if value == i64::MIN {
            0x8000_0000_0000_0000
        } else {
            (-value) as u64
        };
        append_digits(magnitude, 10, &mut text);
        assert(text@ =~= decimal(value as int));
    } else {
        append_digits(value as u64, 10, &mut text);
        assert(text@ =~= decimal(value as int));
    }
    text
}

/// The number of digits of `n` in `radix`.
pub fn count_digits(n: u64, radix: u64) -> (count: usize)
    requires
        2 <= radix <= 16,
    ensures
        count == digits_of(n as nat, radix as nat).len(),
        1 <= count <= 64,
    decreases n,
{
    if n < radix {
        1
    } else {
        proof {
            lemma_quotient_smaller(n as nat, radix as nat);
        }
        let rest = count_digits(n / radix, radix);
        proof {
            lemma_digits_fit(n as nat, radix as nat);
        }
        rest + 1
    }
}

/// A number below two to the power of sixty-four has sixty-four digits at
/// most.
pub proof fn lemma_digits_fit(n: nat, radix: nat)
    requires
        2 <= radix,
        n < 0x1_0000_0000_0000_0000,
    ensures
        digits_of(n, radix).len() <= 64,
{
    vstd::arithmetic::power2::lemma2_to64();
    lemma_digits_bound(n, radix, 64);
}

/// A number below two to the power of `bits` has `bits` digits at most, or
/// one.
pub proof fn lemma_digits_bound(n: nat, radix: nat, bits: nat)
    requires
        2 <= radix,
        1 <= bits,
        n < vstd::arithmetic::power2::pow2(bits),
    ensures
        digits_of(n, radix).len() <= bits,
    decreases n,
{
    vstd::arithmetic::power2::lemma2_to64();
    if n >= radix {
        if bits == 1 {
            assert(vstd::arithmetic::power2::pow2(1) == 2);
        } else {
            vstd::arithmetic::power2::lemma_pow2_unfold(bits);
            assert(n / radix <= n / 2) by (nonlinear_arith)
                requires
                    2 <= radix,
            ;
            assert(n / 2 < vstd::arithmetic::power2::pow2((bits - 1) as nat));
            lemma_quotient_smaller(n, radix);
            lemma_digits_bound(n / radix, radix, (bits - 1) as nat);
        }
    }
}

/// Writes a 32-bit integer in hexadecimal notation, sixteen characters
/// wide.
pub fn long_hex_text(value: i32) -> (text: String)
    ensures
        text@ == long_hex(value as int),
{
    let bits: u64 = if value < 0 {
        ((value as i64) + 0x1_0000_0000) as u64
    } else {
        value as u64
    };
    let count = count_digits(bits, 16);
    let mut text = String::new();
    let mut i: usize = count;
    proof {
        reveal_strlit("0");
    }
    while i < 16
        invariant
            count <= i,
            i >= 16 ==> i == count || i == 16,
            text@ == Seq::new((i - count) as nat, |k: int| '0'),
            "0"@ == seq!['0'],
        decreases 16 - i,
    {
        text.append("0");
        i += 1;
        assert(text@ =~= Seq::new((i - count) as nat, |k: int| '0'));
    }
    append_digits(bits, 16, &mut text);
    proof {
        let digits = digits_of(unsigned_bits(value as int), 16);
        if count < 16 {
            assert(text@ =~= Seq::new((16 - count) as nat, |k: int| '0') + digits);
        } else {
            assert(text@ =~= digits);
        }
    }
    text
}

/// A digit below ten is read back from its character.
pub proof fn lemma_digit_round_trip(d: int)
    requires
        0 <= d < 10,
    ensures
        digit_in(digit_char(d), 10) == Some(d),
        digit_char(d) != '+',
        digit_char(d) != '-',
{
}

/// The digits of a number are read back as the number, counted upwards or
/// downwards, as long as the bounds allow.
pub proof fn lemma_digits_round_trip(n: nat, negative: bool, min: int, max: int)
    requires
        min <= 0 <= max,
        negative ==> min <= -n,
        !negative ==> n <= max,
    ensures
        accumulated(digits_of(n, 10), 10, negative, min, max) == Ok::<int, ParseIntError>(
            if negative {
                -(n as int)
            } else {
                n as int
            },
        ),
        digits_of(n, 10).len() >= 1,
        digits_of(n, 10)[0] != '+',
        digits_of(n, 10)[0] != '-',
    decreases n,
{
    let text = digits_of(n, 10);
    if n < 10 {
        lemma_digit_round_trip(n as int);
        assert(text.drop_last() =~= Seq::<char>::empty());
        assert(text.last() == digit_char(n as int));
        assert(accumulated(text.drop_last(), 10, negative, min, max) == Ok::<int, ParseIntError>(0));
    } else {
        lemma_quotient_smaller(n, 10);
        lemma_digits_round_trip(n / 10, negative, min, max);
        lemma_digit_round_trip((n % 10) as int);
        assert(text.drop_last() =~= digits_of(n / 10, 10));
        assert(text.last() == digit_char((n % 10) as int));
        assert(text[0] == digits_of(n / 10, 10)[0]);
    }
}

/// An integer that is written in decimal notation is read back as itself.
pub proof fn lemma_decimal_round_trip(value: int, min: int, max: int)
    requires
        min <= 0 <= max,
        min <= value <= max,
    ensures
        parsed(decimal(value), 10, min, max) == Ok::<int, ParseIntError>(value),
{
    if value < 0 {
        let digits = digits_of((-value) as nat, 10);
        lemma_digits_round_trip((-value) as nat, true, min, max);
        let text = decimal(value);
        assert(text[0] == '-');
        assert(text.skip(1) =~= digits);
    } else {
        lemma_digits_round_trip(value as nat, false, min, max);
    }
}

} // verus!
