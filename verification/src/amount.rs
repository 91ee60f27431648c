//! Amounts of money as fixed-point numbers, and the decimal text they are read
//! from.
//!
//! An amount counts millionths of a currency unit in an `i64`. Its text is an
//! optional sign, digits, and optionally a point followed by at most six
//! digits; at least one digit must be present on one side of the point.

use vstd::prelude::*;
use vstd::string::*;

verus! {

/// How many digits may follow the decimal point.
pub const FRACTION_DIGITS: usize = 6;

const MINUS: u8 = 45;

const PLUS: u8 = 43;

const POINT: u8 = 46;

const ZERO: u8 = 48;

const NINE: u8 = 57;

/// The largest number to which a decimal digit can be appended within a `u64`.
const ROOM_FOR_A_DIGIT: u64 = 1_844_674_407_370_955_160;

pub open spec fn is_digit(c: char) -> bool {
    '0' <= c <= '9'
}

pub open spec fn digit_value(c: char) -> nat {
    (c as int - '0' as int) as nat
}

pub open spec fn all_digits(s: Seq<char>) -> bool {
    forall|i: int| 0 <= i < s.len() ==> is_digit(#[trigger] s[i])
}

/// The number that a run of decimal digits writes.
pub open spec fn digits_value(s: Seq<char>) -> nat
    decreases s.len(),
{
    if s.len() == 0 {
        0
    } else {
        digits_value(s.drop_last()) * 10 + digit_value(s.last())
    }
}

pub open spec fn pow10(n: nat) -> nat
    decreases n,
{
    if n == 0 {
        1
    } else {
        10 * pow10((n - 1) as nat)
    }
}

pub open spec fn has_sign(s: Seq<char>) -> bool {
    s.len() > 0 && (s[0] == '-' || s[0] == '+')
}

/// The text without its sign.
pub open spec fn unsigned_text(s: Seq<char>) -> Seq<char> {
    if has_sign(s) {
        s.skip(1)
    } else {
        s
    }
}

/// What stands before the first point of an unsigned text.
pub open spec fn whole_digits(body: Seq<char>) -> Seq<char> {
    match body.index_of_first('.') {
        Some(point) => body.take(point),
        None => body,
    }
}

/// What stands after the first point of an unsigned text.
pub open spec fn fraction_digits(body: Seq<char>) -> Seq<char> {
    match body.index_of_first('.') {
        Some(point) => body.skip(point + 1),
        None => Seq::empty(),
    }
}

/// Whether `s` is written as a decimal number with at most
/// [`FRACTION_DIGITS`] digits after the point.
pub open spec fn is_decimal(s: Seq<char>) -> bool {
    let whole = whole_digits(unsigned_text(s));
    let fraction = fraction_digits(unsigned_text(s));
    &&& all_digits(whole)
    &&& all_digits(fraction)
    &&& whole.len() + fraction.len() >= 1
    &&& fraction.len() <= FRACTION_DIGITS
}

/// The number of millionths that a decimal text writes, sign included: its
/// digits read without the point, padded with zeros to six fraction digits.
pub open spec fn decimal_value(s: Seq<char>) -> int {
    let whole = whole_digits(unsigned_text(s));
    let fraction = fraction_digits(unsigned_text(s));
    let magnitude = digits_value(whole + fraction) * pow10((FRACTION_DIGITS - fraction.len()) as nat);
    if s.len() > 0 && s[0] == '-' {
        -magnitude
    } else {
        magnitude as int
    }
}

/// The amount that `s` stands for, where it stands for one: `s` is a decimal
/// text and its value in millionths fits an `i64`.
pub open spec fn amount_of_text(s: Seq<char>) -> Option<i64> {
    if is_decimal(s) && i64::MIN <= decimal_value(s) <= i64::MAX {
        Some(decimal_value(s) as i64)
    } else {
        None
    }
}

/// Every character of a decimal text is a digit, a point or a sign.
pub proof fn lemma_decimal_is_ascii(s: Seq<char>)
    requires
        is_decimal(s),
    ensures
        vstd::utf8::is_ascii_chars(s),
{
    let body = unsigned_text(s);
    let shift: int = if has_sign(s) { 1 } else { 0 };
    body.index_of_first_ensures('.');
    assert forall|i: int| 0 <= i < s.len() implies '\0' <= #[trigger] s[i] <= '\u{7f}' by {
        if i >= shift {
            let j = i - shift;
            assert(body[j] == s[i]);
            match body.index_of_first('.') {
                Some(point) => {
                    if j < point {
                        assert(whole_digits(body)[j] == body[j]);
                    } else if j > point {
                        assert(fraction_digits(body)[j - point - 1] == body[j]);
                    }
                },
                None => {
                    assert(whole_digits(body)[j] == body[j]);
                },
            }
        }
    }
}

proof fn lemma_digits_push(s: Seq<char>, c: char)
    ensures
        digits_value(s.push(c)) == digits_value(s) * 10 + digit_value(c),
{
    assert(s.push(c).drop_last() =~= s);
}

/// Reads an amount from its decimal text.
pub fn parse_amount(text: &str) -> (parsed: Option<i64>)
    ensures
        parsed == amount_of_text(text@),
{
    if !text.is_ascii() {
        proof {
            if is_decimal(text@) {
                lemma_decimal_is_ascii(text@);
            }
        }
        return None;
    }
    let bytes = text.as_bytes();
    proof {
        is_ascii_spec_bytes(text);
        assert(bytes@.len() == text@.len());
    }
    let n: usize = bytes.len();
    let negative = n > 0 && bytes[0] == MINUS;
    let start: usize = if n > 0 && (bytes[0] == MINUS || bytes[0] == PLUS) {
        1
    } else {
        0
    };
    let ghost body = unsigned_text(text@);
    proof {
        if n > 0 {
            assert('\0' <= text@[0] <= '\u{7f}');
            assert(negative <==> text@[0] == '-');
            assert(start == 1 <==> has_sign(text@));
        }
        assert(text@.skip(0) =~= text@);
        assert(body == text@.skip(start as int));
        body.index_of_first_ensures('.');
    }
    let mut i: usize = start;
    let mut seen_point = false;
    let mut point: usize = start;
    let mut acc: u64 = 0;
    let mut over = false;
    let ghost mut digits: Seq<char> = Seq::empty();
    while i < n
        invariant
            is_ascii(text),
            n == text@.len(),
            bytes@ == Seq::new(text@.len(), |j: int| text@[j] as u8),
            start <= i <= n,
            body == unsigned_text(text@),
            body == text@.skip(start as int),
            all_digits(digits),
            !seen_point ==> digits == body.take(i - start),
            seen_point ==> {
                &&& start <= point < i
                &&& body.index_of_first('.') == Some(point - start)
                &&& digits == body.take(point - start) + body.subrange(point - start + 1, i - start)
                &&& i - point - 1 <= FRACTION_DIGITS
            },
            !over ==> acc == digits_value(digits),
            over ==> digits_value(digits) > 0x8000_0000_0000_0000,
        decreases n - i,
    {
        let b: u8 = bytes[i];
        let ghost c: char = text@[i as int];
        assert(body[i - start] == c);
        proof {
            body.index_of_first_ensures('.');
        }
        assert('\0' <= c <= '\u{7f}');
        if ZERO <= b && b <= NINE {
            if seen_point && i - point - 1 == FRACTION_DIGITS {
                assert(fraction_digits(body).len() > FRACTION_DIGITS);
                return None;
            }
            proof {
                lemma_digits_push(digits, c);
                let longer = digits.push(c);
                if seen_point {
                    assert(longer =~= body.take(point - start) + body.subrange(
                        point - start + 1,
                        i + 1 - start,
                    ));
                } else {
                    assert(longer =~= body.take(i + 1 - start));
                }
                digits = longer;
            }
            if !over {
                if acc > ROOM_FOR_A_DIGIT {
                    over = true;
                } else {
                    acc = acc * 10 + (b - ZERO) as u64;
                }
            }
        } else if b == POINT && !seen_point {
            proof {
                assert(body.contains('.'));
                assert(forall|j: int| 0 <= j < i - start ==> is_digit(#[trigger] digits[j]));
                assert(forall|j: int| 0 <= j < i - start ==> body[j] == digits[j]);
                assert(body.index_of_first('.') == Some(i - start));
                assert(digits =~= body.take(i - start) + body.subrange(i - start + 1, i + 1 - start));
            }
            seen_point = true;
            point = i;
        } else {
            proof {
                if seen_point {
                    assert(fraction_digits(body)[i - point - 1] == c);
                } else {
                    assert(forall|j: int| 0 <= j < i - start ==> is_digit(#[trigger] digits[j]));
                    assert(forall|j: int| 0 <= j < i - start ==> body[j] == digits[j]);
                    assert(whole_digits(body)[i - start] == c);
                }
                assert(!is_decimal(text@));
            }
            return None;
        }
        i = i + 1;
    }
    let fraction_len: usize = if seen_point { n - point - 1 } else { 0 };
    proof {
        body.index_of_first_ensures('.');
        if seen_point {
            assert(digits =~= whole_digits(body) + fraction_digits(body));
        } else {
            assert(body.take(n - start) =~= body);
            assert(forall|j: int| 0 <= j < body.len() ==> is_digit(#[trigger] body[j]));
            assert(!body.contains('.'));
            assert(digits =~= whole_digits(body) + fraction_digits(body));
        }
        assert(fraction_digits(body).len() == fraction_len);
        assert(digits.len() == whole_digits(body).len() + fraction_digits(body).len());
    }
    let digit_count: usize = if seen_point { n - start - 1 } else { n - start };
    assert(digit_count == digits.len());
    if digit_count == 0 {
        return None;
    }
    proof {
        let whole = whole_digits(body);
        let fraction = fraction_digits(body);
        assert forall|j: int| 0 <= j < whole.len() implies is_digit(#[trigger] whole[j]) by {
            assert(whole[j] == digits[j]);
        }
        assert forall|j: int| 0 <= j < fraction.len() implies is_digit(#[trigger] fraction[j]) by {
            assert(fraction[j] == digits[whole.len() + j]);
        }
        assert(is_decimal(text@));
    }
    let mut k: usize = fraction_len;
    let ghost mut scaled: nat = digits_value(digits);
    assert(pow10((k - fraction_len) as nat) == 1);
    while k < FRACTION_DIGITS
        invariant
            fraction_len <= k <= FRACTION_DIGITS,
            scaled == digits_value(digits) * pow10((k - fraction_len) as nat),
            !over ==> acc == scaled,
            over ==> scaled > 0x8000_0000_0000_0000,
        decreases FRACTION_DIGITS - k,
    {
        proof {
            let base = digits_value(digits);
            let p = pow10((k - fraction_len) as nat);
            assert(pow10((k + 1 - fraction_len) as nat) == 10 * p);
            assert(base * (10 * p) == (base * p) * 10) by (nonlinear_arith);
            scaled = scaled * 10;
        }
        if !over {
            if acc > ROOM_FOR_A_DIGIT {
                over = true;
            } else {
                acc = acc * 10;
            }
        }
        k = k + 1;
    }
    assert(scaled == digits_value(whole_digits(body) + fraction_digits(body)) * pow10(
        (FRACTION_DIGITS - fraction_len) as nat,
    ));
    if over {
        None
    } else if negative {
        if acc > 0x8000_0000_0000_0000u64 {
            None
        } else if acc == 0x8000_0000_0000_0000u64 {
            Some(i64::MIN)
        } else {
            Some(-(acc as i64))
        }
    } else {
        if acc > 0x7fff_ffff_ffff_ffffu64 {
            None
        } else {
            Some(acc as i64)
        }
    }
}

} // verus!
