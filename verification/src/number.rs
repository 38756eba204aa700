//! Whole numbers written in decimal.

use crate::text;
use vstd::prelude::*;
use vstd::string::*;

verus! {

/// The value of a decimal digit.
pub open spec fn digit_value(c: char) -> int {
    c as u32 - '0' as u32
}

/// Whether a character is a decimal digit.
pub open spec fn is_digit(c: char) -> bool {
    '0' <= c <= '9'
}

/// Whether a text holds one digit or more and nothing else.
pub open spec fn is_digits(s: Seq<char>) -> bool {
    &&& s.len() > 0
    &&& forall|i: int| 0 <= i < s.len() ==> is_digit(#[trigger] s[i])
}

/// The number that a run of digits stands for.
pub open spec fn digits_value(s: Seq<char>) -> int
    decreases s.len(),
{
    if s.len() == 0 {
        0
    } else {
        10 * digits_value(s.drop_last()) + digit_value(s.last())
    }
}

/// Whether a text starts with the given sign.
pub open spec fn has_sign(s: Seq<char>, sign: char) -> bool {
    s.len() > 0 && s[0] == sign
}

/// The whole number that a text stands for: digits, after an optional sign.
pub open spec fn signed_value(s: Seq<char>) -> Option<int> {
    let digits = if has_sign(s, '-') || has_sign(s, '+') {
        s.drop_first()
    } else {
        s
    };
    if !is_digits(digits) {
        None
    } else if has_sign(s, '-') {
        Some(-digits_value(digits))
    } else {
        Some(digits_value(digits))
    }
}

/// What a text stands for as an `i64`.
pub open spec fn parsed_i64(s: Seq<char>) -> Option<int> {
    match signed_value(s) {
        Some(n) if i64::MIN <= n <= i64::MAX => Some(n),
        _ => None,
    }
}

/// What a text stands for as a `u64`: digits, after an optional plus sign.
pub open spec fn parsed_u64(s: Seq<char>) -> Option<int> {
    match signed_value(s) {
        Some(n) if !has_sign(s, '-') && n <= u64::MAX => Some(n),
        _ => None,
    }
}

proof fn lemma_digits_value_grows(s: Seq<char>, n: int)
    requires
        is_digits(s),
        0 <= n <= s.len(),
    ensures
        0 <= digits_value(s.take(n)) <= digits_value(s),
    decreases s.len() - n, n,
{
    if n < s.len() {
        lemma_digits_value_grows(s, n + 1);
        lemma_digits_value_nonnegative(s, n);
        assert(s.take(n + 1).drop_last() =~= s.take(n));
        assert(is_digit(s[n]));
    } else {
        assert(s.take(n) =~= s);
        lemma_digits_value_nonnegative(s, n);
    }
}

proof fn lemma_digits_value_nonnegative(s: Seq<char>, n: int)
    requires
        is_digits(s),
        0 <= n <= s.len(),
    ensures
        0 <= digits_value(s.take(n)),
    decreases n,
{
    if n > 0 {
        lemma_digits_value_nonnegative(s, n - 1);
        assert(s.take(n).drop_last() =~= s.take(n - 1));
        assert(is_digit(s[n - 1]));
    }
}

/// The number that the digits from position `from` on stand for, if it is a `u64`.
fn parse_digits(chars: &Vec<char>, from: usize) -> (r: Option<u64>)
    requires
        from <= chars@.len(),
    ensures
        ({
            let digits = chars@.skip(from as int);
            match r {
                Some(n) => is_digits(digits) && digits_value(digits) == n,
                None => !is_digits(digits) || digits_value(digits) > u64::MAX,
            }
        }),
{
    let ghost digits = chars@.skip(from as int);
    let total: usize = chars.len();
    if from == total {
        return None;
    }
    let mut value: u64 = 0;
    let mut i: usize = from;
    while i < total
        invariant
            from <= i <= total,
            from < total,
            total == chars@.len(),
            digits == chars@.skip(from as int),
            forall|j: int| 0 <= j < i - from ==> is_digit(#[trigger] digits[j]),
            value == digits_value(digits.take(i - from)),
        decreases total - i,
    {
        let c = chars[i];
        assert(digits[i - from] == c);
        if c < '0' || '9' < c {
            return None;
        }
        assert(digits.take(i - from + 1).drop_last() =~= digits.take(i - from));
        let next: u128 = value as u128 * 10 + (c as u32 - '0' as u32) as u128;
        assert(next == digits_value(digits.take(i - from + 1)));
        if next > u64::MAX as u128 {
            proof {
                if is_digits(digits) {
                    lemma_digits_value_grows(digits, i - from + 1);
                }
            }
            return None;
        }
        value = next as u64;
        i = i + 1;
    }
    assert(digits.take(total - from) =~= digits);
    Some(value)
}

/// The `i64` that a text stands for: decimal digits after an optional sign.
pub fn parse_i64(s: &str) -> (r: Option<i64>)
    ensures
        r matches Some(n) ==> parsed_i64(s@) == Some(n as int),
        r is None ==> parsed_i64(s@) is None,
{
    let chars = text::to_chars(s);
    let minus = chars.len() > 0 && chars[0] == '-';
    let plus = chars.len() > 0 && chars[0] == '+';
    let from: usize = if minus || plus {
        1
    } else {
        0
    };
    assert(chars@.skip(0) =~= chars@);
    assert(chars@.len() > 0 ==> chars@.skip(1) =~= chars@.drop_first());
    match parse_digits(&chars, from) {
        None => None,
        Some(n) => if minus {
            if n <= 0x8000_0000_0000_0000 {
                Some((-(n as i128)) as i64)
            } else {
                None
            }
        } else if n <= i64::MAX as u64 {
            Some(n as i64)
        } else {
            None
        },
    }
}

/// The `u64` that a text stands for: decimal digits after an optional plus sign.
pub fn parse_u64(s: &str) -> (r: Option<u64>)
    ensures
        r matches Some(n) ==> parsed_u64(s@) == Some(n as int),
        r is None ==> parsed_u64(s@) is None,
{
    let chars = text::to_chars(s);
    if chars.len() > 0 && chars[0] == '-' {
        return None;
    }
    let from: usize = if chars.len() > 0 && chars[0] == '+' {
        1
    } else {
        0
    };
    assert(chars@.skip(0) =~= chars@);
    assert(chars@.len() > 0 ==> chars@.skip(1) =~= chars@.drop_first());
    parse_digits(&chars, from)
}

/// What a field of a table stands for as a `u32`: the low 32 bits of the positive number in it, and
/// zero for anything else.
pub open spec fn parsed_u32(s: Seq<char>) -> int {
    match parsed_i64(s) {
        Some(n) if n > 0 => n % 0x1_0000_0000,
        _ => 0,
    }
}

/// What a field of a table stands for as a `u32`.
pub fn parse_u32(value: &str) -> (r: u32)
    ensures
        r == parsed_u32(value@),
{
    match parse_i64(value) {
        Some(n) => if n > 0 {
            (n as u64 % 0x1_0000_0000) as u32
        } else {
            0
        },
        None => 0,
    }
}

/// The digit that stands for a number below ten.
pub open spec fn digit(n: int) -> char {
    ('0' as u32 + n) as char
}

/// A natural number in decimal.
pub open spec fn decimal_digits(n: int) -> Seq<char>
    decreases n,
{
    if n < 10 {
        seq![digit(n)]
    } else {
        decimal_digits(n / 10).push(digit(n % 10))
    }
}

/// A whole number in decimal.
pub open spec fn decimal(n: int) -> Seq<char> {
    if n < 0 {
        seq!['-'] + decimal_digits(-n)
    } else {
        decimal_digits(n)
    }
}

proof fn lemma_decimal_digits(n: int)
    requires
        0 <= n,
    ensures
        is_digits(decimal_digits(n)),
        digits_value(decimal_digits(n)) == n,
    decreases n,
{
    let s = decimal_digits(n);
    if n < 10 {
        assert(s.drop_last() =~= Seq::<char>::empty());
        assert(digits_value(s.drop_last()) == 0);
        assert(digit_value(digit(n)) == n);
    } else {
        lemma_decimal_digits(n / 10);
        assert(s.drop_last() =~= decimal_digits(n / 10));
        assert(digit_value(digit(n % 10)) == n % 10);
        assert forall|i: int| 0 <= i < s.len() implies is_digit(#[trigger] s[i]) by {
            if i < s.len() - 1 {
                assert(s[i] == decimal_digits(n / 10)[i]);
            }
        }
    }
}

/// A natural number is written in digits only.
pub proof fn law_decimal_is_digits(n: int)
    requires
        0 <= n,
    ensures
        is_digits(decimal(n)),
{
    lemma_decimal_digits(n);
}

/// A number written in decimal is read back as that number.
pub proof fn law_decimal_read_back(n: int)
    ensures
        signed_value(decimal(n)) == Some(n),
        i64::MIN <= n <= i64::MAX ==> parsed_i64(decimal(n)) == Some(n),
        0 <= n <= u64::MAX ==> parsed_u64(decimal(n)) == Some(n),
{
    let s = decimal(n);
    if n < 0 {
        lemma_decimal_digits(-n);
        assert(s.drop_first() =~= decimal_digits(-n));
    } else {
        lemma_decimal_digits(n);
        assert(is_digit(s[0]));
    }
}

fn push_digits(n: u128, s: &mut String)
    ensures
        final(s)@ == old(s)@ + decimal_digits(n as int),
    decreases n,
{
    if n >= 10 {
        push_digits(n / 10, s);
    }
    let c: char = (48u8 + (n % 10) as u8) as char;
    s.push(c);
    assert(c == digit(n as int % 10));
    assert(s@ =~= old(s)@ + decimal_digits(n as int));
}

/// A `u64` in decimal.
pub fn decimal_u64(n: u64) -> (s: String)
    ensures
        s@ == decimal(n as int),
{
    let mut s = String::new();
    push_digits(n as u128, &mut s);
    assert(s@ =~= decimal(n as int));
    s
}

/// A `u128` in decimal.
pub fn decimal_u128(n: u128) -> (s: String)
    ensures
        s@ == decimal(n as int),
{
    let mut s = String::new();
    push_digits(n, &mut s);
    assert(s@ =~= decimal(n as int));
    s
}

/// An `i64` in decimal.
pub fn decimal_i64(n: i64) -> (s: String)
    ensures
        s@ == decimal(n as int),
{
    let mut s = String::new();
    if n < 0 {
        s.push('-');
        push_digits((-(n as i128)) as u128, &mut s);
    } else {
        push_digits(n as u128, &mut s);
    }
    assert(s@ =~= decimal(n as int));
    s
}

/// A sign before some digits is read: a minus sign turns the number round, a plus sign leaves it.
pub proof fn law_signs_are_read(digits: Seq<char>)
    requires
        is_digits(digits),
    ensures
        signed_value(digits) is Some,
        signed_value(seq!['+'] + digits) == signed_value(digits),
        signed_value(seq!['-'] + digits) == Some(-signed_value(digits)->Some_0),
        parsed_u64(seq!['+'] + digits) == parsed_u64(digits),
        parsed_u64(seq!['-'] + digits) is None,
{
    assert(is_digit(digits[0]));
    assert((seq!['+'] + digits).drop_first() =~= digits);
    assert((seq!['-'] + digits).drop_first() =~= digits);
}

/// Each digit that follows makes the number ten times as large and adds its own value to it; zeros
/// before the digits do not change it.
pub proof fn law_digits_count_tens(digits: Seq<char>, n: int)
    requires
        is_digits(digits),
        0 <= n < 10,
    ensures
        signed_value(digits.push(decimal(n)[0])) == Some(10 * signed_value(digits)->Some_0 + n),
        signed_value(seq!['0'] + digits) == signed_value(digits),
{
    let longer = digits.push(decimal(n)[0]);
    assert(is_digit(digits[0]));
    assert(is_digit(decimal(n)[0]) && digit_value(decimal(n)[0]) == n);
    assert(longer.drop_last() =~= digits);
    assert(longer[0] == digits[0]);
    assert(is_digits(longer));
    lemma_leading_zero(digits);
    let padded = seq!['0'] + digits;
    assert forall|i: int| 0 <= i < padded.len() implies is_digit(#[trigger] padded[i]) by {
        if i > 0 {
            assert(is_digit(digits[i - 1]));
        }
    }
}

proof fn lemma_leading_zero(digits: Seq<char>)
    ensures
        digits_value(seq!['0'] + digits) == digits_value(digits),
    decreases digits.len(),
{
    let padded = seq!['0'] + digits;
    if digits.len() == 0 {
        assert(padded.drop_last() =~= Seq::empty());
        assert(digits_value(padded.drop_last()) == 0);
    } else {
        lemma_leading_zero(digits.drop_last());
        assert(padded.drop_last() =~= seq!['0'] + digits.drop_last());
    }
}

/// A text stands for no number where it is empty, where it is a sign alone, and where a character
/// other than a digit stands anywhere but in the place of the sign.
pub proof fn law_other_characters_make_no_number(s: Seq<char>, i: int)
    ensures
        s.len() == 0 ==> signed_value(s) is None,
        s.len() == 1 && !is_digit(s[0]) ==> signed_value(s) is None,
        0 <= i < s.len() && !is_digit(s[i]) && (i > 0 || (s[0] != '+' && s[0] != '-'))
            ==> signed_value(s) is None,
        signed_value(s) is None ==> parsed_i64(s) is None && parsed_u64(s) is None,
{
    if i > 0 && i < s.len() {
        assert(s.drop_first()[i - 1] == s[i]);
    }
}

/// A field of a table stands for the number written in it, where that is a `u32`; for zero where it
/// is no number, a negative one or one beyond an `i64`; and between these, for what is left of it when
/// the largest `u32` and one more is taken away again and again.
pub proof fn law_field_is_read_as_u32(s: Seq<char>, n: int)
    ensures
        0 <= n <= u32::MAX ==> parsed_u32(decimal(n)) == n,
        n < 0 || n > i64::MAX ==> parsed_u32(decimal(n)) == 0,
        0 <= n && n + u32::MAX + 1 <= i64::MAX ==> parsed_u32(decimal(n + u32::MAX + 1))
            == parsed_u32(decimal(n)),
        signed_value(s) is None ==> parsed_u32(s) == 0,
        0 <= parsed_u32(s) <= u32::MAX,
{
    law_decimal_read_back(n);
    law_decimal_read_back(n + u32::MAX + 1);
}

/// A number is written without zeros before it.
pub proof fn law_decimal_has_no_leading_zero(n: int)
    requires
        0 <= n,
    ensures
        decimal(0) == seq!['0'],
        decimal(n)[0] == '0' <==> n == 0,
    decreases n,
{
    if n >= 10 {
        law_decimal_has_no_leading_zero(n / 10);
        lemma_decimal_digits(n / 10);
        assert(decimal(n)[0] == decimal(n / 10)[0]);
    } else {
        assert(digit_value(decimal(n)[0]) == n);
    }
}

} // verus!
