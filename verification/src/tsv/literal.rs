//! Which texts are written numbers: the literals that Rust's `i64` and its
//! double-precision float parse from a string.

use crate::text::chars_of;
use vstd::prelude::*;

verus! {

/// Whether `c` is one of the digits `0` to `9`.
pub open spec fn is_digit(c: char) -> bool {
    '0' as u32 <= c as u32 <= '9' as u32
}

/// Whether `c` is a sign, `+` or `-`.
pub open spec fn is_sign(c: char) -> bool {
    c == '+' || c == '-'
}

/// The number that a sequence of digits writes in base ten.
pub open spec fn decimal(digits: Seq<char>) -> nat
    decreases digits.len(),
{
    if digits.len() == 0 {
        0
    } else {
        (10 * decimal(digits.drop_last()) + (digits.last() as u32 - '0' as u32)) as nat
    }
}

/// The index of the first character at or after `from` that is no digit.
pub open spec fn digits_end(s: Seq<char>, from: int) -> int
    decreases s.len() - from,
{
    if 0 <= from < s.len() && is_digit(s[from]) {
        digits_end(s, from + 1)
    } else {
        from
    }
}

/// What is left of `s` behind a leading sign.
pub open spec fn unsigned(s: Seq<char>) -> Seq<char> {
    if s.len() > 0 && is_sign(s[0]) {
        s.skip(1)
    } else {
        s
    }
}

/// Whether `s` writes a 64-bit signed integer: an optional sign, then one or
/// more digits and nothing else, the number within the range of `i64`.
pub open spec fn is_integer(s: Seq<char>) -> bool {
    let digits = unsigned(s);
    &&& digits.len() > 0
    &&& digits_end(digits, 0) == digits.len()
    &&& if s[0] == '-' {
        decimal(digits) <= 0x8000_0000_0000_0000
    } else {
        decimal(digits) <= 0x7fff_ffff_ffff_ffff
    }
}

/// Whether `s` is `word` but for the case of its ASCII letters. `word` is in
/// lower case.
pub open spec fn is_word(s: Seq<char>, word: Seq<char>) -> bool {
    &&& s.len() == word.len()
    &&& forall|i: int|
        0 <= i < s.len() ==> (#[trigger] s[i] == word[i] || s[i] as u32 + 32 == word[i] as u32)
}

/// Whether an exponent stands at `at` and ends the text: `e` or `E`, an
/// optional sign, and one or more digits.
pub open spec fn is_exponent(s: Seq<char>, at: int) -> bool {
    let digits = if at + 1 < s.len() && is_sign(s[at + 1]) {
        at + 2
    } else {
        at + 1
    };
    &&& 0 <= at < s.len()
    &&& (s[at] == 'e' || s[at] == 'E')
    &&& digits < s.len()
    &&& digits_end(s, digits) == s.len()
}

/// Whether `s` writes a decimal number: digits with at most one point among
/// them, before them or after them, at least one digit, and then an exponent
/// or nothing.
pub open spec fn is_number(s: Seq<char>) -> bool {
    let whole_end = digits_end(s, 0);
    let pointed = whole_end < s.len() && s[whole_end] == '.';
    let mantissa_end = if pointed {
        digits_end(s, whole_end + 1)
    } else {
        whole_end
    };
    let digits = if pointed {
        mantissa_end - 1
    } else {
        mantissa_end
    };
    &&& digits > 0
    &&& (mantissa_end == s.len() || is_exponent(s, mantissa_end))
}

/// Whether `s` writes a floating-point number: an optional sign, and then
/// `inf`, `infinity` or `nan` in any case, or a decimal number.
pub open spec fn is_float(s: Seq<char>) -> bool {
    let body = unsigned(s);
    ||| is_word(body, "inf"@)
    ||| is_word(body, "infinity"@)
    ||| is_word(body, "nan"@)
    ||| is_number(body)
}

proof fn lemma_digits_end(s: Seq<char>, from: int)
    requires
        0 <= from <= s.len(),
    ensures
        from <= digits_end(s, from) <= s.len(),
    decreases s.len() - from,
{
    if from < s.len() && is_digit(s[from]) {
        lemma_digits_end(s, from + 1);
    }
}

fn digit(c: char) -> (b: bool)
    ensures
        b == is_digit(c),
{
    let u: u32 = c as u32;
    48 <= u && u <= 57
}

fn sign(c: char) -> (b: bool)
    ensures
        b == is_sign(c),
{
    c == '+' || c == '-'
}

/// The index of the first character of `chars` at or after `from` that is no
/// digit.
fn scan_digits(chars: &Vec<char>, from: usize) -> (end: usize)
    requires
        from <= chars@.len(),
    ensures
        end == digits_end(chars@, from as int),
        from <= end <= chars@.len(),
{
    let mut i: usize = from;
    while i < chars.len() && digit(chars[i])
        invariant
            from <= i <= chars@.len(),
            digits_end(chars@, from as int) == digits_end(chars@, i as int),
        decreases chars@.len() - i,
    {
        i += 1;
    }
    i
}

/// Whether `chars` is `word` but for the case of its ASCII letters.
fn matches_word(chars: &Vec<char>, word: &str) -> (b: bool)
    ensures
        b == is_word(chars@, word@),
{
    let expected = chars_of(word);
    if chars.len() != expected.len() {
        return false;
    }
    let mut i: usize = 0;
    while i < expected.len()
        invariant
            chars@.len() == expected@.len(),
            expected@ == word@,
            i <= expected@.len(),
            forall|j: int|
                0 <= j < i ==> (#[trigger] chars@[j] == expected@[j] || chars@[j] as u32 + 32
                    == expected@[j] as u32),
        decreases expected@.len() - i,
    {
        let c: u32 = chars[i] as u32;
        let e: u32 = expected[i] as u32;
        proof {
            vstd::utf8::char_is_scalar(chars@[i as int]);
            vstd::utf8::char_u32_cast(chars@[i as int], c);
            vstd::utf8::char_u32_cast(expected@[i as int], e);
        }
        if !(c == e || c + 32 == e) {
            return false;
        }
        i += 1;
    }
    true
}

/// Whether `chars` writes a decimal number.
fn number(chars: &Vec<char>) -> (b: bool)
    ensures
        b == is_number(chars@),
{
    let len = chars.len();
    let whole_end = scan_digits(chars, 0);
    let pointed = whole_end < len && chars[whole_end] == '.';
    let mantissa_end = if pointed {
        scan_digits(chars, whole_end + 1)
    } else {
        whole_end
    };
    let digits = if pointed {
        mantissa_end - 1
    } else {
        mantissa_end
    };
    if digits == 0 {
        return false;
    }
    if mantissa_end == len {
        return true;
    }
    let mark = chars[mantissa_end];
    if !(mark == 'e' || mark == 'E') {
        return false;
    }
    let start = if mantissa_end + 1 < len && sign(chars[mantissa_end + 1]) {
        mantissa_end + 2
    } else {
        mantissa_end + 1
    };
    if start >= len {
        return false;
    }
    scan_digits(chars, start) == len
}

/// The characters of `text` behind its leading sign, if it has one.
fn unsigned_of(text: &str) -> (body: Vec<char>)
    ensures
        body@ == unsigned(text@),
{
    let chars = chars_of(text);
    if chars.len() > 0 && sign(chars[0]) {
        let mut body: Vec<char> = Vec::new();
        let mut i: usize = 1;
        while i < chars.len()
            invariant
                1 <= i <= chars@.len(),
                body@ == chars@.subrange(1, i as int),
            decreases chars@.len() - i,
        {
            body.push(chars[i]);
            i += 1;
            assert(chars@.subrange(1, i as int) =~= chars@.subrange(1, i - 1).push(
                chars@[i - 1],
            ));
        }
        assert(chars@.subrange(1, chars@.len() as int) =~= chars@.skip(1));
        body
    } else {
        chars
    }
}

/// Whether `text` starts with a minus sign.
fn is_negative(text: &str) -> (b: bool)
    ensures
        b == (text@.len() > 0 && text@[0] == '-'),
{
    let chars = chars_of(text);
    chars.len() > 0 && chars[0] == '-'
}

/// Whether `text` writes a 64-bit signed integer.
pub fn parses_as_integer(text: &str) -> (b: bool)
    ensures
        b == is_integer(text@),
{
    let digits = unsigned_of(text);
    if digits.len() == 0 {
        return false;
    }
    let negative = is_negative(text);
    let limit: u64 = if negative {
        0x8000_0000_0000_0000
    } else {
        0x7fff_ffff_ffff_ffff
    };
    let mut value: u64 = 0;
    let mut i: usize = 0;
    assert(digits@.take(0) =~= Seq::<char>::empty());
    while i < digits.len()
        invariant
            i <= digits@.len(),
            digits@ == unsigned(text@),
            digits@.len() > 0,
            negative == (text@.len() > 0 && text@[0] == '-'),
            limit == if negative {
                0x8000_0000_0000_0000u64
            } else {
                0x7fff_ffff_ffff_ffffu64
            },
            digits_end(digits@, 0) == digits_end(digits@, i as int),
            value == decimal(digits@.take(i as int)),
            value <= limit,
        decreases digits@.len() - i,
    {
        let c = digits[i];
        if !digit(c) {
            return false;
        }
        let d: u64 = (c as u32 - 48) as u64;
        assert(digits@.take(i + 1).drop_last() =~= digits@.take(i as int));
        assert(digits@.take(i + 1).last() == c);
        assert(decimal(digits@.take(i + 1)) == 10 * value + d);
        if value > (limit - d) / 10 {
            proof {
                if digits_end(digits@, 0) == digits@.len() {
                    lemma_decimal_grows(digits@, i + 1);
                }
            }
            return false;
        }
        value = value * 10 + d;
        i += 1;
    }
    assert(digits@.take(digits@.len() as int) =~= digits@);
    true
}

/// Where all of `digits` are digits, the number written by the first `n` is
/// at most the number written by all.
proof fn lemma_decimal_grows(digits: Seq<char>, n: int)
    requires
        0 <= n <= digits.len(),
        digits_end(digits, 0) == digits.len(),
    ensures
        decimal(digits.take(n)) <= decimal(digits),
    decreases digits.len() - n,
{
    if n < digits.len() {
        lemma_digits_all(digits, 0, n);
        assert(digits.take(n + 1).drop_last() =~= digits.take(n));
        lemma_decimal_grows(digits, n + 1);
    } else {
        assert(digits.take(n) =~= digits);
    }
}

/// Where the digits run to the end, every character on the way is a digit.
proof fn lemma_digits_all(s: Seq<char>, from: int, at: int)
    requires
        0 <= from <= at < s.len(),
        digits_end(s, from) == s.len(),
    ensures
        is_digit(s[at]),
    decreases at - from,
{
    if from < at {
        lemma_digits_all(s, from + 1, at);
    }
}

/// Whether `text` writes a floating-point number.
pub fn parses_as_float(text: &str) -> (b: bool)
    ensures
        b == is_float(text@),
{
    let body = unsigned_of(text);
    matches_word(&body, "inf") || matches_word(&body, "infinity") || matches_word(&body, "nan")
        || number(&body)
}

} // verus!
