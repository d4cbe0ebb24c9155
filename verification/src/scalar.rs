//! Parsers for the scalar payloads of numeric and boolean attributes.
//!
//! Integers are written in decimal with an optional sign and no surrounding
//! space. Decimal numbers with a fraction or an exponent are recognised but
//! not evaluated: the model keeps their text.

use vstd::prelude::*;

use crate::text::{chars_of, same_text};

verus! {

/// Whether `c` is a decimal digit.
pub open spec fn is_digit(c: char) -> bool {
    '0' <= c && c <= '9'
}

/// The number that the digit `c` stands for.
pub open spec fn digit_value(c: char) -> nat {
    (c as int - '0' as int) as nat
}

/// Whether `s` is a non-empty run of decimal digits.
pub open spec fn is_digits(s: Seq<char>) -> bool {
    &&& s.len() > 0
    &&& forall|i: int| 0 <= i < s.len() ==> is_digit(#[trigger] s[i])
}

/// The number that the digits of `s` denote in base ten.
pub open spec fn decimal_value(s: Seq<char>) -> nat
    decreases s.len(),
{
    if s.len() == 0 {
        0
    } else {
        decimal_value(s.drop_last()) * 10 + digit_value(s.last())
    }
}

/// The text of `s` after an optional leading plus sign.
pub open spec fn without_plus(s: Seq<char>) -> Seq<char> {
    if s.len() > 0 && s[0] == '+' {
        s.drop_first()
    } else {
        s
    }
}

/// The unsigned integer that `s` denotes, if it is digits after an optional
/// plus sign and the number fits in 64 bits.
pub open spec fn unsigned_of(s: Seq<char>) -> Option<u64> {
    let digits = without_plus(s);
    if is_digits(digits) && decimal_value(digits) <= u64::MAX {
        Some(decimal_value(digits) as u64)
    } else {
        None
    }
}

/// The signed integer that `s` denotes, if it is digits after an optional
/// sign and the number fits in 64 bits.
pub open spec fn signed_of(s: Seq<char>) -> Option<i64> {
    if s.len() > 0 && s[0] == '-' {
        let digits = s.drop_first();
        if is_digits(digits) && decimal_value(digits) <= -(i64::MIN as int) {
            Some((-(decimal_value(digits) as int)) as i64)
        } else {
            None
        }
    } else {
        let digits = without_plus(s);
        if is_digits(digits) && decimal_value(digits) <= i64::MAX {
            Some(decimal_value(digits) as i64)
        } else {
            None
        }
    }
}

/// The truth value that `s` denotes: exactly `true` or `false`.
pub open spec fn boolean_of(s: Seq<char>) -> Option<bool> {
    if s == "true"@ {
        Some(true)
    } else if s == "false"@ {
        Some(false)
    } else {
        None
    }
}

/// Whether `c` is a plus or minus sign.
pub open spec fn is_sign(c: char) -> bool {
    c == '+' || c == '-'
}

/// The text of `s` after an optional leading sign.
pub open spec fn without_sign(s: Seq<char>) -> Seq<char> {
    if s.len() > 0 && is_sign(s[0]) {
        s.drop_first()
    } else {
        s
    }
}

/// Whether `c` is the lowercase letter `letter` or its capital.
pub open spec fn same_letter(c: char, letter: char) -> bool {
    c == letter || c as int + 32 == letter as int
}

/// Whether `s` spells the lowercase `word`, in any mix of cases.
pub open spec fn spells(s: Seq<char>, word: Seq<char>) -> bool {
    &&& s.len() == word.len()
    &&& forall|i: int| 0 <= i < s.len() ==> same_letter(#[trigger] s[i], word[i])
}

/// How many digits stand at the front of `s`.
pub open spec fn leading_digits(s: Seq<char>) -> nat
    decreases s.len(),
{
    if s.len() > 0 && is_digit(s[0]) {
        1 + leading_digits(s.drop_first())
    } else {
        0
    }
}

/// Whether `s` is an exponent: the letter `e`, an optional sign, digits.
pub open spec fn is_exponent(s: Seq<char>) -> bool {
    &&& s.len() > 0
    &&& same_letter(s[0], 'e')
    &&& is_digits(without_sign(s.drop_first()))
}

/// Whether `s` is an unsigned decimal number: digits with an optional
/// decimal point among them, before it or after it, then an optional
/// exponent. At least one digit stands beside the point.
pub open spec fn is_decimal_number(s: Seq<char>) -> bool {
    let whole = leading_digits(s);
    let rest = s.skip(whole as int);
    if rest.len() > 0 && rest[0] == '.' {
        let fraction = leading_digits(rest.drop_first());
        let tail = rest.skip(1 + fraction as int);
        whole + fraction > 0 && (tail.len() == 0 || is_exponent(tail))
    } else {
        whole > 0 && (rest.len() == 0 || is_exponent(rest))
    }
}

/// Whether `s` is the text of a real number: an optional sign, then a
/// decimal number or one of the words `inf`, `infinity` and `nan`.
pub open spec fn is_real_text(s: Seq<char>) -> bool {
    let body = without_sign(s);
    ||| spells(body, "inf"@)
    ||| spells(body, "infinity"@)
    ||| spells(body, "nan"@)
    ||| is_decimal_number(body)
}

/// The value of a run of digits does not shrink when more digits follow.
pub proof fn lemma_decimal_value_grows(s: Seq<char>, n: int)
    requires
        0 <= n <= s.len(),
    ensures
        decimal_value(s.take(n)) <= decimal_value(s),
    decreases s.len() - n,
{
    if n == s.len() {
        assert(s.take(n) =~= s);
    } else {
        lemma_decimal_value_grows(s, n + 1);
        assert(s.take(n + 1).drop_last() =~= s.take(n));
    }
}

/// Whether `c` is a decimal digit.
pub fn digit(c: char) -> (ok: bool)
    ensures
        ok == is_digit(c),
{
    '0' <= c && c <= '9'
}

/// The value of the digits `chars[from..]`, or `None` if that range is empty,
/// holds anything but digits, or denotes a number above `u64::MAX`.
fn parse_digits(chars: &Vec<char>, from: usize) -> (value: Option<u64>)
    requires
        from <= chars.len(),
    ensures
        value == (if is_digits(chars@.skip(from as int)) && decimal_value(chars@.skip(from as int))
            <= u64::MAX {
            Some(decimal_value(chars@.skip(from as int)) as u64)
        } else {
            None
        }),
{
    let n = chars.len();
    let ghost digits = chars@.skip(from as int);
    if from == n {
        return None;
    }
    let mut acc: u64 = 0;
    let mut i: usize = from;
    proof {
        assert(digits.take(0) =~= Seq::<char>::empty());
    }
    while i < n
        invariant
            from <= i <= n,
            n == chars.len(),
            digits == chars@.skip(from as int),
            acc == decimal_value(digits.take(i - from)),
            forall|j: int| 0 <= j < i - from ==> is_digit(#[trigger] digits[j]),
        decreases n - i,
    {
        let c = chars[i];
        proof {
            assert(digits[i - from] == c);
            assert(digits.take(i - from + 1).drop_last() =~= digits.take(i - from));
            assert(digits.take(i - from + 1).last() == c);
        }
        if !digit(c) {
            return None;
        }
        let d: u64 = (c as u32 - '0' as u32) as u64;
        let next = match acc.checked_mul(10) {
            Some(tens) => tens.checked_add(d),
            None => None,
        };
        match next {
            Some(v) => {
                acc = v;
            },
            None => {
                proof {
                    lemma_decimal_value_grows(digits, i - from + 1);
                }
                return None;
            },
        }
        i = i + 1;
    }
    proof {
        assert(digits.take(n - from) =~= digits);
    }
    Some(acc)
}

/// Parses an unsigned decimal integer.
pub fn parse_unsigned(s: &str) -> (value: Option<u64>)
    ensures
        value == unsigned_of(s@),
{
    let chars = chars_of(s);
    if chars.len() > 0 && chars[0] == '+' {
        proof {
            assert(chars@.skip(1) =~= s@.drop_first());
        }
        parse_digits(&chars, 1)
    } else {
        proof {
            assert(chars@.skip(0) =~= s@);
        }
        parse_digits(&chars, 0)
    }
}

/// Parses a signed decimal integer.
pub fn parse_signed(s: &str) -> (value: Option<i64>)
    ensures
        value == signed_of(s@),
{
    let chars = chars_of(s);
    if chars.len() > 0 && chars[0] == '-' {
        proof {
            assert(chars@.skip(1) =~= s@.drop_first());
        }
        match parse_digits(&chars, 1) {
            Some(magnitude) => {
                if magnitude <= 0x7fff_ffff_ffff_ffff {
                    Some(-(magnitude as i64))
                } else if magnitude == 0x8000_0000_0000_0000 {
                    Some(i64::MIN)
                } else {
                    None
                }
            },
            None => None,
        }
    } else {
        let from: usize = if chars.len() > 0 && chars[0] == '+' {
            1
        } else {
            0
        };
        proof {
            assert(chars@.skip(from as int) =~= without_plus(s@));
        }
        match parse_digits(&chars, from) {
            Some(magnitude) => {
                if magnitude <= 0x7fff_ffff_ffff_ffff {
                    Some(magnitude as i64)
                } else {
                    None
                }
            },
            None => None,
        }
    }
}

/// The index just past the digits that start at `chars[from]`.
fn skip_digits(chars: &Vec<char>, from: usize) -> (end: usize)
    requires
        from <= chars.len(),
    ensures
        from <= end <= chars.len(),
        end - from == leading_digits(chars@.skip(from as int)),
{
    let n = chars.len();
    let mut end: usize = from;
    while end < n && digit(chars[end])
        invariant
            from <= end <= n,
            n == chars.len(),
            leading_digits(chars@.skip(from as int)) == (end - from) + leading_digits(
                chars@.skip(end as int),
            ),
        decreases n - end,
    {
        proof {
            assert(chars@.skip(end as int).drop_first() =~= chars@.skip(end + 1));
        }
        end = end + 1;
    }
    end
}

/// Whether `chars[from..]` is a non-empty run of digits.
fn digits_from(chars: &Vec<char>, from: usize) -> (ok: bool)
    requires
        from <= chars.len(),
    ensures
        ok == is_digits(chars@.skip(from as int)),
{
    let n = chars.len();
    let ghost tail = chars@.skip(from as int);
    if from == n {
        return false;
    }
    let mut i: usize = from;
    while i < n
        invariant
            from <= i <= n,
            n == chars.len(),
            tail == chars@.skip(from as int),
            forall|j: int| 0 <= j < i - from ==> is_digit(#[trigger] tail[j]),
        decreases n - i,
    {
        if !digit(chars[i]) {
            proof {
                assert(tail[i - from] == chars@[i as int]);
            }
            return false;
        }
        i = i + 1;
    }
    true
}

/// Whether `c` is the lowercase letter `letter` or its capital.
fn letter_matches(c: char, letter: char) -> (ok: bool)
    ensures
        ok == same_letter(c, letter),
{
    c == letter || c as u64 + 32 == letter as u64
}

/// Whether `chars[from..]` spells the lowercase `word` in any mix of cases.
fn spells_from(chars: &Vec<char>, from: usize, word: &str) -> (ok: bool)
    requires
        from <= chars.len(),
    ensures
        ok == spells(chars@.skip(from as int), word@),
{
    let letters = chars_of(word);
    let n = chars.len();
    let ghost tail = chars@.skip(from as int);
    if n - from != letters.len() {
        return false;
    }
    let mut i: usize = 0;
    while i < letters.len()
        invariant
            from <= n,
            n == chars.len(),
            n - from == letters.len(),
            letters@ == word@,
            i <= letters.len(),
            tail == chars@.skip(from as int),
            forall|j: int| 0 <= j < i ==> same_letter(#[trigger] tail[j], letters@[j]),
        decreases letters.len() - i,
    {
        let c = chars[from + i];
        let letter = letters[i];
        proof {
            assert(tail[i as int] == c);
        }
        if !letter_matches(c, letter) {
            return false;
        }
        i = i + 1;
    }
    true
}

/// Whether `chars[from..]` is an exponent.
fn exponent_from(chars: &Vec<char>, from: usize) -> (ok: bool)
    requires
        from < chars.len(),
    ensures
        ok == is_exponent(chars@.skip(from as int)),
{
    let n = chars.len();
    let ghost tail = chars@.skip(from as int);
    proof {
        assert(tail[0] == chars@[from as int]);
        assert(tail.drop_first() =~= chars@.skip(from + 1));
    }
    let c = chars[from];
    if !(c == 'e' || c == 'E') {
        return false;
    }
    let digits_at: usize = if from + 1 < n && (chars[from + 1] == '+' || chars[from + 1] == '-') {
        from + 2
    } else {
        from + 1
    };
    proof {
        let after = chars@.skip(from + 1);
        if from + 1 < n {
            assert(after[0] == chars@[from + 1]);
        }
        assert(without_sign(after) =~= chars@.skip(digits_at as int));
    }
    digits_from(chars, digits_at)
}

/// Recognises the text of a real number.
pub fn is_real(s: &str) -> (ok: bool)
    ensures
        ok == is_real_text(s@),
{
    let chars = chars_of(s);
    let n = chars.len();
    let start: usize = if n > 0 && (chars[0] == '+' || chars[0] == '-') {
        1
    } else {
        0
    };
    let ghost body = chars@.skip(start as int);
    proof {
        assert(body =~= without_sign(s@));
    }
    if spells_from(&chars, start, "inf") || spells_from(&chars, start, "infinity") || spells_from(
        &chars,
        start,
        "nan",
    ) {
        return true;
    }
    let whole_end = skip_digits(&chars, start);
    proof {
        assert(body.skip(whole_end - start) =~= chars@.skip(whole_end as int));
        if whole_end < n {
            assert(chars@.skip(whole_end as int)[0] == chars@[whole_end as int]);
        }
    }
    if whole_end < n && chars[whole_end] == '.' {
        let fraction_end = skip_digits(&chars, whole_end + 1);
        proof {
            let rest = chars@.skip(whole_end as int);
            assert(rest.drop_first() =~= chars@.skip(whole_end + 1));
            assert(rest.skip(1 + (fraction_end - whole_end - 1)) =~= chars@.skip(
                fraction_end as int,
            ));
        }
        fraction_end - start > 1 && (fraction_end == n || exponent_from(&chars, fraction_end))
    } else {
        whole_end > start && (whole_end == n || exponent_from(&chars, whole_end))
    }
}

/// Parses a truth value.
pub fn parse_boolean(s: &str) -> (value: Option<bool>)
    ensures
        value == boolean_of(s@),
{
    if same_text(s, "true") {
        Some(true)
    } else if same_text(s, "false") {
        Some(false)
    } else {
        None
    }
}

} // verus!
