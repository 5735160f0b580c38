//! Decimal numbers in text: the number that digits denote, and the digits
//! that denote a number.

use vstd::prelude::*;

verus! {

/// The decimal digits.
pub open spec fn is_digit(c: char) -> bool {
    '0' <= c && c <= '9'
}

/// Whether the text is made of decimal digits alone.
pub open spec fn all_digits(text: Seq<char>) -> bool {
    forall|i: int| 0 <= i < text.len() ==> is_digit(#[trigger] text[i])
}

/// The number that a run of decimal digits denotes.
pub open spec fn decimal_value(digits: Seq<char>) -> nat
    decreases digits.len(),
{
    if digits.len() == 0 {
        0
    } else {
        10 * decimal_value(digits.drop_last()) + (digits.last() as nat - '0' as nat) as nat
    }
}

/// The digit that denotes a number below ten.
pub open spec fn digit_char(digit: nat) -> char {
    ('0' as nat + digit) as char
}

/// The digits that denote a number, without a leading zero.
pub open spec fn decimal_text(value: nat) -> Seq<char>
    decreases value,
{
    if value < 10 {
        seq![digit_char(value)]
    } else {
        decimal_text(value / 10).push(digit_char(value % 10))
    }
}

/// No digit makes a number smaller: a number is at least what any of its
/// leading parts denotes.
pub proof fn lemma_decimal_value_grows(digits: Seq<char>, len: int)
    requires
        0 <= len <= digits.len(),
    ensures
        decimal_value(digits.take(len)) <= decimal_value(digits),
    decreases digits.len(),
{
    if len == digits.len() {
        assert(digits.take(len) =~= digits);
    } else {
        lemma_decimal_value_grows(digits.drop_last(), len);
        assert(digits.drop_last().take(len) =~= digits.take(len));
    }
}

/// Digits without a leading zero denote a positive number, and are the
/// digits that denote it.
pub proof fn lemma_decimal_text_of_value(digits: Seq<char>)
    requires
        digits.len() > 0,
        all_digits(digits),
        digits[0] != '0',
    ensures
        decimal_value(digits) > 0,
        decimal_text(decimal_value(digits)) == digits,
    decreases digits.len(),
{
    let front = digits.drop_last();
    let last = digits.last();
    let units = (last as nat - '0' as nat) as nat;
    assert(is_digit(digits[digits.len() - 1]));
    assert(units < 10);
    assert(digit_char(units) == last);
    if front.len() == 0 {
        assert(decimal_value(front) == 0);
        assert(digits[0] == last);
        assert(decimal_value(digits) == units);
        assert(decimal_text(units) =~= digits);
    } else {
        assert(front[0] == digits[0]);
        assert forall|i: int| 0 <= i < front.len() implies is_digit(#[trigger] front[i]) by {
            assert(front[i] == digits[i]);
        }
        lemma_decimal_text_of_value(front);
        let tens = decimal_value(front);
        let value = decimal_value(digits);
        assert(value == 10 * tens + units);
        assert(value / 10 == tens && value % 10 == units) by (nonlinear_arith)
            requires
                value == 10 * tens + units,
                units < 10,
        ;
        assert(decimal_text(value) =~= front.push(last));
        assert(front.push(last) =~= digits);
    }
}

/// Reads the decimal number that `chars[from..to]` denotes, if the machine
/// can hold it.
pub(crate) fn read_decimal(chars: &[char], from: usize, to: usize) -> (value: Option<usize>)
    requires
        from <= to <= chars.len(),
        all_digits(chars@.subrange(from as int, to as int)),
    ensures
        value == if decimal_value(chars@.subrange(from as int, to as int)) <= usize::MAX {
            Some(decimal_value(chars@.subrange(from as int, to as int)) as usize)
        } else {
            None
        },
{
    let ghost digits = chars@.subrange(from as int, to as int);
    let mut value: usize = 0;
    let mut at: usize = from;
    while at < to
        invariant
            from <= at <= to <= chars.len(),
            digits == chars@.subrange(from as int, to as int),
            all_digits(digits),
            value == decimal_value(digits.take(at - from)),
        decreases to - at,
    {
        let c = chars[at];
        assert(chars[at as int] == digits[at - from]);
        assert(is_digit(digits[at - from]));
        let digit: usize = (c as u32 - '0' as u32) as usize;
        proof {
            let longer = digits.take(at - from + 1);
            assert(longer.drop_last() =~= digits.take(at - from));
            assert(longer.last() == c);
            assert(decimal_value(longer) == 10 * value + digit);
            lemma_decimal_value_grows(digits, at - from + 1);
        }
        let scaled = match value.checked_mul(10) {
            Some(scaled) => scaled,
            None => {
                return None;
            },
        };
        value = match scaled.checked_add(digit) {
            Some(sum) => sum,
            None => {
                return None;
            },
        };
        at += 1;
    }
    assert(digits.take(to - from) =~= digits);
    Some(value)
}

} // verus!
