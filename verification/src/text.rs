//! Fixed-point numbers written out in decimal, for display.

use crate::fixed::{
    grid_step, magnitude, magnitude_of, round_half_away, round_to, step_of, LIMIT, SCALE,
};
use thousands::Separable;
use vstd::prelude::*;
use vstd::string::StringExecFns;

verus! {

/// The character of a decimal digit.
pub open spec fn digit_char(digit: int) -> char {
    if digit == 0 {
        '0'
    } else if digit == 1 {
        '1'
    } else if digit == 2 {
        '2'
    } else if digit == 3 {
        '3'
    } else if digit == 4 {
        '4'
    } else if digit == 5 {
        '5'
    } else if digit == 6 {
        '6'
    } else if digit == 7 {
        '7'
    } else if digit == 8 {
        '8'
    } else {
        '9'
    }
}

/// The decimal digits of a whole number, the highest first.
pub open spec fn spec_digits(n: nat) -> Seq<char>
    decreases n,
{
    if n < 10 {
        seq![digit_char(n as int)]
    } else {
        spec_digits(n / 10).push(digit_char((n % 10) as int))
    }
}

/// The digits of a fraction from the place `decimal` on, up to the eighteenth, without
/// the zeros at the end. `fraction` counts steps of the grid and is less than one step
/// of the place before.
pub open spec fn spec_fraction_digits(fraction: nat, decimal: nat) -> Seq<char>
    decreases 19 - decimal,
{
    if fraction == 0 || decimal > 18 || decimal < 1 {
        Seq::empty()
    } else {
        seq![digit_char(fraction as int / grid_step(decimal as int))] + spec_fraction_digits(
            (fraction as int % grid_step(decimal as int)) as nat,
            decimal + 1,
        )
    }
}

/// A fixed-point number as text: a minus sign where it is negative, the whole part,
/// and, where there is a fraction, a point and the digits of the fraction without the
/// zeros at the end.
pub open spec fn spec_to_text(value: int) -> Seq<char> {
    let size = magnitude(value);
    let sign = if value < 0 {
        seq!['-']
    } else {
        Seq::empty()
    };
    let whole = spec_digits((size / (SCALE as int)) as nat);
    let fraction = size % (SCALE as int);
    if fraction == 0 {
        sign + whole
    } else {
        sign + whole + seq!['.'] + spec_fraction_digits(fraction as nat, 1)
    }
}

fn digit_text(digit: u128) -> (text: &'static str)
    requires
        digit < 10,
    ensures
        text@ == seq![digit_char(digit as int)],
{
    proof {
        reveal_strlit("0");
        reveal_strlit("1");
        reveal_strlit("2");
        reveal_strlit("3");
        reveal_strlit("4");
        reveal_strlit("5");
        reveal_strlit("6");
        reveal_strlit("7");
        reveal_strlit("8");
        reveal_strlit("9");
    }
    let text: &'static str = if digit == 0 {
        "0"
    } else if digit == 1 {
        "1"
    } else if digit == 2 {
        "2"
    } else if digit == 3 {
        "3"
    } else if digit == 4 {
        "4"
    } else if digit == 5 {
        "5"
    } else if digit == 6 {
        "6"
    } else if digit == 7 {
        "7"
    } else if digit == 8 {
        "8"
    } else {
        "9"
    };
    assert(text@ =~= seq![digit_char(digit as int)]);
    text
}

fn push_digits(text: &mut String, n: u128)
    ensures
        final(text)@ == old(text)@ + spec_digits(n as nat),
    decreases n,
{
    if n >= 10 {
        push_digits(text, n / 10);
    }
    text.append(digit_text(n % 10));
    assert(text@ =~= old(text)@ + spec_digits(n as nat));
}

fn push_fraction_digits(text: &mut String, fraction: u128, decimal: usize)
    requires
        1 <= decimal <= 19,
        fraction < grid_step(decimal as int - 1),
    ensures
        final(text)@ == old(text)@ + spec_fraction_digits(fraction as nat, decimal as nat),
    decreases 19 - decimal,
{
    if fraction == 0 || decimal > 18 {
        assert(text@ =~= old(text)@ + spec_fraction_digits(fraction as nat, decimal as nat));
        return ;
    }
    let step: u128 = step_of(decimal) as u128;
    text.append(digit_text(fraction / step));
    push_fraction_digits(text, fraction % step, decimal + 1);
    assert(text@ =~= old(text)@ + spec_fraction_digits(fraction as nat, decimal as nat));
}

/// Writes a fixed-point number out in decimal.
pub fn to_text(value: i128) -> (text: String)
    ensures
        text@ == spec_to_text(value as int),
{
    proof {
        reveal_strlit("-");
        reveal_strlit(".");
    }
    let size: u128 = magnitude_of(value);
    let mut text = String::new();
    if value < 0 {
        text.append("-");
    }
    push_digits(&mut text, size / 1_000_000_000_000_000_000);
    let fraction: u128 = size % 1_000_000_000_000_000_000;
    if fraction != 0 {
        text.append(".");
        push_fraction_digits(&mut text, fraction, 1);
    }
    assert(text@ =~= spec_to_text(value as int));
    text
}

/// Whether a character is one of the ten decimal digits.
pub open spec fn is_digit(c: char) -> bool {
    '0' <= c && c <= '9'
}

/// The place of the first decimal digit at or after `from`, the length of the text
/// where there is none.
pub open spec fn first_digit(text: Seq<char>, from: int) -> int
    decreases text.len() - from,
{
    if from < 0 || from >= text.len() {
        text.len() as int
    } else if is_digit(text[from]) {
        from
    } else {
        first_digit(text, from + 1)
    }
}

/// The place of the first character at or after `from` that is no decimal digit, the
/// length of the text where there is none.
pub open spec fn digits_end(text: Seq<char>, from: int) -> int
    decreases text.len() - from,
{
    if from < 0 || from >= text.len() {
        text.len() as int
    } else if !is_digit(text[from]) {
        from
    } else {
        digits_end(text, from + 1)
    }
}

/// A run of digits with a comma before every group of three, counted from the right.
pub open spec fn grouped(digits: Seq<char>) -> Seq<char>
    decreases digits.len(),
{
    if digits.len() <= 3 {
        digits
    } else {
        grouped(digits.subrange(0, digits.len() - 3)) + seq![','] + digits.subrange(
            digits.len() - 3,
            digits.len() as int,
        )
    }
}

/// The text with its first run of decimal digits grouped by commas, and the rest as it
/// was.
pub open spec fn spec_separate_with_commas(text: Seq<char>) -> Seq<char> {
    let start = first_digit(text, 0);
    let end = digits_end(text, start);
    text.subrange(0, start) + grouped(text.subrange(start, end)) + text.subrange(
        end,
        text.len() as int,
    )
}

/// `separate_with_commas` of the trait `Separable` of the crate `thousands`, on text.
/// Its contract is not proved here: it claims that the call looks for the first run of
/// the digits `0` to `9`, puts a comma before every group of three of them, counted
/// from the right end of the run, and leaves what stands before and after the run as
/// it is.
#[verifier::external_body]
fn separate_with_commas(text: &str) -> (separated: String)
    ensures
        separated@ == spec_separate_with_commas(text@),
{
    Separable::separate_with_commas(text)
}

/// A number as a text field shows it: rounded to four fractional digits, with commas
/// between the thousands, and the unit after it.
pub open spec fn spec_display_text(value: int, suffix: Seq<char>) -> Seq<char> {
    spec_separate_with_commas(spec_to_text(round_half_away(value, grid_step(4)))) + suffix
}

/// A number as a text field shows it, as in `1,234,567.8912 km`.
pub fn display_text(value: i128, suffix: &str) -> (text: String)
    requires
        -LIMIT <= value <= LIMIT,
    ensures
        text@ == spec_display_text(value as int, suffix@),
{
    let plain: String = to_text(round_to(value, 4));
    let mut text: String = separate_with_commas(plain.as_str());
    text.append(suffix);
    text
}

} // verus!
