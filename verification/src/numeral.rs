//! Numbers written out in digits.

use vstd::prelude::*;
use vstd::arithmetic::div_mod::{lemma_div_decreases, lemma_fundamental_div_mod, lemma_mod_bound};
use crate::text::{blank, right_aligned};

verus! {

/// The character for the digit `d`: `0` to `9`, then `a` to `f`.
pub open spec fn digit(d: int) -> char {
    if d < 10 {
        (('0' as u8) + d) as char
    } else {
        (('a' as u8) + d - 10) as char
    }
}

/// Whether `c` is one of the sixteen digits.
pub open spec fn is_digit(c: char) -> bool {
    ('0' as u32) <= (c as u32) <= ('9' as u32) || ('a' as u32) <= (c as u32) <= ('f' as u32)
}

/// The number that the digit `c` stands for.
pub open spec fn digit_value(c: char) -> int {
    if (c as u32) < ('a' as u32) {
        (c as u32) - ('0' as u32)
    } else {
        (c as u32) - ('a' as u32) + 10
    }
}

/// The digits of `n` in base `base`, most significant first and without
/// leading zeros; zero is a single `0`.
pub open spec fn numeral(n: nat, base: nat) -> Seq<char>
    decreases n,
    via numeral_decreases
{
    if base < 2 || n < base {
        seq![digit(n as int)]
    } else {
        numeral(n / base, base).push(digit((n % base) as int))
    }
}

#[via_fn]
proof fn numeral_decreases(n: nat, base: nat) {
    if base >= 2 && n >= base {
        lemma_div_decreases(n as int, base as int);
    }
}

/// The decimal digits of `n`.
pub open spec fn decimal(n: nat) -> Seq<char> {
    numeral(n, 10)
}

/// The hexadecimal digits of `n`, in lower case.
pub open spec fn hexadecimal(n: nat) -> Seq<char> {
    numeral(n, 16)
}

/// The number that `digits` spell in base `base`, most significant first.
pub open spec fn numeral_value(digits: Seq<char>, base: nat) -> int
    decreases digits.len(),
{
    if digits.len() == 0 {
        0
    } else {
        numeral_value(digits.drop_last(), base) * base + digit_value(digits.last())
    }
}

/// The characters of digits that stand least significant first, most
/// significant first.
spec fn spelled(digits: Seq<u8>) -> Seq<char> {
    Seq::new(digits.len(), |i: int| digit(digits[digits.len() - 1 - i] as int))
}

/// The character of one digit.
fn digit_char(d: u8) -> (c: char)
    requires
        d < 16,
    ensures
        c == digit(d as int),
{
    if d < 10 {
        (('0' as u8) + d) as char
    } else {
        (('a' as u8) + (d - 10)) as char
    }
}

/// The digits of `n` in base `base`, least significant first.
fn digits_of(n: usize, base: usize) -> (digits: Vec<u8>)
    requires
        2 <= base <= 16,
    ensures
        spelled(digits@) == numeral(n as nat, base as nat),
        forall|i: int| 0 <= i < digits@.len() ==> (#[trigger] digits@[i]) < 16,
{
    let mut digits: Vec<u8> = Vec::new();
    let mut rest: usize = n;
    while rest >= base
        invariant
            2 <= base <= 16,
            numeral(rest as nat, base as nat) + spelled(digits@) == numeral(
                n as nat,
                base as nat,
            ),
            forall|i: int| 0 <= i < digits@.len() ==> (#[trigger] digits@[i]) < 16,
        decreases rest,
    {
        proof {
            lemma_div_decreases(rest as int, base as int);
            lemma_mod_bound(rest as int, base as int);
        }
        let ghost before = digits@;
        let low = (rest % base) as u8;
        digits.push(low);
        rest = rest / base;
        assert(spelled(digits@) =~= seq![digit(low as int)] + spelled(before));
        assert(numeral(rest as nat, base as nat) + spelled(digits@) =~= numeral(
            rest as nat,
            base as nat,
        ).push(digit(low as int)) + spelled(before));
    }
    let ghost before = digits@;
    digits.push(rest as u8);
    assert(spelled(digits@) =~= seq![digit(rest as int)] + spelled(before));
    digits
}

/// Appends the digits of `n` in base `base` to `text`, behind the spaces
/// that bring them to `width` characters.
pub(crate) fn push_numeral(text: &mut String, n: usize, base: usize, width: usize)
    requires
        2 <= base <= 16,
    ensures
        final(text)@ == old(text)@ + right_aligned(numeral(n as nat, base as nat), width as nat),
{
    let digits = digits_of(n, base);
    let ghost spelling = numeral(n as nat, base as nat);
    let mut columns: usize = digits.len();
    while columns < width
        invariant
            digits@.len() <= columns,
            columns <= width || columns == digits@.len(),
            spelling.len() == digits@.len(),
            text@ == old(text)@ + blank((columns - digits@.len()) as nat),
        decreases width - columns,
    {
        text.push(' ');
        columns = columns + 1;
        assert(text@ =~= old(text)@ + blank((columns - digits@.len()) as nat));
    }
    let ghost padded = text@;
    let mut left: usize = digits.len();
    while left > 0
        invariant
            left <= digits@.len(),
            spelling == spelled(digits@),
            forall|i: int| 0 <= i < digits@.len() ==> (#[trigger] digits@[i]) < 16,
            text@ == padded + spelling.take(digits@.len() - left),
        decreases left,
    {
        left = left - 1;
        let c = digit_char(digits[left]);
        text.push(c);
        assert(text@ =~= padded + spelling.take(digits@.len() - left));
    }
    assert(text@ =~= old(text)@ + right_aligned(spelling, width as nat));
}

/// A numeral is not empty and holds digits only.
pub proof fn lemma_numeral_digits(n: nat, base: nat)
    requires
        2 <= base <= 16,
    ensures
        numeral(n, base).len() >= 1,
        forall|i: int| 0 <= i < numeral(n, base).len() ==> is_digit(#[trigger] numeral(n, base)[i]),
    decreases n,
{
    if n >= base {
        lemma_div_decreases(n as int, base as int);
        lemma_mod_bound(n as int, base as int);
        lemma_numeral_digits(n / base, base);
    }
}

/// The digits of a number spell that number.
pub proof fn lemma_numeral_value(n: nat, base: nat)
    requires
        2 <= base <= 16,
    ensures
        numeral_value(numeral(n, base), base) == n,
    decreases n,
{
    if n < base {
        assert(numeral(n, base).drop_last() =~= Seq::<char>::empty());
        assert(numeral_value(Seq::<char>::empty(), base) == 0);
        assert(0 * base == 0) by (nonlinear_arith);
    } else {
        lemma_div_decreases(n as int, base as int);
        lemma_mod_bound(n as int, base as int);
        lemma_fundamental_div_mod(n as int, base as int);
        lemma_numeral_value(n / base, base);
        assert(numeral(n, base).drop_last() =~= numeral(n / base, base));
        assert((n / base) * base == base * (n / base)) by (nonlinear_arith);
    }
}

/// The digits of a number stand for no other number: two numbers with the
/// same digits are the same.
pub proof fn lemma_numeral_unambiguous(a: nat, b: nat, base: nat)
    requires
        2 <= base <= 16,
        numeral(a, base) == numeral(b, base),
    ensures
        a == b,
{
    lemma_numeral_value(a, base);
    lemma_numeral_value(b, base);
}

} // verus!
