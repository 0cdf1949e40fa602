//! Magnitudes: sizes as they are stated, and as they are shown.

use crate::laws::texts::{trimming_leaves_what_is_between, trimming_takes_white_space};
use crate::sizes::{
    human_text, round_half_even, spacing, stated_size, suffix_factor, to_53_bits, unit_letter,
    unit_size, unit_steps,
};
use crate::text::{
    decimal_reads_back, decimal_text, is_digit, is_space, lemma_decimal_digits, parsed_number,
    trimmed,
};
use vstd::prelude::*;

verus! {

/// A size is a number, and a letter for how many: K, M, G and T, large or small, are 2^10, 2^20, 2^30
/// and 2^40. White space around it, and before the letter, does not matter.
pub proof fn sizes_are_numbers_and_letters(
    before: Seq<char>,
    n: nat,
    between: Seq<char>,
    c: char,
    after: Seq<char>,
)
    requires
        n <= u64::MAX,
        forall|i: int| 0 <= i < before.len() ==> is_space(#[trigger] before[i]),
        forall|i: int| 0 <= i < between.len() ==> is_space(#[trigger] between[i]),
        forall|i: int| 0 <= i < after.len() ==> is_space(#[trigger] after[i]),
    ensures
        stated_size(before + decimal_text(n) + after) == Some(n),
        c == 'K' || c == 'k' ==> stated_size(
            before + (decimal_text(n) + between).push(c) + after,
        ) == Some(n * 1024),
        c == 'M' || c == 'm' ==> stated_size(
            before + (decimal_text(n) + between).push(c) + after,
        ) == Some(n * 1_048_576),
        c == 'G' || c == 'g' ==> stated_size(
            before + (decimal_text(n) + between).push(c) + after,
        ) == Some(n * 1_073_741_824),
        c == 'T' || c == 't' ==> stated_size(
            before + (decimal_text(n) + between).push(c) + after,
        ) == Some(n * 1_099_511_627_776),
{
    let number = decimal_text(n);
    lemma_decimal_digits(n);
    assert(is_digit(number[0]) && is_digit(number[number.len() - 1]));
    let none = Seq::<char>::empty();
    trimming_leaves_what_is_between(before, number, after);
    trimming_leaves_what_is_between(none, number, none);
    assert(none + number + none =~= number);
    decimal_reads_back(n, u64::MAX as nat);
    assert(suffix_factor(number.last()) is None);
    assert(n * 1 == n) by (nonlinear_arith);
    if suffix_factor(c) is Some {
        let body = (number + between).push(c);
        assert(body[0] == number[0]);
        assert(!is_space(c));
        trimming_leaves_what_is_between(before, body, after);
        assert(body.drop_last() =~= number + between);
        trimming_leaves_what_is_between(none, number, between);
        assert(none + number + between =~= number + between);
    }
}

/// To round is to take the nearest whole number, and of two the even one.
pub proof fn rounding_is_to_the_nearest(n: nat, d: nat)
    requires
        d > 0,
    ensures
        ({
            let q = round_half_even(n, d);
            &&& 2 * (q * d) <= 2 * n + d
            &&& 2 * n <= 2 * (q * d) + d
            &&& 2 * (q * d) == 2 * n + d || 2 * n == 2 * (q * d) + d ==> q % 2 == 0
        }),
{
    let q = n / d;
    let r = n % d;
    assert(n == q * d + r && r < d) by (nonlinear_arith)
        requires
            d > 0,
            q == n / d,
            r == n % d,
    ;
    assert((q + 1) * d == q * d + d) by (nonlinear_arith);
}

/// Numbers of up to 53 bits are exact; a larger one is within half of the spacing there.
pub proof fn numbers_have_53_bits(b: nat)
    ensures
        b < 0x20_0000_0000_0000 ==> to_53_bits(b) == b && spacing(b) == 1,
        to_53_bits(b) == round_half_even(b, spacing(b)) * spacing(b),
        spacing(b) >= 1,
        b >= 0x20_0000_0000_0000 ==> spacing(b) == 2 * spacing(b / 2),
        2 * to_53_bits(b) <= 2 * b + spacing(b),
        2 * b <= 2 * to_53_bits(b) + spacing(b),
        to_53_bits(b) % spacing(b) == 0,
{
    lemma_spacing(b);
    rounding_is_to_the_nearest(b, spacing(b));
    let q = round_half_even(b, spacing(b));
    let d = spacing(b);
    assert((q * d) % d == 0) by (nonlinear_arith)
        requires
            d >= 1,
    ;
    if b < 0x20_0000_0000_0000 {
        assert(b % 1 == 0 && b / 1 == b);
        assert(q * 1 == q) by (nonlinear_arith);
    }
}

proof fn lemma_spacing(b: nat)
    ensures
        spacing(b) >= 1,
    decreases b,
{
    if b >= 0x20_0000_0000_0000 {
        lemma_spacing(b / 2);
    }
}

/// A size is shown in the largest unit that it reaches, to the nearest tenth; bytes are shown whole.
pub proof fn sizes_are_shown_in_units(b: u64)
    ensures
        b < 1024 ==> human_text(b) == decimal_text(b as nat).push('B'),
        1024 <= b < 1_048_576 ==> shows(human_text(b), b as nat, 1024, 'K'),
        1_048_576 <= b < 1_073_741_824 ==> shows(human_text(b), b as nat, 1_048_576, 'M'),
        1_073_741_824 <= b < 1_099_511_627_776 ==> shows(
            human_text(b),
            b as nat,
            1_073_741_824,
            'G',
        ),
        1_099_511_627_776 <= b < 0x20_0000_0000_0000 ==> shows(
            human_text(b),
            b as nat,
            1_099_511_627_776,
            'T',
        ),
        b >= 0x20_0000_0000_0000 ==> shows(
            human_text(b),
            to_53_bits(b as nat),
            1_099_511_627_776,
            'T',
        ),
{
    let exact = to_53_bits(b as nat);
    numbers_have_53_bits(b as nat);
    if b >= 0x20_0000_0000_0000 {
        lemma_spacing_is_small(b as nat);
    }
    if unit_steps(exact) > 0 {
        let unit = unit_size(unit_steps(exact));
        let tenths = round_half_even(10 * exact, unit);
        rounding_is_to_the_nearest(10 * exact, unit);
        assert(human_text(b) =~= tenths_text(tenths, unit_letter(unit_steps(exact))));
        assert(shows(human_text(b), exact, unit, unit_letter(unit_steps(exact)))) by {
            assert(is_shown_by(human_text(b), exact, unit, unit_letter(unit_steps(exact)), tenths));
        }
    }
}

proof fn lemma_spacing_is_small(b: nat)
    requires
        b >= 0x20_0000_0000_0000,
    ensures
        spacing(b) <= b,
    decreases b,
{
    if b / 2 >= 0x20_0000_0000_0000 {
        lemma_spacing_is_small(b / 2);
    } else {
        assert(spacing(b / 2) == 1);
    }
    assert(spacing(b) == 2 * spacing(b / 2));
}

/// Tenths of a unit: the whole ones, a point, the tenth, the letter of the unit.
pub open spec fn tenths_text(tenths: nat, letter: char) -> Seq<char> {
    decimal_text(tenths / 10) + seq!['.', ((0x30 + tenths % 10) as char), letter]
}

/// The text shows a number as so many tenths, the nearest to it, of two the even.
pub open spec fn is_shown_by(s: Seq<char>, b: nat, unit: nat, letter: char, tenths: nat) -> bool {
    &&& s == tenths_text(tenths, letter)
    &&& 2 * (tenths * unit) <= 20 * b + unit
    &&& 20 * b <= 2 * (tenths * unit) + unit
    &&& 2 * (tenths * unit) == 20 * b + unit || 20 * b == 2 * (tenths * unit) + unit ==> tenths % 2
        == 0
}

/// The text shows a number in tenths of a unit.
pub open spec fn shows(s: Seq<char>, b: nat, unit: nat, letter: char) -> bool {
    exists|tenths: nat| is_shown_by(s, b, unit, letter, tenths)
}

/// What stands before the letter is a number or nothing is stated, however the number is written;
/// and so is what stands without a letter.
pub proof fn sizes_are_stated_by_numbers(
    before: Seq<char>,
    t: Seq<char>,
    between: Seq<char>,
    c: char,
    after: Seq<char>,
)
    requires
        forall|i: int| 0 <= i < before.len() ==> is_space(#[trigger] before[i]),
        forall|i: int| 0 <= i < between.len() ==> is_space(#[trigger] between[i]),
        forall|i: int| 0 <= i < after.len() ==> is_space(#[trigger] after[i]),
        t.len() > 0,
        !is_space(t[0]),
        !is_space(t.last()),
    ensures
        ({
            let n = parsed_number(t, u64::MAX as nat);
            let last = t.last();
            let stated = stated_size(before + (t + between).push(c) + after);
            &&& last != 'K' && last != 'k' && last != 'M' && last != 'm' && last != 'G' && last
                != 'g' && last != 'T' && last != 't' ==> stated_size(before + t + after) == n
            &&& c == 'K' || c == 'k' || c == 'M' || c == 'm' || c == 'G' || c == 'g' || c == 'T'
                || c == 't' ==> (n is None ==> stated is None)
            &&& n is Some && (c == 'K' || c == 'k') ==> stated == Some(n->0 * 1024)
            &&& n is Some && (c == 'M' || c == 'm') ==> stated == Some(n->0 * 1_048_576)
            &&& n is Some && (c == 'G' || c == 'g') ==> stated == Some(n->0 * 1_073_741_824)
            &&& n is Some && (c == 'T' || c == 't') ==> stated == Some(n->0 * 1_099_511_627_776)
        }),
        stated_size(before) is None,
        suffix_factor(c) is Some ==> stated_size(before + seq![c] + after) is None,
{
    let none = Seq::<char>::empty();
    trimming_leaves_what_is_between(before, t, after);
    trimming_leaves_what_is_between(none, t, none);
    assert(none + t + none =~= t);
    let n = parsed_number(t, u64::MAX as nat);
    if n is Some {
        assert(n->0 * 1 == n->0) by (nonlinear_arith);
    }
    trimming_takes_white_space(before);
    trimming_takes_white_space(none);
    assert(trimmed(before) =~= none);
    assert(trimmed(none) =~= none);
    if suffix_factor(c) is Some {
        let body = (t + between).push(c);
        assert(body[0] == t[0]);
        assert(!is_space(c));
        trimming_leaves_what_is_between(before, body, after);
        assert(body.drop_last() =~= t + between);
        trimming_leaves_what_is_between(none, t, between);
        assert(none + t + between =~= t + between);
        trimming_leaves_what_is_between(before, seq![c], after);
        assert(seq![c].drop_last() =~= none);
    }
}

} // verus!
