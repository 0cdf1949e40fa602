//! Sizes: how they are read, added up and shown.

use crate::text::{
    chars_of, debug_quoted, debug_text, decimal, decimal_text, digit_char, parse_number,
    parsed_number, text_of, trim, trimmed,
};
use vstd::prelude::*;
use vstd::slice::slice_subrange;
use vstd::string::*;

verus! {

/// The factor that the last character of a size stands for, where it is a
/// suffix.
pub open spec fn suffix_factor(c: char) -> Option<nat> {
    if c == 'K' || c == 'k' {
        Some(0x400)
    } else if c == 'M' || c == 'm' {
        Some(0x10_0000)
    } else if c == 'G' || c == 'g' {
        Some(0x4000_0000)
    } else if c == 'T' || c == 't' {
        Some(0x100_0000_0000)
    } else {
        None
    }
}

/// The number of a size, as text, and the factor that it is multiplied by.
pub open spec fn size_parts(s: Seq<char>) -> (Seq<char>, nat) {
    let t = trimmed(s);
    if t.len() > 0 && suffix_factor(t.last()) is Some {
        (trimmed(t.drop_last()), suffix_factor(t.last())->0)
    } else {
        (trimmed(t), 1)
    }
}

/// The bytes that a size states, however many; `None` where it states none.
pub open spec fn stated_size(s: Seq<char>) -> Option<nat> {
    let (number, factor) = size_parts(s);
    match parsed_number(number, u64::MAX as nat) {
        Some(n) => Some(n * factor),
        None => None,
    }
}

fn factor_of(c: char) -> (r: Option<u64>)
    ensures
        r is Some <==> suffix_factor(c) is Some,
        r matches Some(f) ==> suffix_factor(c) == Some(f as nat) && 0 < f <= 0x100_0000_0000,
{
    if c == 'K' || c == 'k' {
        Some(0x400)
    } else if c == 'M' || c == 'm' {
        Some(0x10_0000)
    } else if c == 'G' || c == 'g' {
        Some(0x4000_0000)
    } else if c == 'T' || c == 't' {
        Some(0x100_0000_0000)
    } else {
        None
    }
}

fn read_size(s: &str) -> (r: Option<(u64, u64)>)
    ensures
        r is Some <==> stated_size(s@) is Some,
        r matches Some((n, factor)) ==> 0 < factor <= 0x100_0000_0000 && stated_size(s@) == Some(
            (n * factor) as nat,
        ),
{
    let chars = chars_of(s);
    let t = trim(chars.as_slice());
    let n: usize = t.len();
    let mut factor: u64 = 1;
    let mut number = t;
    if n > 0 {
        if let Some(f) = factor_of(t[n - 1]) {
            factor = f;
            number = slice_subrange(t, 0, n - 1);
            assert(number@ =~= t@.drop_last());
        }
    }
    match parse_number(trim(number), 0xffff_ffff_ffff_ffff) {
        Some(n) => Some((n, factor)),
        None => None,
    }
}

/// "500M", "1G" or "1024" to bytes. More bytes than can be counted are an error, as
/// a text that states no size is.
pub fn parse_size(s: &str) -> (r: Result<u64, String>)
    ensures
        r is Ok <==> (stated_size(s@) matches Some(n) && n <= u64::MAX),
        r matches Ok(n) ==> stated_size(s@) == Some(n as nat),
        r matches Err(e) ==> e@ == "unparseable size "@ + debug_text(trimmed(s@)),
{
    if let Some((n, factor)) = read_size(s) {
        if let Some(size) = n.checked_mul(factor) {
            return Ok(size);
        }
    }
    let chars = chars_of(s);
    let mut e = "unparseable size ".to_owned();
    e.append(debug_quoted(text_of(trim(chars.as_slice())).as_str()).as_str());
    Err(e)
}

/// The sum of sizes.
pub open spec fn sum_of(sizes: Seq<u64>) -> nat
    decreases sizes.len(),
{
    if sizes.len() == 0 {
        0
    } else {
        sum_of(sizes.drop_last()) + sizes.last() as nat
    }
}

proof fn lemma_sum_grows(sizes: Seq<u64>, n: int)
    requires
        0 <= n <= sizes.len(),
    ensures
        sum_of(sizes.take(n)) <= sum_of(sizes),
    decreases sizes.len() - n,
{
    if n < sizes.len() {
        lemma_sum_grows(sizes, n + 1);
        assert(sizes.take(n + 1).drop_last() =~= sizes.take(n));
    } else {
        assert(sizes.take(n) =~= sizes);
    }
}

/// The sum of sizes, or `None` where it is more than can be counted.
pub fn total(sizes: &[u64]) -> (r: Option<u64>)
    ensures
        r is Some <==> sum_of(sizes@) <= u64::MAX,
        r matches Some(sum) ==> sum == sum_of(sizes@),
{
    let mut sum: u64 = 0;
    let mut i: usize = 0;
    assert(sizes@.take(0) =~= seq![]);
    while i < sizes.len()
        invariant
            i <= sizes@.len(),
            sum == sum_of(sizes@.take(i as int)),
        decreases sizes@.len() - i,
    {
        proof {
            assert(sizes@.take(i + 1).drop_last() =~= sizes@.take(i as int));
            lemma_sum_grows(sizes@, i + 1);
        }
        match sum.checked_add(sizes[i]) {
            Some(more) => {
                sum = more;
            },
            None => return None,
        }
        i += 1;
    }
    assert(sizes@.take(sizes@.len() as int) =~= sizes@);
    Some(sum)
}

/// `n / d` rounded to the nearest whole number; halfway to the even one.
pub open spec fn round_half_even(n: nat, d: nat) -> nat {
    let q = n / d;
    let r = n % d;
    if 2 * r < d || (2 * r == d && q % 2 == 0) {
        q
    } else {
        q + 1
    }
}

/// The distance between neighbours, near `b`, of the numbers with 53
/// significant bits.
pub open spec fn spacing(b: nat) -> nat
    decreases b,
{
    if b < 0x20_0000_0000_0000 {
        1
    } else {
        2 * spacing(b / 2)
    }
}

/// `b` to 53 significant bits.
pub open spec fn to_53_bits(b: nat) -> nat {
    round_half_even(b, spacing(b)) * spacing(b)
}

/// How many times a size is divided by 1024 to be shown: until it is below, at
/// most four times.
pub open spec fn unit_steps(b: nat) -> nat {
    if b < 0x400 {
        0
    } else if b < 0x10_0000 {
        1
    } else if b < 0x4000_0000 {
        2
    } else if b < 0x100_0000_0000 {
        3
    } else {
        4
    }
}

/// The number of bytes in a unit.
pub open spec fn unit_size(steps: nat) -> nat {
    if steps == 0 {
        1
    } else if steps == 1 {
        0x400
    } else if steps == 2 {
        0x10_0000
    } else if steps == 3 {
        0x4000_0000
    } else {
        0x100_0000_0000
    }
}

/// The letter of a unit.
pub open spec fn unit_letter(steps: nat) -> char {
    if steps == 0 {
        'B'
    } else if steps == 1 {
        'K'
    } else if steps == 2 {
        'M'
    } else if steps == 3 {
        'G'
    } else {
        'T'
    }
}

/// A size for people: whole bytes below 1024, else in the largest unit that it
/// fills, to one decimal, the size being taken to 53 significant bits first.
pub open spec fn human_text(b: u64) -> Seq<char> {
    let exact = to_53_bits(b as nat);
    let steps = unit_steps(exact);
    if steps == 0 {
        decimal_text(b as nat).push('B')
    } else {
        let tenths = round_half_even(10 * exact, unit_size(steps));
        decimal_text(tenths / 10).push('.').push(digit_char((tenths % 10) as int)).push(
            unit_letter(steps),
        )
    }
}

fn divide_half_even(n: u128, d: u128) -> (r: u128)
    requires
        0 < d <= 0x1_0000_0000_0000_0000,
        n < 0x1_0000_0000_0000_0000_0000,
    ensures
        r == round_half_even(n as nat, d as nat),
{
    let q: u128 = n / d;
    let rest: u128 = n % d;
    if 2 * rest < d || (2 * rest == d && q % 2 == 0) {
        q
    } else {
        q + 1
    }
}

proof fn lemma_spacing_bound(b: nat, k: nat)
    requires
        b < 0x20_0000_0000_0000 * pow2(k),
    ensures
        1 <= spacing(b) <= pow2(k),
    decreases k,
{
    if b >= 0x20_0000_0000_0000 {
        if k > 0 {
            lemma_spacing_bound(b / 2, (k - 1) as nat);
        }
    } else {
        lemma_pow2_positive(k);
    }
}

proof fn lemma_pow2_positive(k: nat)
    ensures
        pow2(k) >= 1,
    decreases k,
{
    if k > 0 {
        lemma_pow2_positive((k - 1) as nat);
    }
}

/// 2 to the power of `k`.
spec fn pow2(k: nat) -> nat
    decreases k,
{
    if k == 0 {
        1
    } else {
        2 * pow2((k - 1) as nat)
    }
}

fn spacing_of(b: u64) -> (r: u64)
    ensures
        r == spacing(b as nat),
        1 <= r <= 0x800,
    decreases b,
{
    proof {
        reveal_with_fuel(pow2, 12);
        lemma_spacing_bound(b as nat, 11);
    }
    if b < 0x20_0000_0000_0000 {
        1
    } else {
        2 * spacing_of(b / 2)
    }
}

/// A size for people.
pub fn human_bytes(b: u64) -> (r: String)
    ensures
        r@ == human_text(b),
{
    let ulp: u64 = spacing_of(b);
    let ghost whole = round_half_even(b as nat, ulp as nat);
    proof {
        assert(whole <= b as nat / ulp as nat + 1);
        assert((b as nat / ulp as nat) * ulp as nat <= b as nat) by (nonlinear_arith)
            requires
                ulp > 0,
        ;
        assert(whole * ulp as nat <= b as nat + ulp as nat) by (nonlinear_arith)
            requires
                whole <= b as nat / ulp as nat + 1,
                (b as nat / ulp as nat) * ulp as nat <= b as nat,
        ;
    }
    let exact: u128 = divide_half_even(b as u128, ulp as u128) * ulp as u128;
    assert(exact == to_53_bits(b as nat));
    if exact < 0x400 {
        let mut out = decimal(b);
        out.push('B');
        return out;
    }
    let ghost steps = unit_steps(exact as nat);
    let (unit, letter): (u128, char) = if exact < 0x10_0000 {
        (0x400, 'K')
    } else if exact < 0x4000_0000 {
        (0x10_0000, 'M')
    } else if exact < 0x100_0000_0000 {
        (0x4000_0000, 'G')
    } else {
        (0x100_0000_0000, 'T')
    };
    assert(steps > 0 && unit == unit_size(steps) && letter == unit_letter(steps));
    let tenths: u128 = divide_half_even(10 * exact, unit);
    assert(tenths == round_half_even(10 * exact as nat, unit_size(steps)));
    assert(tenths <= (10 * exact) / (unit as int) + 1);
    assert(tenths / 10 <= u64::MAX);
    with_tenths((tenths / 10) as u64, (tenths % 10) as u64, letter)
}

/// A number with one decimal and a letter.
fn with_tenths(whole: u64, tenth: u64, letter: char) -> (r: String)
    requires
        tenth < 10,
    ensures
        r@ == decimal_text(whole as nat).push('.').push(digit_char(tenth as int)).push(letter),
{
    let mut out = decimal(whole);
    out.push('.');
    let ghost before = out@;
    out.append(decimal(tenth).as_str());
    assert(decimal_text(tenth as nat) == seq![digit_char(tenth as int)]);
    assert(out@ =~= before.push(digit_char(tenth as int)));
    out.push(letter);
    out
}

} // verus!
