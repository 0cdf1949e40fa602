//! Texts: trimming, numbers, starts and ends.

use crate::text::{
    bracketed, decimal_text, digits_value, first_word_of, hex_char, is_digit, is_space,
    joined_texts, lemma_decimal_digits, number_list, padded_left, padded_right, parsed_number,
    replaced, text_ends_with, text_starts_with, trimmed, trimmed_end, trimmed_start, until_char,
    until_space, without_prefixes, without_suffixes,
};
use vstd::prelude::*;

verus! {

/// What is between white space is what is left of it, whatever the white space is.
pub proof fn trimming_leaves_what_is_between(before: Seq<char>, s: Seq<char>, after: Seq<char>)
    requires
        forall|i: int| 0 <= i < before.len() ==> is_space(#[trigger] before[i]),
        forall|i: int| 0 <= i < after.len() ==> is_space(#[trigger] after[i]),
        s.len() > 0,
        !is_space(s[0]),
        !is_space(s.last()),
    ensures
        trimmed(before + s + after) == s,
{
    let all = before + s + after;
    trimming_takes_white_space(all);
    let m = before.len() as int;
    let n = m + s.len();
    assert(all[m] == s[0]);
    assert(all[n - 1] == s.last());
    let (a, b) = choose|a: int, b: int|
        0 <= a < b <= all.len() && trimmed(all) == #[trigger] all.subrange(a, b) && !is_space(
            all[a],
        ) && !is_space(all[b - 1]) && (forall|i: int|
            0 <= i < a || b <= i < all.len() ==> is_space(#[trigger] all[i]));
    if a < m {
        assert(all[a] == before[a]);
    }
    if b > n {
        assert(all[b - 1] == after[b - 1 - n]);
    }
    assert(all.subrange(m, n) =~= s);
}

/// Trimming takes white space off both ends, and nothing else.
pub proof fn trimming_takes_white_space(s: Seq<char>)
    ensures
        trimmed(s).len() == 0 <==> forall|i: int| 0 <= i < s.len() ==> is_space(#[trigger] s[i]),
        trimmed(s).len() > 0 ==> exists|a: int, b: int|
            0 <= a < b <= s.len() && trimmed(s) == #[trigger] s.subrange(a, b) && !is_space(s[a])
                && !is_space(s[b - 1]) && (forall|i: int|
                0 <= i < a || b <= i < s.len() ==> is_space(#[trigger] s[i])),
{
    let t = trimmed_start(s);
    let a = lemma_trimmed_start(s);
    let b = lemma_trimmed_end(t);
    if b > 0 {
        assert(a < s.len());
        assert(trimmed(s) =~= s.subrange(a, a + b));
        assert(t[0] == s[a]);
        assert(t[b - 1] == s[a + b - 1]);
        assert forall|i: int| 0 <= i < a || a + b <= i < s.len() implies is_space(
            #[trigger] s[i],
        ) by {
            if i >= a + b {
                assert(t[i - a] == s[i]);
            }
        }
    } else {
        assert forall|i: int| 0 <= i < s.len() implies is_space(#[trigger] s[i]) by {
            if i >= a {
                assert(t[i - a] == s[i]);
            }
        }
    }
}

proof fn lemma_trimmed_start(s: Seq<char>) -> (a: int)
    ensures
        0 <= a <= s.len(),
        trimmed_start(s) == s.skip(a),
        forall|i: int| 0 <= i < a ==> is_space(#[trigger] s[i]),
        a < s.len() ==> !is_space(s[a]),
    decreases s.len(),
{
    if s.len() > 0 && is_space(s[0]) {
        let rest = s.skip(1);
        let a = lemma_trimmed_start(rest);
        assert(rest.skip(a) =~= s.skip(a + 1));
        assert forall|i: int| 0 <= i < a + 1 implies is_space(#[trigger] s[i]) by {
            if i > 0 {
                assert(s[i] == rest[i - 1]);
            }
        }
        if a < rest.len() {
            assert(rest[a] == s[a + 1]);
        }
        a + 1
    } else {
        assert(s.skip(0) =~= s);
        0
    }
}

proof fn lemma_trimmed_end(s: Seq<char>) -> (b: int)
    ensures
        0 <= b <= s.len(),
        trimmed_end(s) == s.take(b),
        forall|i: int| b <= i < s.len() ==> is_space(#[trigger] s[i]),
        b > 0 ==> !is_space(s[b - 1]),
    decreases s.len(),
{
    if s.len() > 0 && is_space(s.last()) {
        let rest = s.drop_last();
        let b = lemma_trimmed_end(rest);
        assert(rest.take(b) =~= s.take(b));
        assert forall|i: int| b <= i < s.len() implies is_space(#[trigger] s[i]) by {
            if i < rest.len() {
                assert(s[i] == rest[i]);
            }
        }
        if b > 0 {
            assert(rest[b - 1] == s[b - 1]);
        }
        b
    } else {
        assert(s.take(s.len() as int) =~= s);
        s.len() as int
    }
}

/// Blanks, tabs and ends of lines are white space; what is printed in ASCII is not.
pub proof fn white_space_in_ascii(c: char)
    requires
        c as int <= 0x7f,
    ensures
        c == ' ' || c == '\t' || c == '\n' || c == '\r' ==> is_space(c),
        0x21 <= c as int ==> !is_space(c),
{
}

/// A number is written by its digits, the last of them last, without a zero in front.
pub proof fn numbers_are_written_in_decimal(n: nat, d: nat)
    requires
        d < 10,
    ensures
        n < 10 ==> decimal_text(n) == seq![(0x30 + n) as char],
        n > 0 ==> decimal_text(10 * n + d) == decimal_text(n).push((0x30 + d) as char),
        n > 0 ==> decimal_text(n)[0] != '0',
    decreases n,
{
    if n >= 10 {
        numbers_are_written_in_decimal(n / 10, n % 10);
        lemma_decimal_digits(n / 10);
    }
    assert((10 * n + d) / 10 == n && (10 * n + d) % 10 == d) by (nonlinear_arith)
        requires
            d < 10,
    ;
}

/// Digits are read as the number that they are written for; each one more counts ten times those
/// before it.
pub proof fn digits_are_read_in_decimal(s: Seq<char>, d: int)
    requires
        0 <= d < 10,
    ensures
        digits_value(seq![]) == 0,
        digits_value(s.push((0x30 + d) as char)) == 10 * digits_value(s) + d,
{
    assert(s.push((0x30 + d) as char).drop_last() =~= s);
}

/// A number is read where there are digits, one at least and nothing else but a plus in front, and
/// it is not too large.
pub proof fn numbers_are_read(s: Seq<char>, max: nat)
    ensures
        s.len() > 0 && (forall|i: int| 0 <= i < s.len() ==> '0' <= #[trigger] s[i] <= '9') && digits_value(
            s,
        ) <= max ==> parsed_number(s, max) == Some(digits_value(s)) && parsed_number(
            seq!['+'] + s,
            max,
        ) == Some(digits_value(s)),
        parsed_number(s, max) matches Some(n) ==> n <= max,
        (exists|i: int| 1 <= i < s.len() && !('0' <= #[trigger] s[i] <= '9')) ==> parsed_number(
            s,
            max,
        ) is None,
        s.len() == 0 || (s[0] != '+' && !('0' <= s[0] <= '9')) ==> parsed_number(s, max) is None,
        parsed_number(seq!['+'], max) is None,
{
    let plus = seq!['+'] + s;
    assert(plus.skip(1) =~= s);
    assert(seq!['+'].skip(1) =~= seq![]);
    if s.len() > 0 && forall|i: int| 0 <= i < s.len() ==> '0' <= #[trigger] s[i] <= '9' {
        assert('0' <= s[0] <= '9');
        assert(s[0] != '+');
    }
    if exists|i: int| 1 <= i < s.len() && !('0' <= #[trigger] s[i] <= '9') {
        let i = choose|i: int| 1 <= i < s.len() && !('0' <= #[trigger] s[i] <= '9');
        if s[0] == '+' {
            assert(s.skip(1)[i - 1] == s[i]);
            assert(!is_digit(s.skip(1)[i - 1]));
        } else {
            assert(!is_digit(s[i]));
        }
    }
    if s.len() > 0 && s[0] != '+' && !('0' <= s[0] <= '9') {
        assert(!is_digit(s[0]));
    }
}

/// Texts are joined with the separator between them, in order.
pub proof fn texts_are_joined(parts: Seq<Seq<char>>, part: Seq<char>, separator: Seq<char>)
    ensures
        joined_texts(seq![], separator).len() == 0,
        joined_texts(seq![part], separator) == part,
        parts.len() > 0 ==> joined_texts(parts.push(part), separator) == joined_texts(
            parts,
            separator,
        ) + separator + part,
{
    assert(parts.push(part).drop_last() =~= parts);
}

/// Numbers stand in brackets, with a comma and a blank between them.
pub proof fn numbers_are_bracketed(numbers: Seq<u32>, n: u32)
    ensures
        bracketed(numbers) == "["@ + number_list(numbers) + "]"@,
        number_list(seq![]).len() == 0,
        number_list(seq![n]) == decimal_text(n as nat),
        numbers.len() > 0 ==> number_list(numbers.push(n)) == number_list(numbers) + ", "@
            + decimal_text(n as nat),
{
    assert(numbers.push(n).drop_last() =~= numbers);
}

/// A text is padded with blanks to a width, on one side; one that is as wide stays as it is.
pub proof fn texts_are_padded(s: Seq<char>, width: int)
    requires
        width >= 0,
    ensures
        s.len() >= width ==> padded_left(s, width) == s && padded_right(s, width) == s,
        s.len() < width ==> padded_left(s, width).len() == width && padded_right(s, width).len()
            == width,
        padded_right(s, width).take(s.len() as int) == s,
        padded_left(s, width).skip(padded_left(s, width).len() - s.len()) == s,
        forall|i: int|
            s.len() <= i < padded_right(s, width).len() ==> #[trigger] padded_right(s, width)[i]
                == ' ',
        forall|i: int|
            0 <= i < padded_left(s, width).len() - s.len() ==> #[trigger] padded_left(s, width)[i]
                == ' ',
{
    assert(padded_right(s, width).take(s.len() as int) =~= s);
    assert(padded_left(s, width).skip(padded_left(s, width).len() - s.len()) =~= s);
    if s.len() >= width {
        assert(padded_left(s, width) =~= s);
        assert(padded_right(s, width) =~= s);
    }
}

/// What stands before a character, or everything where it does not occur.
pub proof fn up_to_a_character(s: Seq<char>, stop: char)
    ensures
        ({
            let n = until_char(s, stop).len() as int;
            &&& n <= s.len()
            &&& until_char(s, stop) == s.take(n)
            &&& forall|i: int| 0 <= i < n ==> s[i] != stop
            &&& n < s.len() ==> s[n] == stop
        }),
    decreases s.len(),
{
    if s.len() > 0 && s[0] != stop {
        let rest = s.skip(1);
        up_to_a_character(rest, stop);
        let n = until_char(s, stop).len() as int;
        assert(until_char(s, stop) =~= s.take(n));
        assert forall|i: int| 0 <= i < n implies s[i] != stop by {
            if i > 0 {
                assert(s[i] == rest[i - 1]);
            }
        }
        if n < s.len() {
            assert(s[n] == rest[n - 1]);
        }
    } else {
        assert(until_char(s, stop) =~= s.take(0));
    }
}

/// The first word is what stands before white space, after the white space in front.
pub proof fn first_words(before: Seq<char>, word: Seq<char>, rest: Seq<char>)
    requires
        forall|i: int| 0 <= i < before.len() ==> is_space(#[trigger] before[i]),
        forall|i: int| 0 <= i < word.len() ==> !is_space(#[trigger] word[i]),
        word.len() > 0,
        rest.len() == 0 || is_space(rest[0]),
    ensures
        first_word_of(before + word + rest) == word,
{
    let all = before + word + rest;
    let a = lemma_trimmed_start(all);
    let m = before.len() as int;
    assert(all[m] == word[0]);
    if a < m {
        assert(all[a] == before[a]);
    }
    assert(a == m);
    assert(all.skip(m) =~= word + rest);
    lemma_until_space(word, rest);
}

proof fn lemma_until_space(word: Seq<char>, rest: Seq<char>)
    requires
        forall|i: int| 0 <= i < word.len() ==> !is_space(#[trigger] word[i]),
        rest.len() == 0 || is_space(rest[0]),
    ensures
        until_space(word + rest) == word,
    decreases word.len(),
{
    let all = word + rest;
    if word.len() == 0 {
        assert(all =~= rest);
        assert(until_space(all) =~= word);
    } else {
        let less = word.skip(1);
        assert forall|i: int| 0 <= i < less.len() implies !is_space(#[trigger] less[i]) by {
            assert(less[i] == word[i + 1]);
        }
        assert(all.skip(1) =~= less + rest);
        lemma_until_space(less, rest);
        assert(all[0] == word[0]);
        assert(until_space(all) =~= word);
    }
}

/// A prefix is taken off as often as it stands in front, and a suffix as often as it stands at the
/// end.
pub proof fn affixes_are_taken_off(s: Seq<char>, affix: Seq<char>)
    requires
        affix.len() > 0,
    ensures
        without_prefixes(affix + s, affix) == without_prefixes(s, affix),
        without_suffixes(s + affix, affix) == without_suffixes(s, affix),
        !text_starts_with(s, affix) ==> without_prefixes(s, affix) == s,
        !text_ends_with(s, affix) ==> without_suffixes(s, affix) == s,
{
    let front = affix + s;
    let back = s + affix;
    assert(front.take(affix.len() as int) =~= affix);
    assert(front.skip(affix.len() as int) =~= s);
    assert(back.skip(back.len() - affix.len()) =~= affix);
    assert(back.take(back.len() - affix.len()) =~= s);
}

/// A part is replaced wherever it stands, from the front; what it does not stand in stays.
pub proof fn parts_are_replaced(s: Seq<char>, from: Seq<char>, to: Seq<char>, c: char)
    requires
        from.len() > 0,
    ensures
        replaced(from + s, from, to) == to + replaced(s, from, to),
        !text_starts_with(seq![c] + s, from) ==> replaced(seq![c] + s, from, to) == seq![c]
            + replaced(s, from, to),
        replaced(seq![], from, to).len() == 0,
{
    let front = from + s;
    assert(front.take(from.len() as int) =~= from);
    assert(front.skip(from.len() as int) =~= s);
    assert((seq![c] + s).skip(1) =~= s);
}

/// The digits of hexadecimal numbers.
pub proof fn hexadecimal_digits(d: int)
    requires
        0 <= d < 16,
    ensures
        d < 10 ==> hex_char(d) as int == 0x30 + d,
        d >= 10 ==> hex_char(d) as int == 0x61 + d - 10,
{
}

/// Where there is nothing but white space there is no word.
pub proof fn no_words(s: Seq<char>)
    requires
        forall|i: int| 0 <= i < s.len() ==> is_space(#[trigger] s[i]),
    ensures
        first_word_of(s).len() == 0,
{
    let a = lemma_trimmed_start(s);
    if a < s.len() {
        assert(is_space(s[a]));
    }
    assert(s.skip(a) =~= seq![]);
}

} // verus!
