//! Text: the operations on characters that the rest of the crate is written with.

use vstd::prelude::*;
use vstd::slice::slice_subrange;
use vstd::string::*;
use vstd::utf8::{encode_utf8, encode_utf8_decode_utf8};

verus! {

/// `String::push`: appends one character.
pub assume_specification[ String::push ](s: &mut String, c: char)
    ensures
        final(s)@ == old(s)@.push(c),
;

/// The characters of `s`, in order.
pub fn chars_of(s: &str) -> (r: Vec<char>)
    ensures
        r@ == s@,
{
    let mut out: Vec<char> = Vec::new();
    for c in it: s.chars()
        invariant
            it.seq() == s@,
            out@ == s@.take(it.index() as int),
    {
        out.push(c);
    }
    out
}

/// The text with exactly these characters.
pub fn text_of(chars: &[char]) -> (r: String)
    ensures
        r@ == chars@,
{
    let mut out = String::new();
    for i in 0..chars.len()
        invariant
            out@ == chars@.take(i as int),
    {
        out.push(chars[i]);
        assert(chars@.take(i + 1) == chars@.take(i as int).push(chars@[i as int]));
    }
    assert(chars@.take(chars@.len() as int) == chars@);
    out
}

/// Whether two texts are equal.
pub fn same_text(a: &str, b: &str) -> (r: bool)
    ensures
        r == (a@ == b@),
{
    proof {
        encode_utf8_decode_utf8(a@);
        encode_utf8_decode_utf8(b@);
    }
    let x = a.as_bytes();
    let y = b.as_bytes();
    if x.len() != y.len() {
        return false;
    }
    let mut i: usize = 0;
    while i < x.len()
        invariant
            i <= x@.len() == y@.len(),
            x@ == encode_utf8(a@),
            y@ == encode_utf8(b@),
            forall|j: int| 0 <= j < i ==> x@[j] == y@[j],
        decreases x@.len() - i,
    {
        if x[i] != y[i] {
            return false;
        }
        i += 1;
    }
    assert(x@ =~= y@);
    true
}

/// Whether a list of texts holds this one.
pub fn holds_text(list: &[&str], text: &str) -> (r: bool)
    ensures
        r == str_views(list@).contains(text@),
{
    let ghost all = str_views(list@);
    let mut i: usize = 0;
    while i < list.len()
        invariant
            i <= list@.len(),
            all == str_views(list@),
            forall|j: int| 0 <= j < i ==> all[j] != text@,
        decreases list@.len() - i,
    {
        if same_text(list[i], text) {
            assert(all[i as int] == text@);
            return true;
        }
        i += 1;
    }
    false
}

/// A list of texts, as characters.
pub open spec fn str_views(list: Seq<&str>) -> Seq<Seq<char>> {
    Seq::new(list.len(), |i: int| list[i]@)
}

/// `s` ends with `suffix`.
pub open spec fn text_ends_with(s: Seq<char>, suffix: Seq<char>) -> bool {
    suffix.len() <= s.len() && s.skip(s.len() - suffix.len()) == suffix
}

/// `s` starts with `prefix`.
pub open spec fn text_starts_with(s: Seq<char>, prefix: Seq<char>) -> bool {
    prefix.len() <= s.len() && s.take(prefix.len() as int) == prefix
}

/// Whether the characters from `at` on begin with `part`.
pub fn stands_at(s: &[char], part: &[char], at: usize) -> (r: bool)
    requires
        at + part@.len() <= s@.len(),
    ensures
        r == (s@.subrange(at as int, at + part@.len()) == part@),
{
    let n: usize = s.len();
    let mut i: usize = 0;
    while i < part.len()
        invariant
            i <= part@.len(),
            n == s@.len(),
            at + part@.len() <= n,
            forall|j: int| 0 <= j < i ==> s@[at + j] == part@[j],
        decreases part@.len() - i,
    {
        if s[at + i] != part[i] {
            assert(s@.subrange(at as int, at + part@.len())[i as int] != part@[i as int]);
            return false;
        }
        i += 1;
    }
    assert(s@.subrange(at as int, at + part@.len()) =~= part@);
    true
}

/// Whether `s` ends with `suffix`.
pub fn ends_with(s: &str, suffix: &str) -> (r: bool)
    ensures
        r == text_ends_with(s@, suffix@),
{
    let s = chars_of(s);
    let suffix = chars_of(suffix);
    if suffix.len() > s.len() {
        return false;
    }
    assert(s@.skip(s@.len() - suffix@.len()) =~= s@.subrange(
        s@.len() - suffix@.len(),
        s@.len() as int,
    ));
    stands_at(s.as_slice(), suffix.as_slice(), s.len() - suffix.len())
}

/// A text in quotes, escaped as the `Debug` of `str` escapes it.
pub uninterp spec fn debug_text(s: Seq<char>) -> Seq<char>;

/// The `Debug` of `str`: the text in double quotes, with escapes.
#[verifier::external_body]
pub(crate) fn debug_quoted(s: &str) -> (r: String)
    ensures
        r@ == debug_text(s@),
{
    format!("{:?}", s)
}

/// An optional text, as characters.
pub open spec fn text_option(o: Option<String>) -> Option<Seq<char>> {
    match o {
        Some(s) => Some(s@),
        None => None,
    }
}

/// A sequence of values, each taken by its view.
pub open spec fn views<T: View>(s: Seq<T>) -> Seq<T::V> {
    Seq::new(s.len(), |i: int| s[i]@)
}

/// The views of a list with one more item.
pub broadcast proof fn lemma_views_push<T: View>(s: Seq<T>, x: T)
    ensures
        #[trigger] views(s.push(x)) == views(s).push(x@),
{
    assert(views(s.push(x)) =~= views(s).push(x@));
}

/// The views of the empty list.
pub broadcast proof fn lemma_views_empty<T: View>(s: Seq<T>)
    requires
        s.len() == 0,
    ensures
        #[trigger] views(s) == Seq::<T::V>::empty(),
{
    assert(views(s) =~= Seq::<T::V>::empty());
}

/// A copy of an optional text.
pub fn clone_text_option(o: &Option<String>) -> (r: Option<String>)
    ensures
        text_option(r) == text_option(*o),
{
    match o {
        Some(s) => Some(s.clone()),
        None => None,
    }
}

/// A copy of a list of texts.
pub fn clone_texts(texts: &[String]) -> (r: Vec<String>)
    ensures
        views(r@) == views(texts@),
{
    let mut out: Vec<String> = Vec::new();
    for i in 0..texts.len()
        invariant
            views(out@) == views(texts@).take(i as int),
    {
        broadcast use lemma_views_push;

        out.push(texts[i].clone());
        assert(views(out@) =~= views(texts@).take(i + 1));
    }
    assert(views(out@) =~= views(texts@));
    out
}

/// The character of a decimal digit.
pub open spec fn digit_char(d: int) -> char {
    ('0' as int + d) as char
}

/// The character of a lower-case hexadecimal digit.
pub open spec fn hex_char(d: int) -> char {
    if d < 10 {
        digit_char(d)
    } else {
        ('a' as int + d - 10) as char
    }
}

/// A number in decimal, without leading zeros.
pub open spec fn decimal_text(n: nat) -> Seq<char>
    decreases n,
{
    if n < 10 {
        seq![digit_char(n as int)]
    } else {
        decimal_text(n / 10).push(digit_char((n % 10) as int))
    }
}

fn digit(d: u64) -> (r: char)
    requires
        d < 10,
    ensures
        r == digit_char(d as int),
{
    match d {
        0 => '0',
        1 => '1',
        2 => '2',
        3 => '3',
        4 => '4',
        5 => '5',
        6 => '6',
        7 => '7',
        8 => '8',
        _ => '9',
    }
}

/// A number in decimal.
pub fn decimal(n: u64) -> (r: String)
    ensures
        r@ == decimal_text(n as nat),
    decreases n,
{
    if n < 10 {
        let mut out = String::new();
        out.push(digit(n));
        assert(out@ =~= decimal_text(n as nat));
        out
    } else {
        let mut out = decimal(n / 10);
        out.push(digit(n % 10));
        out
    }
}

/// A decimal digit.
pub open spec fn is_digit(c: char) -> bool {
    '0' <= c <= '9'
}

/// Decimal digits and nothing else.
pub open spec fn all_digits(s: Seq<char>) -> bool {
    forall|i: int| 0 <= i < s.len() ==> is_digit(#[trigger] s[i])
}

/// The number that decimal digits stand for.
pub open spec fn digits_value(s: Seq<char>) -> nat
    decreases s.len(),
{
    if s.len() == 0 {
        0
    } else {
        digits_value(s.drop_last()) * 10 + (s.last() as int - '0' as int) as nat
    }
}

/// A text without one leading plus sign.
pub open spec fn without_plus(s: Seq<char>) -> Seq<char> {
    if s.len() > 0 && s[0] == '+' {
        s.skip(1)
    } else {
        s
    }
}

/// The number that a text states in decimal, with or without a plus sign, where
/// it is at most `max`.
pub open spec fn parsed_number(s: Seq<char>, max: nat) -> Option<nat> {
    let digits = without_plus(s);
    if digits.len() > 0 && all_digits(digits) && digits_value(digits) <= max {
        Some(digits_value(digits))
    } else {
        None
    }
}

proof fn lemma_digits_grow(s: Seq<char>, n: int)
    requires
        0 <= n <= s.len(),
    ensures
        digits_value(s.take(n)) <= digits_value(s),
    decreases s.len() - n,
{
    if n < s.len() {
        lemma_digits_grow(s, n + 1);
        assert(s.take(n + 1).drop_last() =~= s.take(n));
    } else {
        assert(s.take(n) =~= s);
    }
}

/// Reads a number in decimal, with or without a plus sign.
pub fn parse_number(s: &[char], max: u64) -> (r: Option<u64>)
    ensures
        r is Some <==> parsed_number(s@, max as nat) is Some,
        r matches Some(n) ==> parsed_number(s@, max as nat) == Some(n as nat),
{
    let n: usize = s.len();
    let start: usize = if n > 0 && s[0] == '+' {
        1
    } else {
        0
    };
    let ghost digits = without_plus(s@);
    assert(digits =~= s@.skip(start as int));
    if n == start {
        return None;
    }
    let mut value: u64 = 0;
    let mut i: usize = start;
    while i < n
        invariant
            n == s@.len(),
            start <= i <= n,
            start <= 1,
            digits == s@.skip(start as int),
            digits == without_plus(s@),
            value <= max,
            value == digits_value(digits.take(i - start)),
            forall|j: int| 0 <= j < i - start ==> is_digit(#[trigger] digits[j]),
        decreases n - i,
    {
        let c = s[i];
        let ghost k = i - start;
        assert(digits[k] == c);
        assert(digits.take(k + 1).drop_last() =~= digits.take(k));
        assert(digits.take(k + 1).last() == c);
        if !('0' <= c && c <= '9') {
            return None;
        }
        let d: u64 = (c as u32 - 48) as u64;
        if d > max || value > (max - d) / 10 {
            proof {
                assert(digits_value(digits.take(k + 1)) > max);
                lemma_digits_grow(digits, k + 1);
            }
            return None;
        }
        value = value * 10 + d;
        i += 1;
    }
    assert(digits.take(digits.len() as int) =~= digits);
    Some(value)
}

/// A character with the Unicode property White_Space.
pub open spec fn is_space(c: char) -> bool {
    let n = c as int;
    ||| 0x9 <= n <= 0xd
    ||| n == 0x20
    ||| n == 0x85
    ||| n == 0xa0
    ||| n == 0x1680
    ||| 0x2000 <= n <= 0x200a
    ||| n == 0x2028
    ||| n == 0x2029
    ||| n == 0x202f
    ||| n == 0x205f
    ||| n == 0x3000
}

fn space(c: char) -> (r: bool)
    ensures
        r == is_space(c),
{
    let n: u32 = c as u32;
    (0x9 <= n && n <= 0xd) || n == 0x20 || n == 0x85 || n == 0xa0 || n == 0x1680 || (0x2000 <= n
        && n <= 0x200a) || n == 0x2028 || n == 0x2029 || n == 0x202f || n == 0x205f || n == 0x3000
}

/// A text without the white space it begins with.
pub open spec fn trimmed_start(s: Seq<char>) -> Seq<char>
    decreases s.len(),
{
    if s.len() > 0 && is_space(s[0]) {
        trimmed_start(s.skip(1))
    } else {
        s
    }
}

/// A text without the white space it ends in.
pub open spec fn trimmed_end(s: Seq<char>) -> Seq<char>
    decreases s.len(),
{
    if s.len() > 0 && is_space(s.last()) {
        trimmed_end(s.drop_last())
    } else {
        s
    }
}

/// A text without the white space around it.
pub open spec fn trimmed(s: Seq<char>) -> Seq<char> {
    trimmed_end(trimmed_start(s))
}

/// A text without the white space around it.
pub fn trim(s: &[char]) -> (r: &[char])
    ensures
        r@ == trimmed(s@),
{
    let n: usize = s.len();
    let mut from: usize = 0;
    assert(s@.skip(0) =~= s@);
    while from < n && space(s[from])
        invariant
            n == s@.len(),
            from <= n,
            trimmed_start(s@) == trimmed_start(s@.skip(from as int)),
        decreases n - from,
    {
        assert(s@.skip(from as int).skip(1) =~= s@.skip(from + 1));
        from += 1;
    }
    let ghost start = s@.skip(from as int);
    assert(trimmed_start(s@) == start);
    let mut to: usize = n;
    assert(s@.subrange(from as int, n as int) =~= start);
    while to > from && space(s[to - 1])
        invariant
            n == s@.len(),
            from <= to <= n,
            trimmed_end(start) == trimmed_end(s@.subrange(from as int, to as int)),
        decreases to,
    {
        assert(s@.subrange(from as int, to as int).drop_last() =~= s@.subrange(
            from as int,
            to - 1,
        ));
        to -= 1;
    }
    slice_subrange(s, from, to)
}

/// The characters before the first white space.
pub open spec fn until_space(s: Seq<char>) -> Seq<char>
    decreases s.len(),
{
    if s.len() == 0 || is_space(s[0]) {
        seq![]
    } else {
        seq![s[0]] + until_space(s.skip(1))
    }
}

/// The first run of characters that are no white space, empty where there is
/// none.
pub open spec fn first_word_of(s: Seq<char>) -> Seq<char> {
    until_space(trimmed_start(s))
}

/// The first run of characters that are no white space.
pub fn first_word(s: &[char]) -> (r: &[char])
    ensures
        r@ == first_word_of(s@),
{
    let n: usize = s.len();
    let mut from: usize = 0;
    assert(s@.skip(0) =~= s@);
    while from < n && space(s[from])
        invariant
            n == s@.len(),
            from <= n,
            trimmed_start(s@) == trimmed_start(s@.skip(from as int)),
        decreases n - from,
    {
        assert(s@.skip(from as int).skip(1) =~= s@.skip(from + 1));
        from += 1;
    }
    let ghost start = s@.skip(from as int);
    let mut to: usize = from;
    assert(s@.subrange(from as int, from as int) + until_space(start) =~= until_space(start));
    while to < n && !space(s[to])
        invariant
            n == s@.len(),
            from <= to <= n,
            s@.subrange(from as int, to as int) + until_space(s@.skip(to as int)) == until_space(
                start,
            ),
        decreases n - to,
    {
        proof {
            let rest = s@.skip(to as int);
            assert(rest.skip(1) =~= s@.skip(to + 1));
            assert(s@.subrange(from as int, to as int) + (seq![rest[0]] + until_space(
                s@.skip(to + 1),
            )) =~= s@.subrange(from as int, to + 1) + until_space(s@.skip(to + 1)));
        }
        to += 1;
    }
    assert(until_space(s@.skip(to as int)) =~= seq![]);
    assert(s@.subrange(from as int, to as int) =~= until_space(start));
    slice_subrange(s, from, to)
}

/// Whether the characters begin with `prefix`.
pub fn chars_start_with(s: &[char], prefix: &str) -> (r: bool)
    ensures
        r == text_starts_with(s@, prefix@),
{
    let prefix = chars_of(prefix);
    if prefix.len() > s.len() {
        return false;
    }
    assert(s@.take(prefix@.len() as int) =~= s@.subrange(0, prefix@.len() as int));
    stands_at(s, prefix.as_slice(), 0)
}

/// Numbers, separated by a comma and a space.
pub open spec fn number_list(numbers: Seq<u32>) -> Seq<char>
    decreases numbers.len(),
{
    if numbers.len() == 0 {
        seq![]
    } else if numbers.len() == 1 {
        decimal_text(numbers[0] as nat)
    } else {
        number_list(numbers.drop_last()) + ", "@ + decimal_text(numbers.last() as nat)
    }
}

/// Numbers in square brackets.
pub open spec fn bracketed(numbers: Seq<u32>) -> Seq<char> {
    "["@ + number_list(numbers) + "]"@
}

/// Numbers in square brackets, separated by a comma and a space.
pub fn bracket_numbers(numbers: &[u32]) -> (r: String)
    ensures
        r@ == bracketed(numbers@),
{
    let mut out = "[".to_owned();
    assert(out@ =~= "["@ + number_list(numbers@.take(0)));
    for i in 0..numbers.len()
        invariant
            out@ == "["@ + number_list(numbers@.take(i as int)),
    {
        let ghost before = number_list(numbers@.take(i as int));
        let ghost next = numbers@.take(i + 1);
        if i > 0 {
            out.append(", ");
        }
        out.append(decimal(numbers[i] as u64).as_str());
        proof {
            assert(next.drop_last() =~= numbers@.take(i as int));
            assert(next.last() == numbers@[i as int]);
            assert(out@ =~= "["@ + number_list(next));
        }
    }
    out.append("]");
    assert(numbers@.take(numbers@.len() as int) =~= numbers@);
    out
}

/// Texts with a separator between each two.
pub open spec fn joined_texts(parts: Seq<Seq<char>>, separator: Seq<char>) -> Seq<char>
    decreases parts.len(),
{
    if parts.len() == 0 {
        seq![]
    } else if parts.len() == 1 {
        parts[0]
    } else {
        joined_texts(parts.drop_last(), separator) + separator + parts.last()
    }
}

/// Texts with a separator between each two.
pub fn join_texts(parts: &[String], separator: &str) -> (r: String)
    ensures
        r@ == joined_texts(views(parts@), separator@),
{
    let ghost all = views(parts@);
    let mut out = String::new();
    assert(out@ =~= joined_texts(all.take(0), separator@));
    for i in 0..parts.len()
        invariant
            all == views(parts@),
            out@ == joined_texts(all.take(i as int), separator@),
    {
        let ghost next = all.take(i + 1);
        proof {
            assert(next.drop_last() =~= all.take(i as int));
            assert(next.last() == parts@[i as int]@);
        }
        if i > 0 {
            out.append(separator);
        }
        out.append(parts[i].as_str());
        assert(out@ =~= joined_texts(next, separator@));
    }
    assert(all.take(all.len() as int) =~= all);
    out
}

/// The characters before the first `stop`, or all of them.
pub open spec fn until_char(s: Seq<char>, stop: char) -> Seq<char>
    decreases s.len(),
{
    if s.len() == 0 || s[0] == stop {
        seq![]
    } else {
        seq![s[0]] + until_char(s.skip(1), stop)
    }
}

/// The characters before the first `stop`, or all of them.
pub fn text_until(s: &str, stop: char) -> (r: String)
    ensures
        r@ == until_char(s@, stop),
{
    let chars = chars_of(s);
    let mut out = String::new();
    let mut i: usize = 0;
    assert(s@.skip(0) =~= s@);
    assert(out@ + until_char(s@, stop) =~= until_char(s@, stop));
    while i < chars.len() && chars[i] != stop
        invariant
            chars@ == s@,
            i <= chars@.len(),
            out@ + until_char(s@.skip(i as int), stop) == until_char(s@, stop),
        decreases chars@.len() - i,
    {
        proof {
            let rest = s@.skip(i as int);
            assert(rest.skip(1) =~= s@.skip(i + 1));
            assert(out@ + (seq![rest[0]] + until_char(s@.skip(i + 1), stop)) =~= out@.push(rest[0])
                + until_char(s@.skip(i + 1), stop));
        }
        out.push(chars[i]);
        i += 1;
    }
    assert(until_char(s@.skip(i as int), stop) =~= seq![]);
    assert(out@ =~= until_char(s@, stop));
    out
}

/// Spaces.
pub open spec fn spaces(n: int) -> Seq<char> {
    Seq::new(
        if n > 0 {
            n as nat
        } else {
            0
        },
        |i: int| ' ',
    )
}

/// A text followed by spaces, at least `width` characters in all.
pub open spec fn padded_right(s: Seq<char>, width: int) -> Seq<char> {
    s + spaces(width - s.len())
}

/// A text after spaces, at least `width` characters in all.
pub open spec fn padded_left(s: Seq<char>, width: int) -> Seq<char> {
    spaces(width - s.len()) + s
}

fn make_spaces(len: usize, width: usize) -> (r: String)
    ensures
        r@ == spaces(width - len),
{
    let mut out = String::new();
    let n: usize = if width > len {
        width - len
    } else {
        0
    };
    for i in 0..n
        invariant
            out@ == spaces(i as int),
    {
        out.push(' ');
        assert(out@ =~= spaces(i + 1));
    }
    assert(out@ =~= spaces(width - len));
    out
}

/// A text followed by spaces, at least `width` characters in all.
pub fn pad_right(s: &str, width: usize) -> (r: String)
    ensures
        r@ == padded_right(s@, width as int),
{
    let mut out = s.to_owned();
    out.append(make_spaces(chars_of(s).len(), width).as_str());
    out
}

/// A text after spaces, at least `width` characters in all.
pub fn pad_left(s: &str, width: usize) -> (r: String)
    ensures
        r@ == padded_left(s@, width as int),
{
    let mut out = make_spaces(chars_of(s).len(), width);
    out.append(s);
    out
}

/// A text without the suffixes `suffix` that it ends in, however many.
pub open spec fn without_suffixes(s: Seq<char>, suffix: Seq<char>) -> Seq<char>
    decreases s.len(),
{
    if suffix.len() > 0 && text_ends_with(s, suffix) {
        without_suffixes(s.take(s.len() - suffix.len()), suffix)
    } else {
        s
    }
}

/// A text without the prefixes `prefix` that it starts with, however many.
pub open spec fn without_prefixes(s: Seq<char>, prefix: Seq<char>) -> Seq<char>
    decreases s.len(),
{
    if prefix.len() > 0 && text_starts_with(s, prefix) {
        without_prefixes(s.skip(prefix.len() as int), prefix)
    } else {
        s
    }
}

/// A text without the suffixes `suffix` that it ends in.
pub fn strip_suffixes<'a>(s: &'a [char], suffix: &[char]) -> (r: &'a [char])
    ensures
        r@ == without_suffixes(s@, suffix@),
    decreases s@.len(),
{
    if suffix.len() == 0 || suffix.len() > s.len() {
        return s;
    }
    let n: usize = s.len() - suffix.len();
    assert(s@.skip(n as int) =~= s@.subrange(n as int, s@.len() as int));
    if stands_at(s, suffix, n) {
        let rest = slice_subrange(s, 0, n);
        assert(rest@ =~= s@.take(n as int));
        strip_suffixes(rest, suffix)
    } else {
        s
    }
}

/// A text without the prefixes `prefix` that it starts with.
pub fn strip_prefixes<'a>(s: &'a [char], prefix: &[char]) -> (r: &'a [char])
    ensures
        r@ == without_prefixes(s@, prefix@),
    decreases s@.len(),
{
    if prefix.len() == 0 || prefix.len() > s.len() {
        return s;
    }
    let n: usize = prefix.len();
    assert(s@.take(n as int) =~= s@.subrange(0, n as int));
    if stands_at(s, prefix, 0) {
        let rest = slice_subrange(s, n, s.len());
        assert(rest@ =~= s@.skip(n as int));
        strip_prefixes(rest, prefix)
    } else {
        s
    }
}

/// A text with each occurrence of `from`, found from the left, replaced by `to`.
pub open spec fn replaced(s: Seq<char>, from: Seq<char>, to: Seq<char>) -> Seq<char>
    decreases s.len(),
{
    if s.len() == 0 || from.len() == 0 {
        s
    } else if text_starts_with(s, from) {
        to + replaced(s.skip(from.len() as int), from, to)
    } else {
        seq![s[0]] + replaced(s.skip(1), from, to)
    }
}

/// A text with each occurrence of `from` replaced by `to`.
pub fn replace_text(s: &[char], from: &str, to: &str) -> (r: String)
    requires
        from@.len() > 0,
    ensures
        r@ == replaced(s@, from@, to@),
{
    let pattern = chars_of(from);
    let n: usize = s.len();
    let mut out = String::new();
    let mut i: usize = 0;
    assert(s@.skip(0) =~= s@);
    assert(out@ + replaced(s@, from@, to@) =~= replaced(s@, from@, to@));
    while i < n
        invariant
            n == s@.len(),
            i <= n,
            pattern@ == from@,
            from@.len() > 0,
            out@ + replaced(s@.skip(i as int), from@, to@) == replaced(s@, from@, to@),
        decreases n - i,
    {
        let ghost rest = s@.skip(i as int);
        let fits = n - i >= pattern.len() && stands_at(s, pattern.as_slice(), i);
        proof {
            if rest.len() >= from@.len() {
                assert(rest.take(from@.len() as int) =~= s@.subrange(
                    i as int,
                    i + from@.len(),
                ));
            }
        }
        if fits {
            proof {
                let after = s@.skip(i + from@.len());
                assert(rest.skip(from@.len() as int) =~= after);
                assert(out@ + (to@ + replaced(after, from@, to@)) =~= (out@ + to@) + replaced(
                    after,
                    from@,
                    to@,
                ));
            }
            out.append(to);
            i = i + pattern.len();
        } else {
            proof {
                let after = s@.skip(i + 1);
                assert(rest.skip(1) =~= after);
                assert(out@ + (seq![rest[0]] + replaced(after, from@, to@)) =~= out@.push(rest[0])
                    + replaced(after, from@, to@));
            }
            out.push(s[i]);
            i = i + 1;
        }
    }
    assert(s@.skip(n as int) =~= seq![]);
    assert(out@ =~= replaced(s@, from@, to@));
    out
}

/// `s` holds `part` somewhere.
pub open spec fn text_contains(s: Seq<char>, part: Seq<char>) -> bool {
    exists|i: int| 0 <= i <= s.len() - part.len() && #[trigger] s.subrange(i, i + part.len()) == part
}

/// Whether `s` holds `part` somewhere.
pub fn contains_text(s: &[char], part: &[char]) -> (r: bool)
    ensures
        r == text_contains(s@, part@),
{
    if part.len() > s.len() {
        return false;
    }
    let last: usize = s.len() - part.len();
    let mut i: usize = 0;
    loop
        invariant
            last == s@.len() - part@.len(),
            i <= last,
            forall|j: int| 0 <= j < i ==> #[trigger] s@.subrange(j, j + part@.len()) != part@,
        decreases last - i,
    {
        if stands_at(s, part, i) {
            return true;
        }
        if i == last {
            return false;
        }
        i += 1;
    }
}

/// A number that is written in decimal reads back.
pub proof fn decimal_reads_back(n: nat, max: nat)
    requires
        n <= max,
    ensures
        parsed_number(decimal_text(n), max) == Some(n),
{
    lemma_decimal_digits(n);
}

/// A number that is written in decimal is written in digits, of that value.
pub proof fn lemma_decimal_digits(n: nat)
    ensures
        decimal_text(n).len() > 0,
        all_digits(decimal_text(n)),
        digits_value(decimal_text(n)) == n,
    decreases n,
{
    let s = decimal_text(n);
    if n < 10 {
        assert(s.drop_last() =~= seq![]);
        assert(digits_value(s.drop_last()) == 0);
        assert(s.last() == digit_char(n as int));
        assert(s.last() as int == '0' as int + n);
    } else {
        let high = decimal_text(n / 10);
        lemma_decimal_digits(n / 10);
        assert(s.drop_last() =~= high);
        assert(s.last() == digit_char((n % 10) as int));
        assert(s.last() as int == '0' as int + n % 10);
        assert forall|i: int| 0 <= i < s.len() implies is_digit(#[trigger] s[i]) by {
            if i < high.len() {
                assert(s[i] == high[i]);
            }
        }
    }
}

} // verus!
