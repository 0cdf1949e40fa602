//! Releases: which version is newer, and what is installed.

use crate::digest::{hex_text, sha256_bytes};
use crate::laws::orders::{less_at, lists_differ_at_one_place};
use crate::laws::texts::first_words;
use crate::text::{
    decimal_reads_back, decimal_text, is_digit, is_space, lemma_decimal_digits, parsed_number,
    text_starts_with, without_prefixes,
};
use crate::update::{
    ascii_lower, checks_out, decision_on, is_newer, last_segment, number_less, redirected_tag,
    stated_digest, states_digest, tagged_version, until_separator, version_numbers, DecisionView,
};
use vstd::prelude::*;
use vstd::utf8::{encode_utf8, encode_utf8_decode_utf8, encode_utf8_valid_utf8, is_ascii_chars};

verus! {

/// A version is its numbers, between points and hyphens, up to what is no number.
pub proof fn versions_are_numbers(n: nat, c: char, rest: Seq<char>)
    requires
        n <= u64::MAX,
        c == '.' || c == '-',
    ensures
        version_numbers(decimal_text(n)) == seq![n],
        version_numbers(decimal_text(n).push(c) + rest) == seq![n] + version_numbers(rest),
        rest.len() > 0 && !is_digit(rest[0]) && rest[0] != '+' ==> version_numbers(rest).len() == 0,
        version_numbers(seq![]).len() == 0,
{
    let number = decimal_text(n);
    lemma_decimal_digits(n);
    decimal_reads_back(n, u64::MAX as nat);
    lemma_until_separator(number, seq![]);
    assert(number + Seq::<char>::empty() =~= number);
    let tail = seq![c] + rest;
    lemma_until_separator(number, tail);
    let all = number.push(c) + rest;
    assert(all =~= number + tail);
    assert(all.skip(number.len() as int + 1) =~= rest);
    if rest.len() > 0 && !is_digit(rest[0]) && rest[0] != '+' {
        let part = until_separator(rest);
        if part.len() > 0 {
            assert(part[0] == rest[0]);
        }
    }
}

proof fn lemma_until_separator(number: Seq<char>, rest: Seq<char>)
    requires
        forall|i: int| 0 <= i < number.len() ==> is_digit(#[trigger] number[i]),
        rest.len() == 0 || rest[0] == '.' || rest[0] == '-',
    ensures
        until_separator(number + rest) == number,
    decreases number.len(),
{
    let all = number + rest;
    if number.len() == 0 {
        assert(all =~= rest);
        assert(until_separator(all) =~= number);
    } else {
        let less = number.skip(1);
        assert forall|i: int| 0 <= i < less.len() implies is_digit(#[trigger] less[i]) by {
            assert(less[i] == number[i + 1]);
        }
        assert(all.skip(1) =~= less + rest);
        lemma_until_separator(less, rest);
        assert(is_digit(number[0]));
        assert(all[0] == number[0]);
        assert(until_separator(all) =~= number);
    }
}

/// The numbers are the same before `k`, where the new ones have a greater one or the old ones end.
pub open spec fn newer_at(new: Seq<nat>, old: Seq<nat>, k: int) -> bool {
    &&& 0 <= k < new.len()
    &&& k <= old.len()
    &&& forall|i: int| 0 <= i < k ==> new[i] == old[i]
    &&& k == old.len() || new[k] > old[k]
}

/// A version is newer at the first number in which it differs: there it has the greater one, or the
/// other has none.
pub proof fn newer_is_by_the_first_difference(candidate: Seq<char>, current: Seq<char>)
    ensures
        is_newer(candidate, current) <==> exists|k: int|
            newer_at(version_numbers(candidate), version_numbers(current), k),
{
    let new = version_numbers(candidate);
    let old = version_numbers(current);
    lists_differ_at_one_place(old, new, number_less());
    if is_newer(candidate, current) {
        let k = choose|k: int| less_at(old, new, number_less(), k);
        assert(newer_at(new, old, k));
    }
    if exists|k: int| newer_at(new, old, k) {
        let k = choose|k: int| newer_at(new, old, k);
        assert(less_at(old, new, number_less(), k));
    }
}

/// The tag of a release is what stands after the last slash of where it is.
pub proof fn tags_come_last(before: Seq<char>, tag: Seq<char>)
    requires
        forall|i: int| 0 <= i < tag.len() ==> tag[i] != '/',
    ensures
        last_segment(before.push('/') + tag) == tag,
        last_segment(tag) == tag,
    decreases tag.len(),
{
    let all = before.push('/') + tag;
    if tag.len() == 0 {
        assert(all =~= before.push('/'));
        assert(last_segment(all) =~= tag);
        assert(last_segment(tag) =~= tag);
    } else {
        let less = tag.drop_last();
        tags_come_last(before, less);
        assert(all.drop_last() =~= before.push('/') + less);
        assert(all.last() == tag.last());
        assert(tag.last() == tag[tag.len() - 1]);
        assert(last_segment(all) =~= tag);
        assert(last_segment(tag) =~= tag);
    }
}

/// The version of a tag is the tag without its `v`.
pub proof fn versions_of_tags(version: Seq<char>)
    requires
        version.len() == 0 || version[0] != 'v',
    ensures
        tagged_version(seq!['v'] + version) == version,
        tagged_version(version) == version,
{
    reveal_strlit("v");
    let tag = seq!['v'] + version;
    assert(tag.take(1) =~= "v"@);
    assert(tag.skip(1) =~= version);
    assert(text_starts_with(tag, "v"@));
    assert(!text_starts_with(version, "v"@)) by {
        if version.len() > 0 {
            assert(version.take(1)[0] == version[0]);
        }
    }
    assert(without_prefixes(version, "v"@) == version);
}

/// The letters of a checksum are read as small ones.
pub proof fn letters_are_read_as_small(c: char)
    ensures
        'A' <= c <= 'Z' ==> ascii_lower(c) as int == c as int + 32,
        !('A' <= c <= 'Z') ==> ascii_lower(c) == c,
{
}

/// A text states a digest where it begins with it, and white space follows or nothing.
pub proof fn digests_are_stated_in_front(bytes: Seq<u8>, rest: Seq<char>)
    requires
        rest.len() == 0 || rest[0] == ' ' || rest[0] == '\n',
    ensures
        states_digest(hex_text(sha256_bytes(bytes)) + rest, bytes),
{
    let hex = hex_text(sha256_bytes(bytes));
    assert((hex + rest).take(hex.len() as int) =~= hex);
    if rest.len() > 0 {
        assert((hex + rest)[hex.len() as int] == rest[0]);
    }
}

/// Bytes are written in hexadecimal, two digits each, the high one first.
pub proof fn bytes_are_written_in_hexadecimal(bytes: Seq<u8>, i: int)
    requires
        0 <= i < bytes.len(),
    ensures
        hex_text(bytes).len() == 2 * bytes.len(),
        hex_text(bytes)[2 * i] == crate::text::hex_char(bytes[i] as int / 16),
        hex_text(bytes)[2 * i + 1] == crate::text::hex_char(bytes[i] as int % 16),
{
}

/// Where releases are.
pub proof fn releases_are_at()
    ensures
        crate::update::REPO@ == "benelser/reaper"@,
{
}

/// Each part of a version counts by what it is read as; the first that is no number ends it.
pub proof fn versions_end_at_what_is_no_number(part: Seq<char>, c: char, rest: Seq<char>)
    requires
        forall|i: int| 0 <= i < part.len() ==> part[i] != '.' && part[i] != '-',
        c == '.' || c == '-',
    ensures
        parsed_number(part, u64::MAX as nat) is None ==> version_numbers(part).len() == 0
            && version_numbers(part.push(c) + rest).len() == 0,
        parsed_number(part, u64::MAX as nat) matches Some(n) ==> version_numbers(part) == seq![n]
            && version_numbers(part.push(c) + rest) == seq![n] + version_numbers(rest),
{
    lemma_until(part, seq![]);
    assert(part + Seq::<char>::empty() =~= part);
    lemma_until(part, seq![c] + rest);
    let all = part.push(c) + rest;
    assert(all =~= part + (seq![c] + rest));
    assert(all.skip(part.len() as int + 1) =~= rest);
}

proof fn lemma_until(part: Seq<char>, rest: Seq<char>)
    requires
        forall|i: int| 0 <= i < part.len() ==> part[i] != '.' && part[i] != '-',
        rest.len() == 0 || rest[0] == '.' || rest[0] == '-',
    ensures
        until_separator(part + rest) == part,
    decreases part.len(),
{
    let all = part + rest;
    if part.len() == 0 {
        assert(all =~= rest);
        assert(until_separator(all) =~= part);
    } else {
        let less = part.skip(1);
        assert forall|i: int| 0 <= i < less.len() implies less[i] != '.' && less[i] != '-' by {
            assert(less[i] == part[i + 1]);
        }
        assert(all.skip(1) =~= less + rest);
        lemma_until(less, rest);
        assert(all[0] == part[0]);
        assert(until_separator(all) =~= part);
    }
}

/// Every `v` in front of a version is taken off.
pub proof fn every_v_is_taken_off(tag: Seq<char>)
    ensures
        tagged_version(seq!['v'] + tag) == tagged_version(tag),
{
    reveal_strlit("v");
    let all = seq!['v'] + tag;
    assert(all.take(1) =~= "v"@);
    assert(all.skip(1) =~= tag);
    assert(text_starts_with(all, "v"@));
}

/// The digest that a sidecar states is its first word, in small letters.
pub proof fn sidecars_state_their_first_word(before: Seq<char>, word: Seq<char>, rest: Seq<char>)
    requires
        forall|i: int| 0 <= i < before.len() ==> is_space(#[trigger] before[i]),
        forall|i: int| 0 <= i < word.len() ==> !is_space(#[trigger] word[i]),
        is_ascii_chars(word),
        word.len() > 0,
        rest.len() == 0 || is_space(rest[0]),
    ensures
        ({
            let stated = stated_digest(encode_utf8(before + word + rest));
            &&& stated.len() == word.len()
            &&& forall|i: int| 0 <= i < word.len() ==> #[trigger] stated[i] == ascii_lower(word[i])
        }),
{
    let text = before + word + rest;
    encode_utf8_valid_utf8(text);
    encode_utf8_decode_utf8(text);
    first_words(before, word, rest);
}

/// A release is installed only where it is newer, and only where that was asked for.
pub proof fn newer_releases_are_installed(current: Seq<char>, tag: Seq<char>, check_only: bool)
    ensures
        decision_on(current, tag, check_only) is UpToDate <==> !is_newer(
            tagged_version(tag),
            current,
        ),
        decision_on(current, tag, check_only) is Report <==> is_newer(tagged_version(tag), current)
            && check_only,
        decision_on(current, tag, check_only) matches DecisionView::Install { version, .. }
            ==> version == tagged_version(tag),
        decision_on(current, tag, check_only) matches DecisionView::UpToDate { notice } ==> notice
            == "reaper "@ + current + " is up to date (latest release: "@ + tag + ")"@,
        decision_on(current, tag, check_only) matches DecisionView::Report { notice, hint }
            ==> notice == "update available: "@ + current + " → "@ + tagged_version(tag) && hint
            == "run `reaper update` to install it"@,
{
}

/// A redirect leads to a release where what comes last in it begins with a `v`.
pub proof fn redirects_lead_to_tags(before: Seq<char>, tag: Seq<char>)
    requires
        forall|i: int| 0 <= i < tag.len() ==> tag[i] != '/',
    ensures
        tag.len() > 0 && tag[0] == 'v' ==> redirected_tag(Some(before.push('/') + tag)) == Ok::<
            Seq<char>,
            Seq<char>,
        >(tag),
        tag.len() == 0 || tag[0] != 'v' ==> redirected_tag(Some(before.push('/') + tag)) is Err,
        redirected_tag(None) is Err,
{
    tags_come_last(before, tag);
}

/// What is downloaded is installed only where its own digest is stated.
pub proof fn only_what_is_stated_is_installed(bytes: Seq<u8>, sidecar: Seq<u8>)
    ensures
        checks_out(bytes, sidecar) <==> stated_digest(sidecar) == hex_text(sha256_bytes(bytes)),
{
}

} // verus!
