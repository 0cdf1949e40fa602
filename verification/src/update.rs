//! Self-update: which release is newer, where its asset lies, and whether what
//! was downloaded is what was published.

use crate::bytes::{lossy_text, utf8_lossy};
use crate::digest::{hex_text, sha256_bytes, sha256_hex};
use crate::paths::{lemma_lex_irreflexive, lemma_lex_transitive, lex_less, strict_total};
use crate::text::{
    chars_of, debug_quoted, debug_text, first_word, first_word_of, is_space, parse_number,
    parsed_number, same_text, strip_prefixes, text_of, text_starts_with, trimmed_start,
    until_space, without_prefixes,
};
use vstd::prelude::*;
use vstd::slice::slice_subrange;
use vstd::string::*;
use vstd::utf8::{
    encode_utf8, encode_utf8_decode_utf8, encode_utf8_valid_utf8, is_ascii_chars,
    is_ascii_chars_encode_utf8,
};

verus! {

/// Where releases are published.
pub const REPO: &'static str = "benelser/reaper";

/// What parts a version from the next.
pub open spec fn is_separator(c: char) -> bool {
    c == '.' || c == '-'
}

/// The characters before the first separator.
pub open spec fn until_separator(s: Seq<char>) -> Seq<char>
    decreases s.len(),
{
    if s.len() == 0 || is_separator(s[0]) {
        seq![]
    } else {
        seq![s[0]] + until_separator(s.skip(1))
    }
}

/// The numbers that a version starts with, one between each two separators, up
/// to the first part that is no number.
pub open spec fn version_numbers(s: Seq<char>) -> Seq<nat>
    decreases s.len(),
{
    let part = until_separator(s);
    match parsed_number(part, u64::MAX as nat) {
        None => seq![],
        Some(n) => if part.len() >= s.len() {
            seq![n]
        } else {
            seq![n] + version_numbers(s.skip(part.len() as int + 1))
        },
    }
}

/// The order of numbers.
pub open spec fn number_less() -> spec_fn(nat, nat) -> bool {
    |x: nat, y: nat| x < y
}

/// Version `candidate` is newer than `current`: by the first number in which
/// they differ; numbers, not texts, are compared.
pub open spec fn is_newer(candidate: Seq<char>, current: Seq<char>) -> bool {
    lex_less(version_numbers(current), version_numbers(candidate), number_less())
}

proof fn lemma_until_separator(s: Seq<char>, n: int)
    requires
        0 <= n <= s.len(),
        forall|i: int| 0 <= i < n ==> !is_separator(#[trigger] s[i]),
        n == s.len() || is_separator(s[n]),
    ensures
        until_separator(s) == s.take(n),
    decreases n,
{
    if n > 0 {
        let rest = s.skip(1);
        assert forall|i: int| 0 <= i < n - 1 implies !is_separator(#[trigger] rest[i]) by {
            assert(rest[i] == s[i + 1]);
        }
        lemma_until_separator(rest, n - 1);
        assert(s.take(n) =~= seq![s[0]] + rest.take(n - 1));
    } else {
        assert(s.take(0) =~= seq![]);
    }
}

/// Numbers without their bounds.
pub open spec fn as_nats(numbers: Seq<u64>) -> Seq<nat> {
    Seq::new(numbers.len(), |i: int| numbers[i] as nat)
}

fn read_numbers(s: &[char]) -> (r: Vec<u64>)
    ensures
        as_nats(r@) == version_numbers(s@),
{
    let n: usize = s.len();
    let mut out: Vec<u64> = Vec::new();
    let mut from: usize = 0;
    assert(s@.skip(0) =~= s@);
    assert(as_nats(out@) + version_numbers(s@) =~= version_numbers(s@));
    loop
        invariant
            n == s@.len(),
            from <= n,
            as_nats(out@) + version_numbers(s@.skip(from as int)) == version_numbers(s@),
        decreases n - from,
    {
        let ghost rest = s@.skip(from as int);
        let mut to: usize = from;
        while to < n && s[to] != '.' && s[to] != '-'
            invariant
                n == s@.len(),
                from <= to <= n,
                rest == s@.skip(from as int),
                forall|i: int| 0 <= i < to - from ==> !is_separator(#[trigger] rest[i]),
            decreases n - to,
        {
            assert(rest[to - from] == s@[to as int]);
            to += 1;
        }
        let part = slice_subrange(s, from, to);
        proof {
            if to < n {
                assert(rest[to - from] == s@[to as int]);
            }
            lemma_until_separator(rest, to - from);
            assert(part@ =~= rest.take(to - from));
        }
        let ghost before = as_nats(out@);
        match parse_number(part, 0xffff_ffff_ffff_ffff) {
            None => {
                assert(version_numbers(rest) =~= seq![]);
                assert(as_nats(out@) =~= version_numbers(s@));
                return out;
            },
            Some(number) => {
                out.push(number);
                assert(as_nats(out@) =~= before.push(number as nat));
                if to >= n {
                    assert(version_numbers(rest) =~= seq![number as nat]);
                    assert(as_nats(out@) =~= version_numbers(s@));
                    return out;
                }
                proof {
                    let after = s@.skip(to + 1);
                    assert(rest.skip(to - from + 1) =~= after);
                    assert(before + (seq![number as nat] + version_numbers(after)) =~= before.push(
                        number as nat,
                    ) + version_numbers(after));
                }
                from = to + 1;
            },
        }
    }
}

fn less(a: &[u64], b: &[u64]) -> (r: bool)
    ensures
        r == lex_less(as_nats(a@), as_nats(b@), number_less()),
{
    let ghost x = as_nats(a@);
    let ghost y = as_nats(b@);
    let mut i: usize = 0;
    assert(x.skip(0) =~= x);
    assert(y.skip(0) =~= y);
    while i < a.len() && i < b.len() && a[i] == b[i]
        invariant
            x == as_nats(a@),
            y == as_nats(b@),
            i <= a@.len(),
            i <= b@.len(),
            lex_less(x, y, number_less()) == lex_less(
                x.skip(i as int),
                y.skip(i as int),
                number_less(),
            ),
        decreases a@.len() - i,
    {
        assert(x.skip(i as int).skip(1) =~= x.skip(i + 1));
        assert(y.skip(i as int).skip(1) =~= y.skip(i + 1));
        i += 1;
    }
    if i >= b.len() {
        false
    } else if i >= a.len() {
        true
    } else {
        a[i] < b[i]
    }
}

/// Strict comparison over dotted numbers ("0.2.1" is newer than "0.2.0").
pub fn newer(candidate: &str, current: &str) -> (r: bool)
    ensures
        r == is_newer(candidate@, current@),
{
    let candidate = read_numbers(chars_of(candidate).as_slice());
    let current = read_numbers(chars_of(current).as_slice());
    less(current.as_slice(), candidate.as_slice())
}

proof fn lemma_number_order()
    ensures
        strict_total(number_less()),
{
}

/// No version is newer than itself.
pub proof fn no_version_is_newer_than_itself(v: Seq<char>)
    ensures
        !is_newer(v, v),
{
    lemma_number_order();
    lemma_lex_irreflexive(version_numbers(v), number_less());
}

/// Of two versions only one is newer.
pub proof fn only_one_is_newer(a: Seq<char>, b: Seq<char>)
    requires
        is_newer(a, b),
    ensures
        !is_newer(b, a),
{
    lemma_number_order();
    if is_newer(b, a) {
        lemma_lex_transitive(
            version_numbers(a),
            version_numbers(b),
            version_numbers(a),
            number_less(),
        );
        lemma_lex_irreflexive(version_numbers(a), number_less());
    }
}

/// What is newer than a newer version is newer.
pub proof fn newer_is_transitive(a: Seq<char>, b: Seq<char>, c: Seq<char>)
    requires
        is_newer(a, b),
        is_newer(b, c),
    ensures
        is_newer(a, c),
{
    lemma_number_order();
    lemma_lex_transitive(
        version_numbers(c),
        version_numbers(b),
        version_numbers(a),
        number_less(),
    );
}

/// An ASCII letter in lower case; any other character as it is.
pub open spec fn ascii_lower(c: char) -> char {
    if 'A' <= c <= 'Z' {
        (c as int + 32) as char
    } else {
        c
    }
}

/// A text that is not all ASCII in lower case, as `str::to_lowercase` has it.
pub uninterp spec fn unicode_lowercase(s: Seq<char>) -> Seq<char>;

/// A text in lower case: of ASCII text, the capital letters become small ones.
pub open spec fn lowercase(s: Seq<char>) -> Seq<char> {
    if is_ascii_chars(s) {
        Seq::new(s.len(), |i: int| ascii_lower(s[i]))
    } else {
        unicode_lowercase(s)
    }
}

/// `str::to_lowercase`: of ASCII text, the capital letters become small ones;
/// other text is left to its rules.
#[verifier::external_body]
fn to_lower(s: &str) -> (r: String)
    ensures
        is_ascii_chars(s@) ==> r@ == Seq::new(s@.len(), |i: int| ascii_lower(s@[i])),
        !is_ascii_chars(s@) ==> r@ == unicode_lowercase(s@),
{
    s.to_lowercase()
}

/// The digest that a sidecar states: its first word, in lower case.
pub open spec fn stated_digest(sidecar: Seq<u8>) -> Seq<char> {
    lowercase(first_word_of(lossy_text(sidecar)))
}

/// A sidecar with this text, of these bytes, states their digest.
pub open spec fn states_digest(text: Seq<char>, bytes: Seq<u8>) -> bool {
    let hex = hex_text(sha256_bytes(bytes));
    &&& text_starts_with(text, hex)
    &&& text.len() == hex.len() || is_space(text[hex.len() as int])
}

proof fn lemma_until_space(s: Seq<char>, n: int)
    requires
        0 <= n <= s.len(),
        forall|i: int| 0 <= i < n ==> !is_space(#[trigger] s[i]),
        n == s.len() || is_space(s[n]),
    ensures
        until_space(s) == s.take(n),
    decreases n,
{
    if n > 0 {
        let rest = s.skip(1);
        assert forall|i: int| 0 <= i < n - 1 implies !is_space(#[trigger] rest[i]) by {
            assert(rest[i] == s[i + 1]);
        }
        lemma_until_space(rest, n - 1);
        assert(s.take(n) =~= seq![s[0]] + rest.take(n - 1));
    } else {
        assert(s.take(0) =~= seq![]);
    }
}

/// What is downloaded is what its sidecar states.
pub open spec fn checks_out(bytes: Seq<u8>, sidecar: Seq<u8>) -> bool {
    stated_digest(sidecar) == hex_text(sha256_bytes(bytes))
}

/// Integrity gate: the sidecar's digest must be that of the downloaded bytes.
/// A sidecar that states the digest, alone or before white space, passes.
pub fn verify_sha256(bytes: &[u8], sidecar: &[u8]) -> (r: Result<(), String>)
    ensures
        r is Ok <==> stated_digest(sidecar@) == hex_text(sha256_bytes(bytes@)),
        r is Ok <==> checks_out(bytes@, sidecar@),
        r matches Err(e) ==> {
            let want = stated_digest(sidecar@);
            e@ == (if encode_utf8(want).len() != 64 {
                "malformed checksum sidecar "@ + debug_text(want) + " — refusing to install"@
            } else {
                "checksum mismatch: expected "@ + want + ", downloaded "@ + hex_text(
                    sha256_bytes(bytes@),
                ) + " — refusing to install"@
            })
        },
        forall|text: Seq<char>|
            sidecar@ == #[trigger] encode_utf8(text) && states_digest(text, bytes@) ==> r is Ok,
{
    let text = utf8_lossy(sidecar);
    let chars = chars_of(text.as_str());
    let word = text_of(first_word(chars.as_slice()));
    let want = to_lower(word.as_str());
    let got = sha256_hex(bytes);
    proof {
        let hex = got@;
        assert forall|i: int| 0 <= i < hex.len() implies '0' <= #[trigger] hex[i] <= '9' || 'a'
            <= hex[i] <= 'f' by {}
        assert(is_ascii_chars(hex));
        is_ascii_chars_encode_utf8(hex);
        assert forall|t: Seq<char>| sidecar@ == #[trigger] encode_utf8(t) && states_digest(
            t,
            bytes@,
        ) implies want@ == hex by {
            encode_utf8_valid_utf8(t);
            encode_utf8_decode_utf8(t);
            assert(text@ == t);
            assert(t.take(hex.len() as int) == hex);
            assert forall|i: int| 0 <= i < hex.len() implies !is_space(#[trigger] t[i]) by {
                assert(t.take(hex.len() as int)[i] == hex[i]);
            }
            assert(trimmed_start(t) == t);
            lemma_until_space(t, hex.len() as int);
            assert(word@ == hex);
            assert(want@ =~= hex);
        }
    }
    // The length in bytes: a digest has one byte per digit.
    if want.as_str().as_bytes().len() != 64 {
        let mut e = "malformed checksum sidecar ".to_owned();
        e.append(debug_quoted(want.as_str()).as_str());
        e.append(" — refusing to install");
        return Err(e);
    }
    if !same_text(want.as_str(), got.as_str()) {
        let mut e = "checksum mismatch: expected ".to_owned();
        e.append(want.as_str());
        e.append(", downloaded ");
        e.append(got.as_str());
        e.append(" — refusing to install");
        return Err(e);
    }
    Ok(())
}

/// What follows the last slash.
pub open spec fn last_segment(s: Seq<char>) -> Seq<char>
    decreases s.len(),
{
    if s.len() == 0 || s.last() == '/' {
        seq![]
    } else {
        last_segment(s.drop_last()).push(s.last())
    }
}

fn after_last_slash(s: &[char]) -> (r: &[char])
    ensures
        r@ == last_segment(s@),
{
    let n: usize = s.len();
    let mut from: usize = n;
    assert(s@.take(n as int) =~= s@);
    assert(last_segment(s@) + s@.skip(n as int) =~= last_segment(s@));
    while from > 0 && s[from - 1] != '/'
        invariant
            n == s@.len(),
            from <= n,
            last_segment(s@.take(from as int)) + s@.skip(from as int) == last_segment(s@),
        decreases from,
    {
        proof {
            let head = s@.take(from as int);
            assert(head.drop_last() =~= s@.take(from - 1));
            assert(last_segment(s@.take(from - 1)).push(head.last()) + s@.skip(from as int)
                =~= last_segment(s@.take(from - 1)) + s@.skip(from - 1));
        }
        from -= 1;
    }
    assert(last_segment(s@.take(from as int)) =~= seq![]);
    assert(s@.subrange(from as int, n as int) =~= last_segment(s@));
    slice_subrange(s, from, n)
}

/// Whether an answer is a redirect.
pub fn is_redirect(status: u16) -> (r: bool)
    ensures
        r == (300 <= status < 400),
{
    300 <= status && status < 400
}

/// The tag of the release that a redirect leads to, or why there is none.
pub open spec fn redirected_tag(location: Option<Seq<char>>) -> Result<Seq<char>, Seq<char>> {
    match location {
        None => Err("release lookup: no redirect — no releases published yet?"@),
        Some(location) => {
            let tag = last_segment(location);
            if tag.len() > 0 && tag[0] == 'v' {
                Ok(tag)
            } else {
                Err("unexpected release redirect: "@ + location)
            }
        },
    }
}

/// The tag of the latest release, from where the address of the latest release
/// redirects to.
pub fn tag_of(location: Option<&str>) -> (r: Result<String, String>)
    ensures
        location is None ==> (r matches Err(e) && e@
            == "release lookup: no redirect — no releases published yet?"@),
        location is Some ==> {
            let tag = last_segment(location->0@);
            if tag.len() > 0 && tag[0] == 'v' {
                r matches Ok(t) && t@ == tag
            } else {
                r matches Err(e) && e@ == "unexpected release redirect: "@ + location->0@
            }
        },
        r matches Ok(t) ==> redirected_tag(
            match location {
                Some(l) => Some(l@),
                None => None,
            },
        ) == Ok::<Seq<char>, Seq<char>>(t@),
        r matches Err(e) ==> redirected_tag(
            match location {
                Some(l) => Some(l@),
                None => None,
            },
        ) == Err::<Seq<char>, Seq<char>>(e@),
{
    match location {
        None => Err("release lookup: no redirect — no releases published yet?".to_owned()),
        Some(location) => {
            let chars = chars_of(location);
            let tag = after_last_slash(chars.as_slice());
            if tag.len() > 0 && tag[0] == 'v' {
                Ok(text_of(tag))
            } else {
                let mut e = "unexpected release redirect: ".to_owned();
                e.append(location);
                Err(e)
            }
        },
    }
}

/// The address whose redirect names the latest release.
pub fn latest_url() -> (r: String)
    ensures
        r@ == "https://github.com/"@ + REPO@ + "/releases/latest"@,
{
    let mut out = "https://github.com/".to_owned();
    out.append(REPO);
    out.append("/releases/latest");
    out
}

/// The address of the asset of a release for a target.
pub fn asset_url(tag: &str, target: &str, ext: &str) -> (r: String)
    ensures
        r@ == "https://github.com/"@ + REPO@ + "/releases/download/"@ + tag@ + "/reaper-"@ + target@
            + ext@,
{
    let mut out = "https://github.com/".to_owned();
    out.append(REPO);
    out.append("/releases/download/");
    out.append(tag);
    out.append("/reaper-");
    out.append(target);
    out.append(ext);
    out
}

/// The version that a tag names.
pub open spec fn tagged_version(tag: Seq<char>) -> Seq<char> {
    without_prefixes(tag, "v"@)
}

/// The version that a tag names.
pub fn version_of_tag(tag: &str) -> (r: String)
    ensures
        r@ == tagged_version(tag@),
{
    let chars = chars_of(tag);
    let prefix = chars_of("v");
    text_of(strip_prefixes(chars.as_slice(), prefix.as_slice()))
}

/// What to do about the latest release.
#[derive(Debug, PartialEq, Eq)]
pub enum UpdateDecision {
    /// Nothing: say that there is nothing newer.
    UpToDate { notice: String },
    /// Only say that there is a newer release.
    Report { notice: String, hint: String },
    /// Say that there is a newer release, and install it.
    Install { notice: String, version: String },
}

/// What is done about a release: nothing, a report, or an installation of a version.
pub enum DecisionView {
    UpToDate { notice: Seq<char> },
    Report { notice: Seq<char>, hint: Seq<char> },
    Install { notice: Seq<char>, version: Seq<char> },
}

impl View for UpdateDecision {
    type V = DecisionView;

    open spec fn view(&self) -> DecisionView {
        match *self {
            UpdateDecision::UpToDate { notice } => DecisionView::UpToDate { notice: notice@ },
            UpdateDecision::Report { notice, hint } => DecisionView::Report {
                notice: notice@,
                hint: hint@,
            },
            UpdateDecision::Install { notice, version } => DecisionView::Install {
                notice: notice@,
                version: version@,
            },
        }
    }
}

/// What is done about the release of a tag.
pub open spec fn decision_on(current: Seq<char>, tag: Seq<char>, check_only: bool) -> DecisionView {
    let latest = tagged_version(tag);
    let notice = "update available: "@ + current + " → "@ + latest;
    if !is_newer(latest, current) {
        DecisionView::UpToDate {
            notice: "reaper "@ + current + " is up to date (latest release: "@ + tag + ")"@,
        }
    } else if check_only {
        DecisionView::Report { notice, hint: "run `reaper update` to install it"@ }
    } else {
        DecisionView::Install { notice, version: latest }
    }
}

/// Decides what to do about the latest release: only a newer one is installed,
/// and none when the update was only to be checked for.
pub fn decide_update(current: &str, tag: &str, check_only: bool) -> (r: UpdateDecision)
    ensures
        ({
            let latest = tagged_version(tag@);
            let notice = "update available: "@ + current@ + " → "@ + latest;
            if !is_newer(latest, current@) {
                r matches UpdateDecision::UpToDate { notice: n } && n@ == "reaper "@ + current@
                    + " is up to date (latest release: "@ + tag@ + ")"@
            } else if check_only {
                r matches UpdateDecision::Report { notice: n, hint } && n@ == notice && hint@
                    == "run `reaper update` to install it"@
            } else {
                r matches UpdateDecision::Install { notice: n, version } && n@ == notice && version@
                    == latest
            }
        }),
        r@ == decision_on(current@, tag@, check_only),
{
    let latest = version_of_tag(tag);
    if !newer(latest.as_str(), current) {
        let mut notice = "reaper ".to_owned();
        notice.append(current);
        notice.append(" is up to date (latest release: ");
        notice.append(tag);
        notice.append(")");
        return UpdateDecision::UpToDate { notice };
    }
    let mut notice = "update available: ".to_owned();
    notice.append(current);
    notice.append(" → ");
    notice.append(latest.as_str());
    if check_only {
        UpdateDecision::Report { notice, hint: "run `reaper update` to install it".to_owned() }
    } else {
        UpdateDecision::Install { notice, version: latest }
    }
}

} // verus!
