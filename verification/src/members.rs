//! Reading the members of a JSON object, where a member that is given twice reads
//! as no value: which of the two would be meant is in doubt. An array can stand for
//! an object: its items are then the members, in a fixed order.

use crate::json::{
    distinct_names, field_of, field_views, item_views, json_escape, json_escapes, json_member, json_members,
    json_object, json_object_text, json_text, json_value, read_member, read_object, reads_back,
    FieldView, JsonField, ValueView,
};
use crate::text::{
    chars_of, decimal_text, hex_char, is_digit, lemma_decimal_digits, same_text, str_views,
    text_of, text_option,
};
use vstd::prelude::*;
use vstd::string::*;

verus! {

/// How far the names of an object's members have been looked for in its text.
pub struct Scan {
    /// How many objects and arrays are open.
    pub depth: nat,
    /// A string is open.
    pub inside: bool,
    /// The next character of it is escaped.
    pub escaped: bool,
    /// What stands between the quotes of the string that is open, or was last.
    pub last: Seq<char>,
    /// The names so far, as they stand between their quotes.
    pub keys: Seq<Seq<char>>,
}

/// Before the first character.
pub open spec fn scan_start() -> Scan {
    Scan { depth: 0, inside: false, escaped: false, last: seq![], keys: seq![] }
}

/// After one more character. A string is a name of the outermost object where a
/// colon follows it there.
pub open spec fn scan_step(scan: Scan, c: char) -> Scan {
    if scan.inside {
        if scan.escaped {
            Scan { escaped: false, last: scan.last.push(c), ..scan }
        } else if c == '\\' {
            Scan { escaped: true, last: scan.last.push(c), ..scan }
        } else if c == '"' {
            Scan { inside: false, ..scan }
        } else {
            Scan { last: scan.last.push(c), ..scan }
        }
    } else if c == '"' {
        Scan { inside: true, last: seq![], ..scan }
    } else if c == '{' || c == '[' {
        Scan { depth: scan.depth + 1, ..scan }
    } else if c == '}' || c == ']' {
        Scan {
            depth: if scan.depth > 0 {
                (scan.depth - 1) as nat
            } else {
                0
            },
            ..scan
        }
    } else if c == ':' && scan.depth == 1 {
        Scan { keys: scan.keys.push(scan.last), ..scan }
    } else {
        scan
    }
}

/// After these characters.
pub open spec fn scan_over(scan: Scan, s: Seq<char>) -> Scan
    decreases s.len(),
{
    if s.len() == 0 {
        scan
    } else {
        scan_step(scan_over(scan, s.drop_last()), s.last())
    }
}

/// The names of the members in the text of an object, in order, as they stand
/// between their quotes.
pub open spec fn member_keys(text: Seq<char>) -> Seq<Seq<char>> {
    scan_over(scan_start(), text).keys
}

/// The text of an object with one member, whose name stands so between its quotes.
pub open spec fn key_object(key: Seq<char>) -> Seq<char> {
    seq!['{', '"'] + key + seq!['"', ':', 'n', 'u', 'l', 'l', '}']
}

/// The name that stands so between its quotes.
pub open spec fn key_name(key: Seq<char>) -> Option<Seq<char>> {
    match json_object(key_object(key)) {
        Some(fields) => if fields.len() == 1 {
            Some(fields[0].0)
        } else {
            None
        },
        None => None,
    }
}

/// How many of these are the name.
pub open spec fn times_given(names: Seq<Option<Seq<char>>>, name: Seq<char>) -> nat
    decreases names.len(),
{
    if names.len() == 0 {
        0
    } else {
        times_given(names.drop_last(), name) + (if names.last() == Some(name) {
            1nat
        } else {
            0
        })
    }
}

/// The names of the members in the text of an object, in order.
pub open spec fn member_names(text: Seq<char>) -> Seq<Option<Seq<char>>> {
    let keys = member_keys(text);
    Seq::new(keys.len(), |i: int| key_name(keys[i]))
}

/// Fields, of which those that are given more than once hold no value that can be
/// read.
pub open spec fn given_once(
    fields: Seq<(Seq<char>, FieldView)>,
    names: Seq<Option<Seq<char>>>,
) -> Seq<(Seq<char>, FieldView)> {
    Seq::new(
        fields.len(),
        |i: int|
            (
                fields[i].0,
                if times_given(names, fields[i].0) > 1 {
                    FieldView::Other
                } else {
                    fields[i].1
                },
            ),
    )
}

/// The members of the object that a JSON text holds. One that is given more than
/// once holds no value that can be read.
pub open spec fn object_members(text: Seq<char>) -> Option<Seq<(Seq<char>, FieldView)>> {
    match json_object(text) {
        Some(fields) => Some(given_once(fields, member_names(text))),
        None => None,
    }
}

/// Finds the names of the members in the text of an object.
pub fn find_keys(text: &str) -> (r: Vec<Vec<char>>)
    ensures
        r@.len() == member_keys(text@).len(),
        forall|i: int| 0 <= i < r@.len() ==> (#[trigger] r@[i])@ == member_keys(text@)[i],
{
    let chars = chars_of(text);
    let mut depth: usize = 0;
    let mut inside = false;
    let mut escaped = false;
    let mut last: Vec<char> = Vec::new();
    let mut keys: Vec<Vec<char>> = Vec::new();
    let ghost mut scan = scan_start();
    assert(scan.last =~= last@);
    for i in 0..chars.len()
        invariant
            chars@ == text@,
            scan == scan_over(scan_start(), text@.take(i as int)),
            depth <= i,
            scan.depth == depth,
            scan.inside == inside,
            scan.escaped == escaped,
            scan.last == last@,
            scan.keys.len() == keys@.len(),
            forall|j: int| 0 <= j < keys@.len() ==> (#[trigger] keys@[j])@ == scan.keys[j],
    {
        let c = chars[i];
        proof {
            let next = text@.take(i + 1);
            assert(next.drop_last() =~= text@.take(i as int));
            assert(next.last() == c);
            scan = scan_step(scan, c);
        }
        if inside {
            if escaped {
                escaped = false;
                last.push(c);
            } else if c == '\\' {
                escaped = true;
                last.push(c);
            } else if c == '"' {
                inside = false;
            } else {
                last.push(c);
            }
        } else if c == '"' {
            inside = true;
            last = Vec::new();
            assert(scan.last =~= last@);
        } else if c == '{' || c == '[' {
            depth += 1;
        } else if c == '}' || c == ']' {
            if depth > 0 {
                depth -= 1;
            }
        } else if c == ':' && depth == 1 {
            let key = text_of(last.as_slice());
            keys.push(chars_of(key.as_str()));
        }
    }
    assert(text@.take(text@.len() as int) =~= text@);
    keys
}

fn read_key(key: &[char]) -> (r: Option<String>)
    ensures
        text_option(r) == key_name(key@),
        forall|name: Seq<char>| key@ == #[trigger] json_escapes(name) ==> key_name(key@) == Some(name),
{
    let mut text = String::new();
    text.push('{');
    text.push('"');
    text.append(text_of(key).as_str());
    text.append("\":null}");
    proof {
        reveal_strlit("\":null}");
        assert(text@ =~= key_object(key@));
    }
    let fields = read_object(text.as_str());
    proof {
        assert forall|name: Seq<char>| key@ == #[trigger] json_escapes(name) implies key_name(key@)
            == Some(name) by {
            let members = seq![(name, ValueView::Null)];
            reveal_strlit("null");
            assert(json_members(members) == json_member(members[0]));
            assert(text@ =~= json_object_text(members));
            assert(distinct_names(members));
            assert(fields is Some);
            let views = field_views(fields->0@);
            assert(views.contains(read_member(members[0])));
        }
    }
    match fields {
        Some(fields) => {
            if fields.len() == 1 {
                Some(fields[0].0.clone())
            } else {
                None
            }
        },
        None => None,
    }
}

fn count_given(names: &[Option<String>], name: &str) -> (r: usize)
    ensures
        r == times_given(name_views(names@), name@),
{
    let ghost all = name_views(names@);
    let mut n: usize = 0;
    for i in 0..names.len()
        invariant
            all == name_views(names@),
            n == times_given(all.take(i as int), name@),
            n <= i,
    {
        assert(all.take(i + 1).drop_last() =~= all.take(i as int));
        assert(all.take(i + 1).last() == text_option(names@[i as int]));
        match &names[i] {
            Some(given) => {
                if same_text(given.as_str(), name) {
                    n += 1;
                }
            },
            None => {},
        }
    }
    assert(all.take(all.len() as int) =~= all);
    n
}

/// Names, where they can be read, as characters.
pub open spec fn name_views(names: Seq<Option<String>>) -> Seq<Option<Seq<char>>> {
    Seq::new(names.len(), |i: int| text_option(names[i]))
}

/// Fields, of which those that are given more than once hold no value that can be
/// read.
pub fn keep_once(fields: Vec<(String, JsonField)>, names: &[Option<String>]) -> (r: Vec<
    (String, JsonField),
>)
    ensures
        field_views(r@) == given_once(field_views(fields@), name_views(names@)),
{
    let ghost given = name_views(names@);
    let ghost start = fields@;
    let mut out: Vec<(String, JsonField)> = Vec::new();
    for field in it: fields
        invariant
            it.seq() == start,
            out@.len() == it.index(),
            given == name_views(names@),
            forall|j: int|
                0 <= j < out@.len() ==> field_views(out@)[j] == (#[trigger] given_once(
                    field_views(start),
                    given,
                )[j]),
    {
        let ghost k = it.index();
        let ghost before = field_views(out@);
        let (name, value) = field;
        assert(field_views(start)[k] == (start[k].0@, start[k].1@));
        if count_given(names, name.as_str()) > 1 {
            out.push((name, JsonField::Other));
        } else {
            out.push((name, value));
        }
        assert forall|j: int| 0 <= j < out@.len() implies field_views(out@)[j] == (
        #[trigger] given_once(field_views(start), given)[j]) by {
            if j < k {
                assert(field_views(out@)[j] == before[j]);
            }
        }
    }
    assert(field_views(out@) =~= given_once(field_views(start), given));
    out
}

/// A member that is given twice is in doubt: it reads as no text, no number and not
/// as left out.
pub proof fn member_given_twice_is_unreadable(
    fields: Seq<(Seq<char>, FieldView)>,
    names: Seq<Option<Seq<char>>>,
    name: Seq<char>,
)
    requires
        times_given(names, name) > 1,
        field_of(fields, name) is Some,
    ensures
        field_of(given_once(fields, names), name) == Some(FieldView::Other),
    decreases fields.len(),
{
    let once = given_once(fields, names);
    assert(once[0].0 == fields[0].0);
    if fields[0].0 != name {
        assert(once.skip(1) =~= given_once(fields.skip(1), names));
        member_given_twice_is_unreadable(fields.skip(1), names, name);
    }
}

/// A member that is given once reads as it is.
pub proof fn member_given_once_is_kept(
    fields: Seq<(Seq<char>, FieldView)>,
    names: Seq<Option<Seq<char>>>,
    name: Seq<char>,
)
    requires
        times_given(names, name) <= 1,
    ensures
        field_of(given_once(fields, names), name) == field_of(fields, name),
    decreases fields.len(),
{
    if fields.len() > 0 {
        let once = given_once(fields, names);
        assert(once[0].0 == fields[0].0);
        assert(once.skip(1) =~= given_once(fields.skip(1), names));
        member_given_once_is_kept(fields.skip(1), names, name);
    }
}

/// The members of the object that a JSON text holds, each name once. One that is
/// given more than once holds no value that can be read. The text of a written
/// object reads back as its members.
pub fn read_members(text: &str) -> (r: Option<Vec<(String, JsonField)>>)
    ensures
        r is Some <==> object_members(text@) is Some,
        r matches Some(fields) ==> object_members(text@) == Some(field_views(fields@)),
        r matches Some(fields) ==> distinct_names(field_views(fields@)),
        reads_back(text@, r),
{
    let fields = match read_object(text) {
        Some(fields) => fields,
        None => return None,
    };
    let keys = find_keys(text);
    let ghost all_keys = member_keys(text@);
    let mut names: Vec<Option<String>> = Vec::new();
    for i in 0..keys.len()
        invariant
            keys@.len() == all_keys.len(),
            names@.len() == i,
            forall|j: int| 0 <= j < keys@.len() ==> (#[trigger] keys@[j])@ == all_keys[j],
            forall|j: int|
                0 <= j < i ==> text_option(#[trigger] names@[j]) == key_name(all_keys[j]),
            forall|j: int, name: Seq<char>|
                0 <= j < i && #[trigger] all_keys[j] == #[trigger] json_escapes(name) ==> key_name(
                    all_keys[j],
                ) == Some(name),
    {
        names.push(read_key(keys[i].as_slice()));
    }
    let ghost given = member_names(text@);
    assert(name_views(names@) =~= given);
    let ghost views = field_views(fields@);
    let out = keep_once(fields, names.as_slice());
    proof {
        let once = given_once(views, given);
        assert forall|i: int, j: int| 0 <= i < j < once.len() implies (#[trigger] once[i]).0 != (
        #[trigger] once[j]).0 by {
            assert(views[i].0 != views[j].0);
        }
        assert forall|members: Seq<(Seq<char>, ValueView)>|
            text@ == #[trigger] json_object_text(members) && distinct_names(
                members,
            ) implies forall|i: int|
            0 <= i < members.len() ==> once.contains(read_member(#[trigger] members[i])) by {
            written_names_are_found(members);
            lemma_written_once(members, views, given);
        }
        assert(reads_back(text@, Some(out)));
    }
    Some(out)
}

/// Items as the members of these names, where there is one for each.
pub open spec fn named(items: Seq<FieldView>, names: Seq<Seq<char>>) -> Option<
    Seq<(Seq<char>, FieldView)>,
> {
    if items.len() == names.len() {
        Some(Seq::new(items.len(), |i: int| (names[i], items[i])))
    } else {
        None
    }
}

/// Items as the members of these names, where there is one for each.
pub fn name_items(items: Vec<JsonField>, names: &[&str]) -> (r: Option<Vec<(String, JsonField)>>)
    ensures
        r is Some <==> named(item_views(items@), str_views(names@)) is Some,
        r matches Some(fields) ==> named(item_views(items@), str_views(names@)) == Some(
            field_views(fields@),
        ),
{
    if items.len() != names.len() {
        return None;
    }
    let ghost start = items@;
    let ghost all = named(item_views(start), str_views(names@))->0;
    let mut out: Vec<(String, JsonField)> = Vec::new();
    for item in it: items
        invariant
            it.seq() == start,
            out@.len() == it.index(),
            start.len() == names@.len(),
            all == named(item_views(start), str_views(names@))->0,
            forall|j: int| 0 <= j < out@.len() ==> field_views(out@)[j] == (#[trigger] all[j]),
    {
        let ghost k = it.index();
        let ghost before = field_views(out@);
        let i: usize = out.len();
        out.push((names[i].to_owned(), item));
        assert forall|j: int| 0 <= j < out@.len() implies field_views(out@)[j] == (
        #[trigger] all[j]) by {
            if j < k {
                assert(field_views(out@)[j] == before[j]);
            }
        }
    }
    assert(field_views(out@) =~= all);
    Some(out)
}

/// The values of written members, in order, as they are read.
pub open spec fn read_values(members: Seq<(Seq<char>, ValueView)>) -> Seq<FieldView> {
    Seq::new(members.len(), |i: int| read_member(members[i]).1)
}

/// The values of written members stand for them, by their names.
pub proof fn values_stand_for_members(
    members: Seq<(Seq<char>, ValueView)>,
    names: Seq<Seq<char>>,
)
    requires
        names.len() == members.len(),
        forall|i: int| 0 <= i < names.len() ==> (#[trigger] names[i]) == members[i].0,
        distinct_names(members),
    ensures
        ({
            let fields = named(read_values(members), names);
            &&& fields is Some
            &&& distinct_names(fields->0)
            &&& forall|i: int|
                0 <= i < members.len() ==> fields->0.contains(read_member(#[trigger] members[i]))
        }),
{
    let fields = named(read_values(members), names)->0;
    assert forall|i: int, j: int| 0 <= i < j < fields.len() implies (#[trigger] fields[i]).0 != (
    #[trigger] fields[j]).0 by {
        assert(members[i].0 != members[j].0);
    }
    assert forall|i: int| 0 <= i < members.len() implies fields.contains(
        read_member(#[trigger] members[i]),
    ) by {
        assert(fields[i] == read_member(members[i]));
    }
}

/// What is written once reads as what was written.
proof fn lemma_written_once(
    members: Seq<(Seq<char>, ValueView)>,
    fields: Seq<(Seq<char>, FieldView)>,
    names: Seq<Option<Seq<char>>>,
)
    requires
        distinct_names(members),
        names.len() == members.len(),
        forall|i: int| 0 <= i < names.len() ==> (#[trigger] names[i]) == Some(members[i].0),
        forall|i: int|
            0 <= i < members.len() ==> fields.contains(read_member(#[trigger] members[i])),
    ensures
        forall|i: int|
            0 <= i < members.len() ==> given_once(fields, names).contains(
                read_member(#[trigger] members[i]),
            ),
{
    let once = given_once(fields, names);
    assert forall|i: int| 0 <= i < members.len() implies once.contains(
        read_member(#[trigger] members[i]),
    ) by {
        let m = read_member(members[i]);
        let k = choose|k: int| 0 <= k < fields.len() && fields[k] == m;
        lemma_given_at_most_once(members, names, m.0);
        assert(once[k] == m);
    }
}

proof fn lemma_given_at_most_once(
    members: Seq<(Seq<char>, ValueView)>,
    names: Seq<Option<Seq<char>>>,
    name: Seq<char>,
)
    requires
        distinct_names(members),
        names.len() == members.len(),
        forall|i: int| 0 <= i < names.len() ==> (#[trigger] names[i]) == Some(members[i].0),
    ensures
        times_given(names, name) <= 1,
        times_given(names, name) == 1 ==> exists|i: int|
            0 <= i < members.len() && (#[trigger] members[i]).0 == name,
    decreases members.len(),
{
    if members.len() > 0 {
        let fewer = members.drop_last();
        assert forall|i: int, j: int| 0 <= i < j < fewer.len() implies (#[trigger] fewer[i]).0 != (
        #[trigger] fewer[j]).0 by {
            assert(members[i].0 != members[j].0);
        }
        lemma_given_at_most_once(fewer, names.drop_last(), name);
        let n = members.len() - 1;
        assert(names.last() == Some(members[n].0));
        if times_given(names.drop_last(), name) == 1 {
            let i = choose|i: int| 0 <= i < fewer.len() && (#[trigger] fewer[i]).0 == name;
            assert(members[i].0 == name);
            assert(members[i].0 != members[n].0);
        }
    }
}

proof fn lemma_scan_concat(scan: Scan, a: Seq<char>, b: Seq<char>)
    ensures
        scan_over(scan, a + b) == scan_over(scan_over(scan, a), b),
    decreases b.len(),
{
    if b.len() == 0 {
        assert(a + b =~= a);
    } else {
        assert((a + b).drop_last() =~= a + b.drop_last());
        lemma_scan_concat(scan, a, b.drop_last());
    }
}

proof fn lemma_scan_one(scan: Scan, c: char)
    ensures
        scan_over(scan, seq![c]) == scan_step(scan, c),
{
    assert(seq![c].drop_last() =~= seq![]);
    assert(scan_over(scan, seq![c].drop_last()) == scan);
}

/// Inside of a string, an escaped character is part of it.
proof fn lemma_scan_escape(scan: Scan, c: char)
    requires
        scan.inside,
        !scan.escaped,
    ensures
        scan_over(scan, json_escape(c)) == (Scan { last: scan.last + json_escape(c), ..scan }),
{
    let e = json_escape(c);
    if e.len() == 1 {
        lemma_scan_one(scan, c);
    } else if e.len() == 2 {
        lemma_scan_two(scan, e[1]);
        assert(e =~= seq!['\\', e[1]]);
    } else {
        let h = hex_char(c as int / 16);
        let l = hex_char(c as int % 16);
        assert(h as int == '0' as int + c as int / 16);
        assert(l == hex_char(c as int % 16) && l != '"' && l != '\\');
        lemma_scan_two(scan, 'u');
        let s2 = scan_over(scan, seq!['\\', 'u']);
        let s3 = scan_step(s2, '0');
        let s4 = scan_step(s3, '0');
        let s5 = scan_step(s4, h);
        lemma_scan_one(s2, '0');
        lemma_scan_concat(scan, seq!['\\', 'u'], seq!['0']);
        lemma_scan_one(s3, '0');
        lemma_scan_concat(scan, seq!['\\', 'u'] + seq!['0'], seq!['0']);
        lemma_scan_one(s4, h);
        lemma_scan_concat(scan, seq!['\\', 'u'] + seq!['0'] + seq!['0'], seq![h]);
        lemma_scan_one(s5, l);
        lemma_scan_concat(scan, seq!['\\', 'u'] + seq!['0'] + seq!['0'] + seq![h], seq![l]);
        assert(e =~= seq!['\\', 'u'] + seq!['0'] + seq!['0'] + seq![h] + seq![l]);
        assert(scan_over(scan, e) == scan_step(s5, l));
        assert(scan_step(s5, l).last =~= scan.last + e);
    }
    assert(scan_over(scan, e).last =~= scan.last + e);
}

proof fn lemma_scan_two(scan: Scan, c: char)
    requires
        scan.inside,
        !scan.escaped,
    ensures
        scan_over(scan, seq!['\\', c]) == (Scan { last: scan.last + seq!['\\', c], ..scan }),
{
    let middle = scan_step(scan, '\\');
    lemma_scan_one(scan, '\\');
    lemma_scan_one(middle, c);
    lemma_scan_concat(scan, seq!['\\'], seq![c]);
    assert(seq!['\\'] + seq![c] =~= seq!['\\', c]);
    assert(scan_step(middle, c).last =~= scan.last + seq!['\\', c]);
}

proof fn lemma_scan_escapes(scan: Scan, s: Seq<char>)
    requires
        scan.inside,
        !scan.escaped,
    ensures
        scan_over(scan, json_escapes(s)) == (Scan { last: scan.last + json_escapes(s), ..scan }),
    decreases s.len(),
{
    if s.len() == 0 {
        assert(scan.last + json_escapes(s) =~= scan.last);
    } else {
        let start = json_escapes(s.drop_last());
        let e = json_escape(s.last());
        lemma_scan_escapes(scan, s.drop_last());
        lemma_scan_concat(scan, start, e);
        lemma_scan_escape(scan_over(scan, start), s.last());
        assert(scan.last + start + e =~= scan.last + (start + e));
    }
}

/// A string leaves what is between its quotes behind.
proof fn lemma_scan_text(scan: Scan, s: Seq<char>)
    requires
        !scan.inside,
        !scan.escaped,
    ensures
        scan_over(scan, json_text(s)) == (Scan { last: json_escapes(s), ..scan }),
{
    let open = Scan { inside: true, last: seq![], ..scan };
    let quote = seq!['"'];
    lemma_scan_one(scan, '"');
    lemma_scan_concat(scan, quote, json_escapes(s));
    lemma_scan_escapes(open, s);
    assert(Seq::<char>::empty() + json_escapes(s) =~= json_escapes(s));
    let full = scan_over(open, json_escapes(s));
    lemma_scan_one(full, '"');
    lemma_scan_concat(scan, quote + json_escapes(s), quote);
}

/// Outside of strings, digits and letters change nothing.
proof fn lemma_scan_plain(scan: Scan, s: Seq<char>)
    requires
        !scan.inside,
        forall|i: int|
            0 <= i < s.len() ==> is_digit(#[trigger] s[i]) || s[i] == 'n' || s[i] == 'u' || s[i]
                == 'l',
    ensures
        scan_over(scan, s) == scan,
    decreases s.len(),
{
    if s.len() > 0 {
        lemma_scan_plain(scan, s.drop_last());
        assert(is_digit(s[s.len() - 1]) || s.last() == 'n' || s.last() == 'u' || s.last() == 'l');
    }
}

/// The two are the same but for the last string.
pub open spec fn same_but_last(a: Scan, b: Scan) -> bool {
    a.depth == b.depth && a.inside == b.inside && a.escaped == b.escaped && a.keys == b.keys
}

proof fn lemma_scan_value(scan: Scan, v: ValueView)
    requires
        !scan.inside,
        !scan.escaped,
    ensures
        same_but_last(scan_over(scan, json_value(v)), scan),
{
    match v {
        ValueView::Text(s) => lemma_scan_text(scan, s),
        ValueView::Number(n) => {
            lemma_decimal_digits(n as nat);
            lemma_scan_plain(scan, decimal_text(n as nat));
        },
        ValueView::Null => {
            reveal_strlit("null");
            lemma_scan_plain(scan, "null"@);
        },
    }
}

/// A member of the outermost object leaves its name behind.
proof fn lemma_scan_member(scan: Scan, m: (Seq<char>, ValueView))
    requires
        !scan.inside,
        !scan.escaped,
        scan.depth == 1,
    ensures
        same_but_last(
            scan_over(scan, json_member(m)),
            Scan { keys: scan.keys.push(json_escapes(m.0)), ..scan },
        ),
{
    let name = json_text(m.0);
    let named = scan_over(scan, name);
    lemma_scan_text(scan, m.0);
    lemma_scan_one(named, ':');
    lemma_scan_concat(scan, name, seq![':']);
    lemma_scan_concat(scan, name + seq![':'], json_value(m.1));
    lemma_scan_value(scan_over(scan, name + seq![':']), m.1);
}

/// The names of members, as they stand between their quotes.
pub open spec fn written_keys(members: Seq<(Seq<char>, ValueView)>) -> Seq<Seq<char>> {
    Seq::new(members.len(), |i: int| json_escapes(members[i].0))
}

proof fn lemma_scan_members(scan: Scan, members: Seq<(Seq<char>, ValueView)>)
    requires
        !scan.inside,
        !scan.escaped,
        scan.depth == 1,
        scan.keys == Seq::<Seq<char>>::empty(),
    ensures
        same_but_last(
            scan_over(scan, json_members(members)),
            Scan { keys: written_keys(members), ..scan },
        ),
    decreases members.len(),
{
    let keys = written_keys(members);
    if members.len() == 0 {
        assert(keys =~= scan.keys);
    } else if members.len() == 1 {
        lemma_scan_member(scan, members[0]);
        assert(keys =~= scan.keys.push(json_escapes(members[0].0)));
    } else {
        let fewer = members.drop_last();
        let start = json_members(fewer);
        lemma_scan_members(scan, fewer);
        let middle = scan_over(scan, start);
        lemma_scan_one(middle, ',');
        lemma_scan_concat(scan, start, seq![',']);
        lemma_scan_concat(scan, start + seq![','], json_member(members.last()));
        lemma_scan_member(middle, members.last());
        assert(keys =~= written_keys(fewer).push(json_escapes(members.last().0)));
    }
}

/// In the text of a written object the names of its members are found.
pub proof fn written_names_are_found(members: Seq<(Seq<char>, ValueView)>)
    ensures
        member_keys(json_object_text(members)) == written_keys(members),
{
    let start = scan_start();
    let open = scan_step(start, '{');
    lemma_scan_one(start, '{');
    lemma_scan_concat(start, seq!['{'], json_members(members));
    lemma_scan_members(open, members);
    let full = scan_over(open, json_members(members));
    lemma_scan_one(full, '}');
    lemma_scan_concat(start, seq!['{'] + json_members(members), seq!['}']);
}

} // verus!
