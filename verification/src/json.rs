//! JSON texts of flat objects: written member by member, read back as fields.

use crate::text::{decimal, decimal_text, hex_char, same_text, text_option};
use vstd::prelude::*;
use vstd::string::*;

verus! {

/// How one character stands inside a JSON string.
pub open spec fn json_escape(c: char) -> Seq<char> {
    if c == '"' {
        seq!['\\', '"']
    } else if c == '\\' {
        seq!['\\', '\\']
    } else if c == '\u{8}' {
        seq!['\\', 'b']
    } else if c == '\t' {
        seq!['\\', 't']
    } else if c == '\n' {
        seq!['\\', 'n']
    } else if c == '\u{c}' {
        seq!['\\', 'f']
    } else if c == '\r' {
        seq!['\\', 'r']
    } else if (c as int) < 0x20 {
        seq!['\\', 'u', '0', '0', hex_char(c as int / 16), hex_char(c as int % 16)]
    } else {
        seq![c]
    }
}

/// The characters of a text, as they stand inside a JSON string.
pub open spec fn json_escapes(s: Seq<char>) -> Seq<char>
    decreases s.len(),
{
    if s.len() == 0 {
        seq![]
    } else {
        json_escapes(s.drop_last()) + json_escape(s.last())
    }
}

/// A text as a JSON string.
pub open spec fn json_text(s: Seq<char>) -> Seq<char> {
    seq!['"'] + json_escapes(s) + seq!['"']
}

/// A value that is written.
#[derive(Debug, Clone, Copy, PartialEq, Eq)]
pub enum JsonValue<'a> {
    Text(&'a str),
    Number(u64),
    Null,
}

/// The view of a [`JsonValue`].
pub enum ValueView {
    Text(Seq<char>),
    Number(u64),
    Null,
}

impl<'a> View for JsonValue<'a> {
    type V = ValueView;

    open spec fn view(&self) -> ValueView {
        match *self {
            JsonValue::Text(s) => ValueView::Text(s@),
            JsonValue::Number(n) => ValueView::Number(n),
            JsonValue::Null => ValueView::Null,
        }
    }
}

/// A text, or `null`.
pub open spec fn text_or_null(s: Option<Seq<char>>) -> ValueView {
    match s {
        Some(s) => ValueView::Text(s),
        None => ValueView::Null,
    }
}

/// A text, or `null`.
pub fn optional_value(s: &Option<String>) -> (r: JsonValue<'_>)
    ensures
        r@ == text_or_null(text_option(*s)),
{
    match s {
        Some(s) => JsonValue::Text(s.as_str()),
        None => JsonValue::Null,
    }
}

/// How a value is written.
pub open spec fn json_value(v: ValueView) -> Seq<char> {
    match v {
        ValueView::Text(s) => json_text(s),
        ValueView::Number(n) => decimal_text(n as nat),
        ValueView::Null => "null"@,
    }
}

/// `serde_json::to_string` of a text: a JSON string in which quotes, backslashes
/// and control characters are escaped, and nothing else.
#[verifier::external_body]
fn quote(s: &str) -> (r: String)
    ensures
        r@ == json_text(s@),
{
    serde_json::to_string(s).unwrap()
}

/// One member of an object: a name and a value.
pub open spec fn json_member(m: (Seq<char>, ValueView)) -> Seq<char> {
    json_text(m.0) + seq![':'] + json_value(m.1)
}

/// The members of an object, separated by commas.
pub open spec fn json_members(members: Seq<(Seq<char>, ValueView)>) -> Seq<char>
    decreases members.len(),
{
    if members.len() == 0 {
        seq![]
    } else if members.len() == 1 {
        json_member(members[0])
    } else {
        json_members(members.drop_last()) + seq![','] + json_member(members.last())
    }
}

/// An object with these members, in this order, without white space.
pub open spec fn json_object_text(members: Seq<(Seq<char>, ValueView)>) -> Seq<char> {
    seq!['{'] + json_members(members) + seq!['}']
}

/// The members of an object as a caller holds them.
pub open spec fn member_views(members: Seq<(&str, JsonValue<'_>)>) -> Seq<(Seq<char>, ValueView)> {
    Seq::new(members.len(), |i: int| (members[i].0@, members[i].1@))
}

/// Writes an object with these members.
pub fn write_object(members: &[(&str, JsonValue<'_>)]) -> (r: String)
    ensures
        r@ == json_object_text(member_views(members@)),
{
    let ghost all = member_views(members@);
    let mut out = String::new();
    out.push('{');
    let mut i: usize = 0;
    while i < members.len()
        invariant
            i <= members@.len(),
            all == member_views(members@),
            out@ == seq!['{'] + json_members(all.take(i as int)),
        decreases members@.len() - i,
    {
        let ghost before = out@;
        let (name, value) = members[i];
        if i > 0 {
            out.push(',');
        }
        let name = quote(name);
        out.append(name.as_str());
        out.push(':');
        match value {
            JsonValue::Text(text) => {
                let text = quote(text);
                out.append(text.as_str());
            },
            JsonValue::Number(n) => {
                let text = decimal(n);
                out.append(text.as_str());
            },
            JsonValue::Null => out.append("null"),
        }
        proof {
            let next = all.take(i + 1);
            assert(next.drop_last() =~= all.take(i as int));
            assert(next.last() == all[i as int]);
            if i == 0 {
                assert(all.take(0).len() == 0);
                assert(out@ =~= seq!['{'] + json_members(next));
            } else {
                assert(out@ =~= before + seq![','] + json_member(all[i as int]));
                assert(out@ =~= seq!['{'] + json_members(next));
            }
        }
        i += 1;
    }
    out.push('}');
    assert(all.take(all.len() as int) =~= all);
    assert(out@ =~= json_object_text(all));
    out
}

/// What a member of a parsed object, or an item of a parsed array, holds.
#[derive(Debug, PartialEq, Eq)]
pub enum JsonField {
    Text(String),
    Number(u64),
    Null,
    /// A boolean, a number that is no `u64`, an array or an object.
    Other,
}

/// The view of a [`JsonField`].
pub enum FieldView {
    Text(Seq<char>),
    Number(u64),
    Null,
    Other,
}

impl View for JsonField {
    type V = FieldView;

    open spec fn view(&self) -> FieldView {
        match *self {
            JsonField::Text(s) => FieldView::Text(s@),
            JsonField::Number(n) => FieldView::Number(n),
            JsonField::Null => FieldView::Null,
            JsonField::Other => FieldView::Other,
        }
    }
}

/// The members of a parsed object, by their views.
pub open spec fn field_views(fields: Seq<(String, JsonField)>) -> Seq<(Seq<char>, FieldView)> {
    Seq::new(fields.len(), |i: int| (fields[i].0@, fields[i].1@))
}

/// A written member, as it is read.
pub open spec fn read_member(m: (Seq<char>, ValueView)) -> (Seq<char>, FieldView) {
    (
        m.0,
        match m.1 {
            ValueView::Text(s) => FieldView::Text(s),
            ValueView::Number(n) => FieldView::Number(n),
            ValueView::Null => FieldView::Null,
        },
    )
}

/// No two pairs have the same first part.
pub open spec fn distinct_names<V>(s: Seq<(Seq<char>, V)>) -> bool {
    forall|i: int, j: int| 0 <= i < j < s.len() ==> (#[trigger] s[i]).0 != (#[trigger] s[j]).0
}

/// The members of the object that a JSON text holds, as `serde_json::from_str`
/// reads them into a `serde_json::Map`; `None` where the text is no JSON object.
pub uninterp spec fn json_object(text: Seq<char>) -> Option<Seq<(Seq<char>, FieldView)>>;

/// If `text` is that of a written object, `r` holds each of its members and nothing
/// else.
pub open spec fn reads_back(text: Seq<char>, r: Option<Vec<(String, JsonField)>>) -> bool {
    forall|members: Seq<(Seq<char>, ValueView)>|
        text == #[trigger] json_object_text(members) && distinct_names(members) ==> (r matches Some(
            fields,
        ) && fields@.len() == members.len() && forall|i: int|
            0 <= i < members.len() ==> field_views(fields@).contains(
                read_member(#[trigger] members[i]),
            ))
}

/// `serde_json::from_str` into a `serde_json::Map`: the members of the object,
/// each name once (a name that is given twice has what was given last). The
/// text of a written object reads back as its members.
#[verifier::external_body]
pub(crate) fn read_object(text: &str) -> (r: Option<Vec<(String, JsonField)>>)
    ensures
        r is Some <==> json_object(text@) is Some,
        r matches Some(fields) ==> json_object(text@) == Some(field_views(fields@)),
        r matches Some(fields) ==> distinct_names(field_views(fields@)),
        reads_back(text@, r),
{
    let object: serde_json::Map<String, serde_json::Value> = serde_json::from_str(text).ok()?;
    let field = |value| match value {
        serde_json::Value::String(s) => JsonField::Text(s),
        serde_json::Value::Null => JsonField::Null,
        serde_json::Value::Bool(_) => JsonField::Other,
        serde_json::Value::Number(n) => n.as_u64().map_or(JsonField::Other, JsonField::Number),
        serde_json::Value::Array(_) => JsonField::Other,
        serde_json::Value::Object(_) => JsonField::Other,
    };
    Some(object.into_iter().map(|(name, value)| (name, field(value))).collect())
}

/// The items of a parsed array, by their views.
pub open spec fn item_views(items: Seq<JsonField>) -> Seq<FieldView> {
    Seq::new(items.len(), |i: int| items[i]@)
}

/// The items of the array that a JSON text holds, as `serde_json::from_str` reads
/// them into a vector of `serde_json::Value`; `None` where the text is no JSON array.
pub uninterp spec fn json_array(text: Seq<char>) -> Option<Seq<FieldView>>;

/// `serde_json::from_str` into a vector of `serde_json::Value`: the items of the
/// array, in order.
#[verifier::external_body]
pub(crate) fn read_array(text: &str) -> (r: Option<Vec<JsonField>>)
    ensures
        r is Some <==> json_array(text@) is Some,
        r matches Some(items) ==> json_array(text@) == Some(item_views(items@)),
{
    let array: Vec<serde_json::Value> = serde_json::from_str(text).ok()?;
    let item = |value| match value {
        serde_json::Value::String(s) => JsonField::Text(s),
        serde_json::Value::Null => JsonField::Null,
        serde_json::Value::Bool(_) => JsonField::Other,
        serde_json::Value::Number(n) => n.as_u64().map_or(JsonField::Other, JsonField::Number),
        serde_json::Value::Array(_) => JsonField::Other,
        serde_json::Value::Object(_) => JsonField::Other,
    };
    Some(array.into_iter().map(item).collect())
}

/// What the member `name` holds.
pub open spec fn field_of(fields: Seq<(Seq<char>, FieldView)>, name: Seq<char>) -> Option<FieldView>
    decreases fields.len(),
{
    if fields.len() == 0 {
        None
    } else if fields[0].0 == name {
        Some(fields[0].1)
    } else {
        field_of(fields.skip(1), name)
    }
}

/// A member that is there is found.
pub proof fn lemma_field_of_member(
    fields: Seq<(Seq<char>, FieldView)>,
    name: Seq<char>,
    value: FieldView,
)
    requires
        distinct_names(fields),
        fields.contains((name, value)),
    ensures
        field_of(fields, name) == Some(value),
    decreases fields.len(),
{
    let k = choose|k: int| 0 <= k < fields.len() && fields[k] == (name, value);
    if fields[0].0 != name {
        let rest = fields.skip(1);
        assert(rest[k - 1] == (name, value));
        assert forall|i: int, j: int| 0 <= i < j < rest.len() implies (#[trigger] rest[i]).0 != (
        #[trigger] rest[j]).0 by {
            assert(fields[i + 1].0 != fields[j + 1].0);
        }
        lemma_field_of_member(rest, name, value);
    } else if k > 0 {
        assert(fields[0].0 != fields[k].0);
    }
}

/// Finds what the member `name` holds.
pub fn find_field<'a>(fields: &'a [(String, JsonField)], name: &str) -> (r: Option<&'a JsonField>)
    ensures
        r is Some <==> field_of(field_views(fields@), name@) is Some,
        r matches Some(field) ==> field_of(field_views(fields@), name@) == Some(field@),
{
    let ghost all = field_views(fields@);
    assert(all.skip(0) =~= all);
    let mut i: usize = 0;
    while i < fields.len()
        invariant
            i <= fields@.len(),
            all == field_views(fields@),
            field_of(all, name@) == field_of(all.skip(i as int), name@),
        decreases fields@.len() - i,
    {
        if same_text(fields[i].0.as_str(), name) {
            return Some(&fields[i].1);
        }
        assert(all.skip(i as int).skip(1) =~= all.skip(i + 1));
        i += 1;
    }
    None
}

/// An optional text member: absent and `null` are both nothing.
pub open spec fn optional_text(field: Option<FieldView>) -> Option<Option<Seq<char>>> {
    match field {
        None => Some(None),
        Some(FieldView::Null) => Some(None),
        Some(FieldView::Text(s)) => Some(Some(s)),
        Some(_) => None,
    }
}

/// An optional text member: absent and `null` are both nothing.
pub fn optional_field(field: Option<&JsonField>) -> (r: Option<Option<String>>)
    ensures
        r is Some <==> optional_text(
            match field {
                Some(f) => Some(f@),
                None => None,
            },
        ) is Some,
        r matches Some(o) ==> optional_text(
            match field {
                Some(f) => Some(f@),
                None => None,
            },
        ) == Some(text_option(o)),
{
    match field {
        None => Some(None),
        Some(JsonField::Null) => Some(None),
        Some(JsonField::Text(s)) => Some(Some(s.clone())),
        Some(_) => None,
    }
}

} // verus!
