//! Objects: how they are written in JSON, and what is read of them.

use crate::json::{
    field_of, json_array, json_escapes, json_member, json_members, json_object, json_object_text,
    json_text, json_value, optional_text, read_member, FieldView, ValueView,
};
use crate::manifest::{
    described_event, event_members, event_names, event_text, listed_event, parsed_event,
    required_number, required_text, ManifestView,
};
use crate::members::{
    key_name, key_object, member_keys, member_names, named, object_members, scan_step, times_given,
    written_names_are_found, Scan,
};
use crate::plan::{
    described_step, listed_step, parsed_step, step_json, step_members, step_names, StepView,
};
use crate::text::decimal_text;
use vstd::prelude::*;

verus! {

/// An object is its members between braces, each a name, a colon and a value, with commas between
/// them. A value is a string, a number in decimal, or `null`.
pub proof fn objects_are_written(
    members: Seq<(Seq<char>, ValueView)>,
    name: Seq<char>,
    v: ValueView,
    s: Seq<char>,
    n: u64,
)
    ensures
        json_object_text(members) == seq!['{'] + json_members(members) + seq!['}'],
        json_members(seq![]).len() == 0,
        json_members(seq![(name, v)]) == json_text(name) + seq![':'] + json_value(v),
        members.len() > 0 ==> json_members(members.push((name, v))) == json_members(members)
            + seq![','] + (json_text(name) + seq![':'] + json_value(v)),
        json_value(ValueView::Text(s)) == json_text(s),
        json_value(ValueView::Number(n)) == decimal_text(n as nat),
        json_value(ValueView::Null) == "null"@,
{
    assert(members.push((name, v)).drop_last() =~= members);
}

proof fn lemma_plain_escapes(s: Seq<char>)
    requires
        forall|i: int| 0 <= i < s.len() ==> '_' <= #[trigger] s[i] <= 'z',
    ensures
        json_escapes(s) == s,
    decreases s.len(),
{
    if s.len() > 0 {
        lemma_plain_escapes(s.drop_last());
        assert('_' <= s[s.len() - 1] <= 'z');
    }
    assert(json_escapes(s) =~= s);
}

/// The canonical text of a step, letter by letter.
pub proof fn steps_are_written(path: Seq<char>, extra: Option<Seq<char>>)
    ensures
        ({
            let value = match extra {
                Some(s) => json_text(s),
                None => "null"@,
            };
            &&& step_json(StepView::DeleteDir { path, regenerate_hint: extra })
                == "{\"step\":\"delete_dir\",\"path\":"@ + json_text(path)
                + ",\"regenerate_hint\":"@ + value + "}"@
            &&& step_json(StepView::RemoveWorktree { path, branch: extra })
                == "{\"step\":\"remove_worktree\",\"path\":"@ + json_text(path) + ",\"branch\":"@
                + value + "}"@
        }),
{
    reveal_strlit("}");
    assert("}"@ =~= seq!['}']);
    let value = match extra {
        Some(s) => json_text(s),
        None => "null"@,
    };
    let third = crate::json::text_or_null(extra);
    assert(json_value(third) == value);
    lemma_three_members(
        ("step"@, ValueView::Text("delete_dir"@)),
        ("path"@, ValueView::Text(path)),
        ("regenerate_hint"@, third),
    );
    lemma_three_members(
        ("step"@, ValueView::Text("remove_worktree"@)),
        ("path"@, ValueView::Text(path)),
        ("branch"@, third),
    );
    lemma_starts();
    lemma_middles();
    lemma_assoc(
        json_text("step"@),
        json_text("delete_dir"@),
        json_text("path"@),
        json_text(path),
        json_text("regenerate_hint"@),
        value,
    );
    lemma_assoc(
        json_text("step"@),
        json_text("remove_worktree"@),
        json_text("path"@),
        json_text(path),
        json_text("branch"@),
        value,
    );
}

proof fn lemma_assoc(
    s: Seq<char>,
    t: Seq<char>,
    p: Seq<char>,
    x: Seq<char>,
    n: Seq<char>,
    v: Seq<char>,
)
    ensures
        seq!['{'] + ((s + seq![':'] + t) + seq![','] + (p + seq![':'] + x) + seq![','] + (n
            + seq![':'] + v)) + seq!['}'] == (seq!['{'] + s + seq![':'] + t + seq![','] + p + seq![
            ':',
        ]) + x + (seq![','] + n + seq![':']) + v + seq!['}'],
{
    assert(seq!['{'] + ((s + seq![':'] + t) + seq![','] + (p + seq![':'] + x) + seq![','] + (n
        + seq![':'] + v)) + seq!['}'] =~= (seq!['{'] + s + seq![':'] + t + seq![','] + p + seq![':'])
        + x + (seq![','] + n + seq![':']) + v + seq!['}']);
}

proof fn lemma_starts()
    ensures
        seq!['{'] + json_text("step"@) + seq![':'] + json_text("delete_dir"@) + seq![',']
            + json_text("path"@) + seq![':'] == "{\"step\":\"delete_dir\",\"path\":"@,
        seq!['{'] + json_text("step"@) + seq![':'] + json_text("remove_worktree"@) + seq![',']
            + json_text("path"@) + seq![':'] == "{\"step\":\"remove_worktree\",\"path\":"@,
{
    reveal_strlit("step");
    reveal_strlit("path");
    reveal_strlit("delete_dir");
    reveal_strlit("remove_worktree");
    lemma_plain_escapes("step"@);
    lemma_plain_escapes("path"@);
    lemma_plain_escapes("delete_dir"@);
    lemma_plain_escapes("remove_worktree"@);
    reveal_strlit("{\"step\":\"delete_dir\",\"path\":");
    reveal_strlit("{\"step\":\"remove_worktree\",\"path\":");
    assert(seq!['{'] + json_text("step"@) + seq![':'] + json_text("delete_dir"@) + seq![',']
        + json_text("path"@) + seq![':'] =~= "{\"step\":\"delete_dir\",\"path\":"@);
    assert(seq!['{'] + json_text("step"@) + seq![':'] + json_text("remove_worktree"@) + seq![',']
        + json_text("path"@) + seq![':'] =~= "{\"step\":\"remove_worktree\",\"path\":"@);
}

proof fn lemma_middles()
    ensures
        seq![','] + json_text("regenerate_hint"@) + seq![':'] == ",\"regenerate_hint\":"@,
        seq![','] + json_text("branch"@) + seq![':'] == ",\"branch\":"@,
{
    reveal_strlit("branch");
    reveal_strlit("regenerate_hint");
    lemma_plain_escapes("branch"@);
    lemma_plain_escapes("regenerate_hint"@);
    reveal_strlit(",\"regenerate_hint\":");
    reveal_strlit(",\"branch\":");
    assert(seq![','] + json_text("regenerate_hint"@) + seq![':'] =~= ",\"regenerate_hint\":"@);
    assert(seq![','] + json_text("branch"@) + seq![':'] =~= ",\"branch\":"@);
}

proof fn lemma_three_members(
    a: (Seq<char>, ValueView),
    b: (Seq<char>, ValueView),
    c: (Seq<char>, ValueView),
)
    ensures
        json_members(seq![a, b, c]) == json_member(a) + seq![','] + json_member(b) + seq![',']
            + json_member(c),
{
    assert(seq![a, b, c].drop_last() =~= seq![a, b]);
    assert(seq![a, b].drop_last() =~= seq![a]);
    assert(json_members(seq![a]) == json_member(a));
    assert(json_members(seq![a, b]) == json_member(a) + seq![','] + json_member(b));
}

/// A member is found under its name, the first one where there are more.
pub proof fn members_are_found(
    fields: Seq<(Seq<char>, FieldView)>,
    name: Seq<char>,
    other: Seq<char>,
    v: FieldView,
)
    ensures
        field_of(seq![], name) is None,
        field_of(seq![(name, v)] + fields, name) == Some(v),
        other != name ==> field_of(seq![(other, v)] + fields, name) == field_of(fields, name),
{
    assert((seq![(other, v)] + fields).skip(1) =~= fields);
}

/// What is required has to be there, as a text or as a number; what is not may be left out or
/// `null`.
pub proof fn members_are_required_or_not(s: Seq<char>, n: u64)
    ensures
        required_text(Some(FieldView::Text(s))) == Some(s),
        required_text(None) is None,
        required_text(Some(FieldView::Number(n))) is None,
        required_text(Some(FieldView::Null)) is None,
        required_text(Some(FieldView::Other)) is None,
        required_number(Some(FieldView::Number(n))) == Some(n),
        required_number(None) is None,
        required_number(Some(FieldView::Text(s))) is None,
        required_number(Some(FieldView::Null)) is None,
        required_number(Some(FieldView::Other)) is None,
        optional_text(None) == Some(None::<Seq<char>>),
        optional_text(Some(FieldView::Null)) == Some(None::<Seq<char>>),
        optional_text(Some(FieldView::Text(s))) == Some(Some(s)),
        optional_text(Some(FieldView::Number(n))) is None,
        optional_text(Some(FieldView::Other)) is None,
{
}

/// What is written is read as it was written.
pub proof fn written_members_are_read(name: Seq<char>, s: Seq<char>, n: u64)
    ensures
        read_member((name, ValueView::Text(s))) == (name, FieldView::Text(s)),
        read_member((name, ValueView::Number(n))) == (name, FieldView::Number(n)),
        read_member((name, ValueView::Null)) == (name, FieldView::Null),
{
}

/// The names of an object's members are found in its text, each as often as it is given there.
pub proof fn names_are_found_in_the_text(members: Seq<(Seq<char>, ValueView)>)
    ensures
        member_keys(json_object_text(members)).len() == members.len(),
        forall|i: int|
            0 <= i < members.len() ==> #[trigger] member_keys(json_object_text(members))[i]
                == json_escapes(members[i].0),
{
    written_names_are_found(members);
}

/// What stands in a string is not looked at, nor what stands in a nested value: only a string that
/// a colon follows at the outermost level is a name.
pub proof fn names_are_looked_for_outside(scan: Scan, c: char)
    ensures
        scan.inside ==> scan_step(scan, c).keys == scan.keys && scan_step(scan, c).depth
            == scan.depth,
        scan.depth != 1 ==> scan_step(scan, c).keys == scan.keys,
        c != ':' ==> scan_step(scan, c).keys == scan.keys,
        !scan.inside && scan.depth == 1 && c == ':' ==> scan_step(scan, c).keys == scan.keys.push(
            scan.last,
        ),
        scan.inside && !scan.escaped && c == '"' ==> !scan_step(scan, c).inside,
        scan.inside && (scan.escaped || c != '"') ==> scan_step(scan, c).inside
            && scan_step(scan, c).last == scan.last.push(c),
        scan.inside ==> (scan_step(scan, c).escaped <==> !scan.escaped && c == '\\'),
        !scan.inside && c == '"' ==> scan_step(scan, c).inside && scan_step(scan, c).last
            == Seq::<char>::empty(),
        !scan.inside && (c == '{' || c == '[') ==> scan_step(scan, c).depth == scan.depth + 1,
        !scan.inside && (c == '}' || c == ']') && scan.depth > 0 ==> scan_step(scan, c).depth
            == scan.depth - 1,
{
}

/// A name is given as often as it is among the names.
pub proof fn names_are_counted(names: Seq<Option<Seq<char>>>, name: Seq<char>)
    ensures
        times_given(names, name) == names.filter(|n: Option<Seq<char>>| n == Some(name)).len(),
    decreases names.len(),
{
    reveal(Seq::filter);
    if names.len() > 0 {
        names_are_counted(names.drop_last(), name);
    }
}

/// The members of an object are those that were read; one whose name is given twice holds nothing
/// that can be read.
pub proof fn members_are_given_once(text: Seq<char>)
    ensures
        object_members(text) is Some <==> json_object(text) is Some,
        json_object(text) matches Some(fields) ==> {
            let members = object_members(text)->0;
            &&& members.len() == fields.len()
            &&& forall|i: int|
                0 <= i < fields.len() ==> {
                    &&& (#[trigger] members[i]).0 == fields[i].0
                    &&& times_given(member_names(text), fields[i].0) <= 1 ==> members[i]
                        == fields[i]
                    &&& times_given(member_names(text), fields[i].0) > 1
                        ==> members[i].1 is Other
                }
        },
{
}

/// An array stands for an object where it has an item for each member, in order.
pub proof fn arrays_stand_for_objects(items: Seq<FieldView>, names: Seq<Seq<char>>)
    ensures
        named(items, names) is Some <==> items.len() == names.len(),
        named(items, names) matches Some(fields) ==> fields.len() == items.len() && forall|i: int|
            0 <= i < items.len() ==> #[trigger] fields[i] == (names[i], items[i]),
{
}

/// A name is read between its quotes as the crate that reads objects reads it.
pub proof fn names_are_read_as_objects_are(key: Seq<char>)
    ensures
        key_object(key) == seq!['{', '"'] + key + seq!['"', ':', 'n', 'u', 'l', 'l', '}'],
        key_name(key) matches Some(name) ==> (json_object(key_object(key)) matches Some(fields)
            && fields.len() == 1 && fields[0].0 == name),
        (json_object(key_object(key)) matches Some(fields) && fields.len() == 1) ==> key_name(
            key,
        ) is Some,
        forall|text: Seq<char>|
            #![trigger member_names(text)]
            member_names(text).len() == member_keys(text).len() && forall|i: int|
                0 <= i < member_keys(text).len() ==> #[trigger] member_names(text)[i] == key_name(
                    member_keys(text)[i],
                ),
{
}

/// The members of an event and of a step, in order.
pub proof fn names_in_order(tag: Seq<char>)
    ensures
        event_names("planned"@) == Some(seq!["event"@, "digest"@]),
        event_names("tombed"@) == Some(seq!["event"@, "path"@, "tomb"@, "recover"@, "size_bytes"@]),
        event_names("drained"@) == Some(seq!["event"@, "tomb"@, "freed_bytes"@]),
        event_names("refused"@) == Some(seq!["event"@, "path"@, "why"@]),
        event_names("interrupted"@) == Some(seq!["event"@, "path"@, "tomb"@, "why"@]),
        step_names("remove_worktree"@) == Some(seq!["step"@, "path"@, "branch"@]),
        step_names("delete_dir"@) == Some(seq!["step"@, "path"@, "regenerate_hint"@]),
        tag != "planned"@ && tag != "tombed"@ && tag != "drained"@ && tag != "refused"@ && tag
            != "interrupted"@ ==> event_names(tag) is None,
        tag != "remove_worktree"@ && tag != "delete_dir"@ ==> step_names(tag) is None,
{
    reveal_strlit("planned");
    reveal_strlit("tombed");
    reveal_strlit("drained");
    reveal_strlit("refused");
    reveal_strlit("interrupted");
    reveal_strlit("remove_worktree");
    reveal_strlit("delete_dir");
    assert("planned"@[0] == 'p' && "tombed"@[0] == 't' && "drained"@[0] == 'd');
    assert("refused"@[0] == 'r' && "interrupted"@[0] == 'i');
    assert("remove_worktree"@[0] == 'r' && "delete_dir"@[0] == 'd');
}

/// A text describes what its object describes; where it holds none, what its array does.
pub proof fn texts_describe(text: Seq<char>)
    ensures
        object_members(text) matches Some(fields) ==> parsed_event(text) == described_event(fields)
            && parsed_step(text) == described_step(fields),
        object_members(text) is None && json_array(text) is None ==> parsed_event(text) is None
            && parsed_step(text) is None,
        object_members(text) is None ==> (json_array(text) matches Some(items) ==> parsed_event(
            text,
        ) == listed_event(items) && parsed_step(text) == listed_step(items)),
{
}

/// What items describe is what the members that they stand for describe.
pub proof fn items_describe(items: Seq<FieldView>, names: Seq<Seq<char>>)
    ensures
        items.len() == 0 || !(items[0] is Text) ==> listed_event(items) is None && listed_step(
            items,
        ) is None,
        items.len() > 0 ==> (items[0] matches FieldView::Text(tag) ==> {
            &&& event_names(tag) is None ==> listed_event(items) is None
            &&& event_names(tag) == Some(names) && items.len() != names.len() ==> listed_event(
                items,
            ) is None
            &&& event_names(tag) == Some(names) && items.len() == names.len() ==> listed_event(
                items,
            ) == described_event(Seq::new(items.len(), |i: int| (names[i], items[i])))
            &&& step_names(tag) is None ==> listed_step(items) is None
            &&& step_names(tag) == Some(names) && items.len() != names.len() ==> listed_step(
                items,
            ) is None
            &&& step_names(tag) == Some(names) && items.len() == names.len() ==> listed_step(items)
                == described_step(Seq::new(items.len(), |i: int| (names[i], items[i])))
        }),
{
    if items.len() > 0 && items[0] is Text && items.len() == names.len() {
        assert(named(items, names)->0 =~= Seq::new(items.len(), |i: int| (names[i], items[i])));
    }
}

/// The line of an event is the object of its members.
pub proof fn lines_are_objects(event: ManifestView, step: StepView)
    ensures
        event_text(event) == json_object_text(event_members(event)),
        step_json(step) == json_object_text(step_members(step)),
{
}

} // verus!
