//! The write-ahead manifest: one JSON object per line. `Tombed` is made durable
//! before the rename, `Drained` is written after the drain; a crash between
//! them leaves a resumable record.

use crate::json::{
    distinct_names, field_of, field_views, find_field, item_views, json_array, json_object_text,
    lemma_field_of_member, member_views, optional_field, optional_text, optional_value, read_array,
    read_member, text_or_null, write_object, FieldView, JsonField, JsonValue, ValueView,
};
use crate::members::{
    name_items, named, object_members, read_members, read_values, values_stand_for_members,
};
use crate::paths::{equal_paths, same_path};
use crate::text::{lemma_views_push, same_text, str_views, text_option, views};
use vstd::prelude::*;

verus! {

/// One line of the manifest.
#[derive(Debug, PartialEq, Eq)]
pub enum ManifestEvent {
    Planned { digest: String },
    Tombed { path: String, tomb: String, recover: Option<String>, size_bytes: u64 },
    Drained { tomb: String, freed_bytes: u64 },
    Refused { path: String, why: String },
    /// A tomb could not be drained; it stays pending.
    Interrupted { path: String, tomb: String, why: String },
}

/// The view of a [`ManifestEvent`].
pub enum ManifestView {
    Planned { digest: Seq<char> },
    Tombed { path: Seq<char>, tomb: Seq<char>, recover: Option<Seq<char>>, size_bytes: u64 },
    Drained { tomb: Seq<char>, freed_bytes: u64 },
    Refused { path: Seq<char>, why: Seq<char> },
    Interrupted { path: Seq<char>, tomb: Seq<char>, why: Seq<char> },
}

impl View for ManifestEvent {
    type V = ManifestView;

    open spec fn view(&self) -> ManifestView {
        match *self {
            ManifestEvent::Planned { digest } => ManifestView::Planned { digest: digest@ },
            ManifestEvent::Tombed { path, tomb, recover, size_bytes } => ManifestView::Tombed {
                path: path@,
                tomb: tomb@,
                recover: text_option(recover),
                size_bytes,
            },
            ManifestEvent::Drained { tomb, freed_bytes } => ManifestView::Drained {
                tomb: tomb@,
                freed_bytes,
            },
            ManifestEvent::Refused { path, why } => ManifestView::Refused { path: path@, why: why@ },
            ManifestEvent::Interrupted { path, tomb, why } => ManifestView::Interrupted {
                path: path@,
                tomb: tomb@,
                why: why@,
            },
        }
    }
}

/// The members of the line for an event.
pub open spec fn event_members(event: ManifestView) -> Seq<(Seq<char>, ValueView)> {
    match event {
        ManifestView::Planned { digest } => seq![
            ("event"@, ValueView::Text("planned"@)),
            ("digest"@, ValueView::Text(digest)),
        ],
        ManifestView::Tombed { path, tomb, recover, size_bytes } => seq![
            ("event"@, ValueView::Text("tombed"@)),
            ("path"@, ValueView::Text(path)),
            ("tomb"@, ValueView::Text(tomb)),
            ("recover"@, text_or_null(recover)),
            ("size_bytes"@, ValueView::Number(size_bytes)),
        ],
        ManifestView::Drained { tomb, freed_bytes } => seq![
            ("event"@, ValueView::Text("drained"@)),
            ("tomb"@, ValueView::Text(tomb)),
            ("freed_bytes"@, ValueView::Number(freed_bytes)),
        ],
        ManifestView::Refused { path, why } => seq![
            ("event"@, ValueView::Text("refused"@)),
            ("path"@, ValueView::Text(path)),
            ("why"@, ValueView::Text(why)),
        ],
        ManifestView::Interrupted { path, tomb, why } => seq![
            ("event"@, ValueView::Text("interrupted"@)),
            ("path"@, ValueView::Text(path)),
            ("tomb"@, ValueView::Text(tomb)),
            ("why"@, ValueView::Text(why)),
        ],
    }
}

/// The line for an event, without its end.
pub open spec fn event_text(event: ManifestView) -> Seq<char> {
    json_object_text(event_members(event))
}

/// A required text member.
pub open spec fn required_text(field: Option<FieldView>) -> Option<Seq<char>> {
    match field {
        Some(FieldView::Text(s)) => Some(s),
        _ => None,
    }
}

/// A required number member.
pub open spec fn required_number(field: Option<FieldView>) -> Option<u64> {
    match field {
        Some(FieldView::Number(n)) => Some(n),
        _ => None,
    }
}

/// The event that the members of a JSON object describe: the `event` member
/// says which, members of other names do not matter.
pub open spec fn described_event(fields: Seq<(Seq<char>, FieldView)>) -> Option<ManifestView> {
    match field_of(fields, "event"@) {
        Some(FieldView::Text(tag)) => if tag == "planned"@ {
            match required_text(field_of(fields, "digest"@)) {
                Some(digest) => Some(ManifestView::Planned { digest }),
                None => None,
            }
        } else if tag == "tombed"@ {
            match (
                required_text(field_of(fields, "path"@)),
                required_text(field_of(fields, "tomb"@)),
                optional_text(field_of(fields, "recover"@)),
                required_number(field_of(fields, "size_bytes"@)),
            ) {
                (Some(path), Some(tomb), Some(recover), Some(size_bytes)) => Some(
                    ManifestView::Tombed { path, tomb, recover, size_bytes },
                ),
                _ => None,
            }
        } else if tag == "drained"@ {
            match (
                required_text(field_of(fields, "tomb"@)),
                required_number(field_of(fields, "freed_bytes"@)),
            ) {
                (Some(tomb), Some(freed_bytes)) => Some(
                    ManifestView::Drained { tomb, freed_bytes },
                ),
                _ => None,
            }
        } else if tag == "refused"@ {
            match (
                required_text(field_of(fields, "path"@)),
                required_text(field_of(fields, "why"@)),
            ) {
                (Some(path), Some(why)) => Some(ManifestView::Refused { path, why }),
                _ => None,
            }
        } else if tag == "interrupted"@ {
            match (
                required_text(field_of(fields, "path"@)),
                required_text(field_of(fields, "tomb"@)),
                required_text(field_of(fields, "why"@)),
            ) {
                (Some(path), Some(tomb), Some(why)) => Some(
                    ManifestView::Interrupted { path, tomb, why },
                ),
                _ => None,
            }
        } else {
            None
        },
        _ => None,
    }
}

/// The names of the members of an event, in order.
pub open spec fn event_names(tag: Seq<char>) -> Option<Seq<Seq<char>>> {
    if tag == "planned"@ {
        Some(seq!["event"@, "digest"@])
    } else if tag == "tombed"@ {
        Some(seq!["event"@, "path"@, "tomb"@, "recover"@, "size_bytes"@])
    } else if tag == "drained"@ {
        Some(seq!["event"@, "tomb"@, "freed_bytes"@])
    } else if tag == "refused"@ {
        Some(seq!["event"@, "path"@, "why"@])
    } else if tag == "interrupted"@ {
        Some(seq!["event"@, "path"@, "tomb"@, "why"@])
    } else {
        None
    }
}

/// The event that the items of a JSON array describe: the first says which, and the
/// others are all its members, in order.
pub open spec fn listed_event(items: Seq<FieldView>) -> Option<ManifestView> {
    if items.len() == 0 {
        None
    } else {
        match items[0] {
            FieldView::Text(tag) => match event_names(tag) {
                Some(names) => match named(items, names) {
                    Some(fields) => described_event(fields),
                    None => None,
                },
                None => None,
            },
            _ => None,
        }
    }
}

/// The event that a line describes, by an object or by an array.
pub open spec fn parsed_event(line: Seq<char>) -> Option<ManifestView> {
    match object_members(line) {
        Some(fields) => described_event(fields),
        None => match json_array(line) {
            Some(items) => listed_event(items),
            None => None,
        },
    }
}

fn text_field(fields: &[(String, JsonField)], name: &str) -> (r: Option<String>)
    ensures
        text_option(r) == required_text(field_of(field_views(fields@), name@)),
{
    match find_field(fields, name) {
        Some(JsonField::Text(s)) => Some(s.clone()),
        _ => None,
    }
}

fn number_field(fields: &[(String, JsonField)], name: &str) -> (r: Option<u64>)
    ensures
        r == required_number(field_of(field_views(fields@), name@)),
{
    match find_field(fields, name) {
        Some(JsonField::Number(n)) => Some(*n),
        _ => None,
    }
}

/// The event that the members of a JSON object describe.
pub fn describe_event(fields: &[(String, JsonField)]) -> (r: Option<ManifestEvent>)
    ensures
        r is Some <==> described_event(field_views(fields@)) is Some,
        r matches Some(event) ==> described_event(field_views(fields@)) == Some(event@),
{
    let tag = match find_field(fields, "event") {
        Some(JsonField::Text(tag)) => tag.as_str(),
        _ => return None,
    };
    if same_text(tag, "planned") {
        match text_field(fields, "digest") {
            Some(digest) => Some(ManifestEvent::Planned { digest }),
            None => None,
        }
    } else if same_text(tag, "tombed") {
        match (
            text_field(fields, "path"),
            text_field(fields, "tomb"),
            optional_field(find_field(fields, "recover")),
            number_field(fields, "size_bytes"),
        ) {
            (Some(path), Some(tomb), Some(recover), Some(size_bytes)) => Some(
                ManifestEvent::Tombed { path, tomb, recover, size_bytes },
            ),
            _ => None,
        }
    } else if same_text(tag, "drained") {
        match (text_field(fields, "tomb"), number_field(fields, "freed_bytes")) {
            (Some(tomb), Some(freed_bytes)) => Some(ManifestEvent::Drained { tomb, freed_bytes }),
            _ => None,
        }
    } else if same_text(tag, "refused") {
        match (text_field(fields, "path"), text_field(fields, "why")) {
            (Some(path), Some(why)) => Some(ManifestEvent::Refused { path, why }),
            _ => None,
        }
    } else if same_text(tag, "interrupted") {
        match (
            text_field(fields, "path"),
            text_field(fields, "tomb"),
            text_field(fields, "why"),
        ) {
            (Some(path), Some(tomb), Some(why)) => Some(
                ManifestEvent::Interrupted { path, tomb, why },
            ),
            _ => None,
        }
    } else {
        None
    }
}

fn names_of_event(tag: &str) -> (r: Option<Vec<&'static str>>)
    ensures
        r is Some <==> event_names(tag@) is Some,
        r matches Some(names) ==> event_names(tag@) == Some(str_views(names@)),
{
    if same_text(tag, "planned") {
        let names = vec!["event", "digest"];
        assert(str_views(names@) =~= event_names(tag@)->0);
        Some(names)
    } else if same_text(tag, "tombed") {
        let names = vec!["event", "path", "tomb", "recover", "size_bytes"];
        assert(str_views(names@) =~= event_names(tag@)->0);
        Some(names)
    } else if same_text(tag, "drained") {
        let names = vec!["event", "tomb", "freed_bytes"];
        assert(str_views(names@) =~= event_names(tag@)->0);
        Some(names)
    } else if same_text(tag, "refused") {
        let names = vec!["event", "path", "why"];
        assert(str_views(names@) =~= event_names(tag@)->0);
        Some(names)
    } else if same_text(tag, "interrupted") {
        let names = vec!["event", "path", "tomb", "why"];
        assert(str_views(names@) =~= event_names(tag@)->0);
        Some(names)
    } else {
        None
    }
}

/// The event that the items of a JSON array describe.
pub fn list_event(items: Vec<JsonField>) -> (r: Option<ManifestEvent>)
    ensures
        r is Some <==> listed_event(item_views(items@)) is Some,
        r matches Some(event) ==> listed_event(item_views(items@)) == Some(event@),
{
    if items.len() == 0 {
        return None;
    }
    let names = match &items[0] {
        JsonField::Text(tag) => names_of_event(tag.as_str()),
        _ => return None,
    };
    match names {
        Some(names) => match name_items(items, names.as_slice()) {
            Some(fields) => describe_event(fields.as_slice()),
            None => None,
        },
        None => None,
    }
}

/// An event that is listed, value by value in the order in which it is written,
/// reads back.
pub proof fn listed_event_reads_back(event: ManifestView)
    ensures
        listed_event(read_values(event_members(event))) == Some(event),
{
    let members = event_members(event);
    let items = read_values(members);
    lemma_member_names(event);
    lemma_tags_differ();
    let names = event_names(items[0]->Text_0)->0;
    assert(names.len() == members.len());
    assert forall|i: int| 0 <= i < names.len() implies (#[trigger] names[i]) == members[i].0 by {}
    values_stand_for_members(members, names);
    lemma_members_describe(event, named(items, names)->0);
}

proof fn lemma_tags_differ()
    ensures
        "planned"@[0] == 'p',
        "tombed"@[0] == 't',
        "drained"@[0] == 'd',
        "refused"@[0] == 'r',
        "interrupted"@[0] == 'i',
{
    reveal_strlit("planned");
    reveal_strlit("tombed");
    reveal_strlit("drained");
    reveal_strlit("refused");
    reveal_strlit("interrupted");
}

impl ManifestEvent {
    /// The line for the event, without its end.
    pub fn line(&self) -> (r: String)
        ensures
            r@ == event_text(self@),
    {
        match self {
            ManifestEvent::Planned { digest } => {
                let members = [
                    ("event", JsonValue::Text("planned")),
                    ("digest", JsonValue::Text(digest.as_str())),
                ];
                assert(member_views(members@) =~= event_members(self@));
                write_object(&members)
            },
            ManifestEvent::Tombed { path, tomb, recover, size_bytes } => {
                let members = [
                    ("event", JsonValue::Text("tombed")),
                    ("path", JsonValue::Text(path.as_str())),
                    ("tomb", JsonValue::Text(tomb.as_str())),
                    ("recover", optional_value(recover)),
                    ("size_bytes", JsonValue::Number(*size_bytes)),
                ];
                assert(member_views(members@) =~= event_members(self@));
                write_object(&members)
            },
            ManifestEvent::Drained { tomb, freed_bytes } => {
                let members = [
                    ("event", JsonValue::Text("drained")),
                    ("tomb", JsonValue::Text(tomb.as_str())),
                    ("freed_bytes", JsonValue::Number(*freed_bytes)),
                ];
                assert(member_views(members@) =~= event_members(self@));
                write_object(&members)
            },
            ManifestEvent::Refused { path, why } => {
                let members = [
                    ("event", JsonValue::Text("refused")),
                    ("path", JsonValue::Text(path.as_str())),
                    ("why", JsonValue::Text(why.as_str())),
                ];
                assert(member_views(members@) =~= event_members(self@));
                write_object(&members)
            },
            ManifestEvent::Interrupted { path, tomb, why } => {
                let members = [
                    ("event", JsonValue::Text("interrupted")),
                    ("path", JsonValue::Text(path.as_str())),
                    ("tomb", JsonValue::Text(tomb.as_str())),
                    ("why", JsonValue::Text(why.as_str())),
                ];
                assert(member_views(members@) =~= event_members(self@));
                write_object(&members)
            },
        }
    }

    /// The event that a line describes, by an object or by an array. The line of an
    /// event reads back as that event.
    pub fn parse(line: &str) -> (r: Option<Self>)
        ensures
            r is Some <==> parsed_event(line@) is Some,
            r matches Some(event) ==> parsed_event(line@) == Some(event@),
            forall|event: ManifestView|
                line@ == #[trigger] event_text(event) ==> (r matches Some(read) && read@ == event),
    {
        let fields = match read_members(line) {
            Some(fields) => fields,
            None => {
                proof {
                    assert forall|event: ManifestView| line@ == #[trigger] event_text(
                        event,
                    ) implies false by {
                        lemma_member_names(event);
                        assert(line@ == json_object_text(event_members(event)));
                    }
                }
                return match read_array(line) {
                    Some(items) => list_event(items),
                    None => None,
                };
            },
        };
        proof {
            let views = field_views(fields@);
            assert forall|event: ManifestView| line@ == #[trigger] event_text(
                event,
            ) implies described_event(views) == Some(event) by {
                lemma_member_names(event);
                assert(line@ == json_object_text(event_members(event)));
                lemma_members_describe(event, views);
            }
        }
        describe_event(fields.as_slice())
    }
}

proof fn lemma_member_names(event: ManifestView)
    ensures
        distinct_names(event_members(event)),
{
    reveal_strlit("event");
    reveal_strlit("digest");
    reveal_strlit("path");
    reveal_strlit("tomb");
    reveal_strlit("recover");
    reveal_strlit("size_bytes");
    reveal_strlit("freed_bytes");
    reveal_strlit("why");
    assert("event"@[0] == 'e' && "digest"@[0] == 'd' && "path"@[0] == 'p' && "tomb"@[0] == 't');
    assert("recover"@[0] == 'r' && "size_bytes"@[0] == 's' && "freed_bytes"@[0] == 'f');
    assert("why"@[0] == 'w');
}

proof fn lemma_member_found(event: ManifestView, fields: Seq<(Seq<char>, FieldView)>, i: int)
    requires
        distinct_names(fields),
        0 <= i < event_members(event).len(),
        fields.contains(read_member(event_members(event)[i])),
    ensures
        field_of(fields, event_members(event)[i].0) == Some(
            read_member(event_members(event)[i]).1,
        ),
{
    let m = read_member(event_members(event)[i]);
    lemma_field_of_member(fields, m.0, m.1);
}

/// The members of an event's line describe that event.
proof fn lemma_members_describe(event: ManifestView, fields: Seq<(Seq<char>, FieldView)>)
    requires
        distinct_names(fields),
        forall|i: int|
            0 <= i < event_members(event).len() ==> fields.contains(
                read_member(#[trigger] event_members(event)[i]),
            ),
    ensures
        described_event(fields) == Some(event),
{
    lemma_tags_differ();
    let n = event_members(event).len();
    lemma_member_found(event, fields, 0);
    lemma_member_found(event, fields, 1);
    if n > 2 {
        lemma_member_found(event, fields, 2);
    }
    if n > 3 {
        lemma_member_found(event, fields, 3);
    }
    if n > 4 {
        lemma_member_found(event, fields, 4);
    }
}

/// The tombs of a list, without those of one path.
pub open spec fn without_tomb(tombs: Seq<(Seq<char>, u64)>, tomb: Seq<char>) -> Seq<
    (Seq<char>, u64),
>
    decreases tombs.len(),
{
    if tombs.len() == 0 {
        seq![]
    } else {
        let rest = without_tomb(tombs.drop_last(), tomb);
        if same_path(tombs.last().0, tomb) {
            rest
        } else {
            rest.push(tombs.last())
        }
    }
}

/// The tombs that the events of a manifest leave to drain, with their sizes, in
/// the order in which they were made: each `Tombed` without a later `Drained`.
pub open spec fn pending_tombs(events: Seq<ManifestView>) -> Seq<(Seq<char>, u64)>
    decreases events.len(),
{
    if events.len() == 0 {
        seq![]
    } else {
        let before = pending_tombs(events.drop_last());
        match events.last() {
            ManifestView::Tombed { tomb, size_bytes, .. } => before.push((tomb, size_bytes)),
            ManifestView::Drained { tomb, .. } => without_tomb(before, tomb),
            _ => before,
        }
    }
}

/// Tombs and their sizes, as characters.
pub open spec fn tomb_views(tombs: Seq<(String, u64)>) -> Seq<(Seq<char>, u64)> {
    Seq::new(tombs.len(), |i: int| (tombs[i].0@, tombs[i].1))
}

fn retain_others(tombs: Vec<(String, u64)>, tomb: &str) -> (r: Vec<(String, u64)>)
    ensures
        tomb_views(r@) == without_tomb(tomb_views(tombs@), tomb@),
{
    let ghost all = tomb_views(tombs@);
    let ghost list = tombs@;
    let mut out: Vec<(String, u64)> = Vec::new();
    assert(tomb_views(out@) =~= without_tomb(all.take(0), tomb@));
    for pair in it: tombs
        invariant
            it.seq() == list,
            all == tomb_views(list),
            tomb_views(out@) == without_tomb(all.take(it.index() as int), tomb@),
    {
        let ghost before = tomb_views(out@);
        let ghost i = it.index() as int;
        assert(all.take(i + 1).drop_last() =~= all.take(i));
        assert(all.take(i + 1).last() == all[i]);
        if !equal_paths(pair.0.as_str(), tomb) {
            out.push(pair);
            assert(tomb_views(out@) =~= before.push(all[i]));
        }
    }
    assert(all.take(all.len() as int) =~= all);
    out
}

/// The tombs that a crash or an interruption left to drain.
pub fn pending(events: &[ManifestEvent]) -> (r: Vec<(String, u64)>)
    ensures
        tomb_views(r@) == pending_tombs(views(events@)),
{
    let ghost all = views(events@);
    let mut out: Vec<(String, u64)> = Vec::new();
    assert(tomb_views(out@) =~= pending_tombs(all.take(0)));
    for i in 0..events.len()
        invariant
            all == views(events@),
            tomb_views(out@) == pending_tombs(all.take(i as int)),
    {
        let ghost before = tomb_views(out@);
        assert(all.take(i + 1).drop_last() =~= all.take(i as int));
        assert(all.take(i + 1).last() == events@[i as int]@);
        match &events[i] {
            ManifestEvent::Tombed { tomb, size_bytes, .. } => {
                out.push((tomb.clone(), *size_bytes));
                assert(tomb_views(out@) =~= before.push((tomb@, *size_bytes)));
            },
            ManifestEvent::Drained { tomb, .. } => {
                out = retain_others(out, tomb.as_str());
            },
            _ => {},
        }
    }
    assert(all.take(all.len() as int) =~= all);
    out
}

/// The tombs that the text of a manifest leaves to drain: lines that are no
/// event do not matter.
pub fn pending_in(lines: &[String]) -> (r: Vec<(String, u64)>)
    ensures
        tomb_views(r@) == pending_tombs(parsed_events(views(lines@))),
{
    broadcast use lemma_views_push;

    let ghost all = views(lines@);
    let mut events: Vec<ManifestEvent> = Vec::new();
    assert(views(events@) =~= parsed_events(all.take(0)));
    for i in 0..lines.len()
        invariant
            all == views(lines@),
            views(events@) == parsed_events(all.take(i as int)),
    {
        broadcast use lemma_views_push;

        assert(all.take(i + 1).drop_last() =~= all.take(i as int));
        assert(all.take(i + 1).last() == lines@[i as int]@);
        if let Some(event) = ManifestEvent::parse(lines[i].as_str()) {
            events.push(event);
        }
    }
    assert(all.take(all.len() as int) =~= all);
    pending(events.as_slice())
}

/// The events that lines describe.
pub open spec fn parsed_events(lines: Seq<Seq<char>>) -> Seq<ManifestView>
    decreases lines.len(),
{
    if lines.len() == 0 {
        seq![]
    } else {
        let before = parsed_events(lines.drop_last());
        match parsed_event(lines.last()) {
            Some(event) => before.push(event),
            None => before,
        }
    }
}

/// The record that a tomb has been drained.
pub open spec fn drained_record(tomb: (Seq<char>, u64)) -> ManifestView {
    ManifestView::Drained { tomb: tomb.0, freed_bytes: tomb.1 }
}

/// The records that tombs have been drained.
pub open spec fn drained_records(tombs: Seq<(Seq<char>, u64)>) -> Seq<ManifestView> {
    Seq::new(tombs.len(), |i: int| drained_record(tombs[i]))
}

proof fn lemma_without_tomb(tombs: Seq<(Seq<char>, u64)>, tomb: Seq<char>)
    ensures
        forall|i: int|
            0 <= i < without_tomb(tombs, tomb).len() ==> !same_path(
                (#[trigger] without_tomb(tombs, tomb)[i]).0,
                tomb,
            ) && tombs.contains(without_tomb(tombs, tomb)[i]),
    decreases tombs.len(),
{
    if tombs.len() > 0 {
        let before = tombs.drop_last();
        let rest = without_tomb(before, tomb);
        let all = without_tomb(tombs, tomb);
        lemma_without_tomb(before, tomb);
        assert forall|i: int| 0 <= i < all.len() implies !same_path((#[trigger] all[i]).0, tomb)
            && tombs.contains(all[i]) by {
            if i < rest.len() {
                assert(all[i] == rest[i]);
                assert(before.contains(rest[i]));
                let k = choose|k: int| 0 <= k < before.len() && before[k] == rest[i];
                assert(tombs[k] == all[i]);
            } else {
                assert(all[i] == tombs.last());
                assert(tombs[tombs.len() - 1] == all[i]);
            }
        }
    }
}

proof fn lemma_records_close(events: Seq<ManifestView>, n: int)
    requires
        0 <= n <= pending_tombs(events).len(),
    ensures
        ({
            let tombs = pending_tombs(events);
            let left = pending_tombs(events + drained_records(tombs).take(n));
            forall|i: int|
                0 <= i < left.len() ==> tombs.contains(#[trigger] left[i]) && forall|k: int|
                    0 <= k < n ==> !same_path(left[i].0, (#[trigger] tombs[k]).0)
        }),
    decreases n,
{
    let tombs = pending_tombs(events);
    let records = drained_records(tombs);
    let log = events + records.take(n);
    let left = pending_tombs(log);
    if n == 0 {
        assert(log =~= events);
        assert forall|i: int| 0 <= i < left.len() implies tombs.contains(#[trigger] left[i]) by {
            assert(tombs[i] == left[i]);
        }
    } else {
        lemma_records_close(events, n - 1);
        let before = events + records.take(n - 1);
        let earlier = pending_tombs(before);
        assert(log.drop_last() =~= before);
        assert(log.last() == drained_record(tombs[n - 1]));
        lemma_without_tomb(earlier, tombs[n - 1].0);
        assert forall|i: int| 0 <= i < left.len() implies tombs.contains(#[trigger] left[i])
            && forall|k: int| 0 <= k < n ==> !same_path(left[i].0, (#[trigger] tombs[k]).0) by {
            assert(earlier.contains(left[i]));
            let j = choose|j: int| 0 <= j < earlier.len() && earlier[j] == left[i];
            assert(tombs.contains(earlier[j]));
        }
    }
}

/// Recovery is idempotent: once a drain is recorded for each pending tomb, none
/// is pending.
pub proof fn recorded_drains_leave_nothing_pending(events: Seq<ManifestView>)
    ensures
        pending_tombs(events + drained_records(pending_tombs(events))).len() == 0,
{
    let tombs = pending_tombs(events);
    let records = drained_records(tombs);
    let left = pending_tombs(events + records);
    lemma_records_close(events, tombs.len() as int);
    assert(records.take(tombs.len() as int) =~= records);
    if left.len() > 0 {
        assert(tombs.contains(left[0]));
        let k = choose|k: int| 0 <= k < tombs.len() && tombs[k] == left[0];
        assert(!same_path(left[0].0, tombs[k].0));
    }
}

/// A tomb whose drain is not on record stays pending, whatever else is recorded
/// after it.
pub proof fn undrained_tomb_stays_pending(
    events: Seq<ManifestView>,
    k: int,
    tomb: Seq<char>,
    size_bytes: u64,
)
    requires
        0 <= k < events.len(),
        events[k] matches ManifestView::Tombed { tomb: t, size_bytes: s, .. } && t == tomb && s
            == size_bytes,
        forall|j: int|
            k < j < events.len() ==> !((#[trigger] events[j]) matches ManifestView::Drained {
                tomb: t,
                ..
            } && same_path(tomb, t)),
    ensures
        pending_tombs(events).contains((tomb, size_bytes)),
    decreases events.len(),
{
    let before = events.drop_last();
    let earlier = pending_tombs(before);
    let n = events.len() - 1;
    if k < n {
        assert(before[k] == events[k]);
        assert forall|j: int| k < j < before.len() implies !((#[trigger] before[j]) matches
            ManifestView::Drained { tomb: t, .. } && same_path(tomb, t)) by {
            assert(before[j] == events[j]);
        }
        undrained_tomb_stays_pending(before, k, tomb, size_bytes);
        let i = choose|i: int| 0 <= i < earlier.len() && earlier[i] == (tomb, size_bytes);
        match events[n] {
            ManifestView::Tombed { .. } => {
                assert(pending_tombs(events)[i] == (tomb, size_bytes));
            },
            ManifestView::Drained { tomb: other, .. } => {
                lemma_without_keeps(earlier, other, (tomb, size_bytes));
            },
            _ => {},
        }
    } else {
        assert(pending_tombs(events).last() == (tomb, size_bytes));
        assert(pending_tombs(events)[pending_tombs(events).len() - 1] == (tomb, size_bytes));
    }
}

proof fn lemma_without_keeps(
    tombs: Seq<(Seq<char>, u64)>,
    tomb: Seq<char>,
    kept: (Seq<char>, u64),
)
    requires
        tombs.contains(kept),
        !same_path(kept.0, tomb),
    ensures
        without_tomb(tombs, tomb).contains(kept),
    decreases tombs.len(),
{
    let k = choose|k: int| 0 <= k < tombs.len() && tombs[k] == kept;
    let before = tombs.drop_last();
    let rest = without_tomb(before, tomb);
    let all = without_tomb(tombs, tomb);
    if k < before.len() {
        assert(before[k] == kept);
        lemma_without_keeps(before, tomb, kept);
        let i = choose|i: int| 0 <= i < rest.len() && rest[i] == kept;
        assert(all[i] == kept);
    } else {
        assert(all[all.len() - 1] == kept);
    }
}

} // verus!
