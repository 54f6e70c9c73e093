//! Laws on the frontmatter of a subject file: what is written says all that the
//! frontmatter holds.

use crate::decimal::{decimal_text, is_digit, lemma_decimal_reads_back, parsed_u32};
use crate::fields::{
    field_members, fields_of, in_order, lemma_fields_of, lemma_map_of, list_view, map_of,
    text_less, Field,
};
use crate::json::{json_array, json_object, json_string, json_value, JsonValue, JsonView};
use crate::laws::json::{
    all_told_apart, ends_value, law_null_and_strings_are_told_apart,
    law_object_arrays_are_told_apart, law_objects_are_told_apart,
    law_string_arrays_are_told_apart, law_string_reads_back, law_strings_are_told_apart,
    told_apart,
};
use crate::laws::subjects::law_status_names_differ;
use crate::laws::text::{law_no_leading_zero, law_numbers_read_back};
use crate::nesting::levels;
use crate::parser::{plain_frontmatter, FrontmatterView};
use crate::subject::{beside_kind, status_text, AttachmentView, SubjectStatus};
use crate::time::{rfc3339_text, Timestamp};
use crate::writer::{
    attachment_json, frontmatter_members, frontmatter_text, json_opt, json_priority, yaml_of_json,
    RenderError, MAX_LEVELS,
};
use vstd::prelude::*;

verus! {

// ------------------------------------------------------------- the order of names

/// Whether `a` comes before `b` by what stands at place `n`: up to there they are
/// the same, and there `a` is over or has the character of the smaller number.
pub open spec fn comes_first_at(a: Seq<char>, b: Seq<char>, n: int) -> bool {
    &&& 0 <= n <= a.len()
    &&& n < b.len()
    &&& forall|i: int| 0 <= i < n ==> #[trigger] a[i] == b[i]
    &&& n == a.len() || (a[n] as int) < (b[n] as int)
}

/// Names are ordered as in a dictionary, by the numbers of their characters.
pub proof fn law_names_are_ordered_alphabetically(a: Seq<char>, b: Seq<char>)
    ensures
        text_less(a, b) <==> exists|n: int| comes_first_at(a, b, n),
    decreases a.len(),
{
    if a.len() > 0 && b.len() > 0 && a[0] == b[0] {
        let (s, t) = (a.skip(1), b.skip(1));
        law_names_are_ordered_alphabetically(s, t);
        if exists|n: int| comes_first_at(s, t, n) {
            let n = choose|n: int| comes_first_at(s, t, n);
            assert forall|i: int| 0 <= i < n + 1 implies #[trigger] a[i] == b[i] by {
                if i > 0 {
                    assert(s[i - 1] == t[i - 1]);
                }
            }
            assert(comes_first_at(a, b, n + 1));
        }
        if exists|n: int| comes_first_at(a, b, n) {
            let n = choose|n: int| comes_first_at(a, b, n);
            assert(n > 0);
            assert forall|i: int| 0 <= i < n - 1 implies #[trigger] s[i] == t[i] by {
                assert(a[i + 1] == b[i + 1]);
            }
            assert(comes_first_at(s, t, n - 1));
        }
    } else {
        if text_less(a, b) {
            assert(comes_first_at(a, b, 0));
        }
        if exists|n: int| comes_first_at(a, b, n) {
            let n = choose|n: int| comes_first_at(a, b, n);
            assert(n > 0 ==> a[0] == b[0]);
        }
    }
}

/// Fields in alphabetical order are those of a map, and a map has no others: the
/// fields of the map are that very list.
pub proof fn law_fields_of_a_map(fields: Seq<Field>, name: Seq<char>, value: JsonView)
    requires
        forall|i: int, j: int|
            0 <= i < j < fields.len() ==> text_less(#[trigger] fields[i].0, #[trigger] fields[j].0),
    ensures
        map_of(fields).contains_pair(name, value) <==> fields.contains((name, value)),
        fields_of(map_of(fields)) == fields,
{
    assert(in_order(fields));
    lemma_map_of(fields);
    lemma_fields_of(fields);
    if map_of(fields).contains_pair(name, value) {
        let i = choose|i: int| 0 <= i < fields.len() && #[trigger] fields[i].0 == name;
        assert(fields[i] == (name, value));
    }
    if fields.contains((name, value)) {
        let i = choose|i: int| 0 <= i < fields.len() && fields[i] == (name, value);
        assert(map_of(fields).contains_key(fields[i].0));
    }
}

/// Fields are in order where each name comes before all those behind it.
pub proof fn law_fields_in_order(fields: Seq<Field>)
    ensures
        in_order(fields) <==> forall|i: int, j: int|
            0 <= i < j < fields.len() ==> text_less(#[trigger] fields[i].0, #[trigger] fields[j].0),
{
}

/// A list of names and values shows them one by one.
pub proof fn law_list_shows_its_entries(entries: Seq<(String, JsonValue)>)
    ensures
        list_view(entries).len() == entries.len(),
        forall|i: int|
            0 <= i < entries.len() ==> #[trigger] list_view(entries)[i] == (
                entries[i].0@,
                entries[i].1@,
            ),
{
}

/// What is said of an attachment stands beside its kind where no member has the
/// name `kind` and no two have the same name.
pub proof fn law_beside_kind(members: Seq<Field>, member: Field)
    ensures
        beside_kind(Seq::empty()),
        beside_kind(members.push(member)) <==> beside_kind(members) && member.0 != "kind"@
            && forall|i: int| 0 <= i < members.len() ==> #[trigger] members[i].0 != member.0,
{
    let all = members.push(member);
    assert(all[members.len() as int] == member);
    assert(forall|i: int| 0 <= i < members.len() ==> #[trigger] all[i] == members[i]);
    if beside_kind(all) {
        assert forall|i: int| 0 <= i < members.len() implies #[trigger] members[i].0 != "kind"@ by {
            assert(all[i].0 != "kind"@);
        }
        assert forall|i: int, j: int| 0 <= i < j < members.len() implies #[trigger] members[i].0
            != #[trigger] members[j].0 by {
            assert(all[i].0 != all[j].0);
        }
        assert forall|i: int| 0 <= i < members.len() implies #[trigger] members[i].0
            != member.0 by {
            assert(all[i].0 != all[members.len() as int].0);
        }
    }
}

// ------------------------------------------------------------ what is written

/// A priority is written as its numeral without zeros before it, from which it is
/// read back; no priority is written as `null`, which is no numeral.
pub proof fn law_priority_reads_back(priority: Option<u8>)
    ensures
        priority matches Some(p) ==> {
            let text = json_priority(Some(p));
            &&& parsed_u32(text) == Some(p as u32)
            &&& forall|i: int| 0 <= i < text.len() ==> 48 <= (#[trigger] text[i]) as int <= 57
            &&& text.len() > 1 ==> text[0] != '0'
        },
        priority is None ==> json_priority(priority) == seq!['n', 'u', 'l', 'l'],
{
    if let Some(p) = priority {
        law_numbers_read_back(p as u32);
        lemma_decimal_reads_back(p as nat);
        let text = decimal_text(p as nat);
        assert forall|i: int| 0 <= i < text.len() implies 48 <= (#[trigger] text[i]) as int
            <= 57 by {
            assert(is_digit(text[i]));
        }
        law_no_leading_zero(p as nat);
    }
}

/// Two priorities are written alike only where they are the same.
pub proof fn law_priorities_are_told_apart(a: Option<u8>, b: Option<u8>)
    requires
        json_priority(a) == json_priority(b),
    ensures
        a == b,
{
    law_priority_reads_back(a);
    law_priority_reads_back(b);
    let (s, t) = (json_priority(a), json_priority(b));
    if a is None {
        assert(s[0] == 'n');
        assert(t.len() == 4);
    }
    if b is None {
        assert(t[0] == 'n');
        assert(s.len() == 4);
    }
}

/// An optional text is written as a string, from which it is read back, or as
/// `null`, which is no string.
pub proof fn law_optional_texts_are_told_apart(a: Option<Seq<char>>, b: Option<Seq<char>>)
    ensures
        a matches Some(s) ==> json_opt(a) == json_string(s),
        a is None ==> json_opt(a) == seq!['n', 'u', 'l', 'l'],
        json_opt(a) == json_opt(b) ==> a == b,
{
    let none = Seq::<char>::empty();
    if let Some(s) = a {
        law_string_reads_back(s, none);
    }
    if let Some(t) = b {
        law_string_reads_back(t, none);
    }
    if json_opt(a) == json_opt(b) {
        assert(json_opt(a)[0] == json_opt(b)[0]);
        if a is Some && b is Some {
            law_strings_are_told_apart(a->0, none, b->0, none);
        }
    }
}

/// Every field of a frontmatter stands at its place, under its name, with its
/// own value.
#[verifier::rlimit(40)]
pub proof fn law_every_field_is_written(
    fm: FrontmatterView,
    created: Seq<char>,
    updated: Seq<char>,
    custom: Seq<Field>,
)
    requires
        forall|i: int, j: int|
            0 <= i < j < custom.len() ==> text_less(#[trigger] custom[i].0, #[trigger] custom[j].0),
        fm.custom_fields == map_of(custom),
    ensures
        ({
            let members = frontmatter_members(fm, created, updated);
            &&& members.len() == 15
            &&& members[0] == ("id"@, json_string(fm.id))
            &&& members[1] == ("kind"@, json_string(fm.kind))
            &&& members[2] == ("title"@, json_string(fm.title))
            &&& members[3].0 == "status"@
            &&& members[4].0 == "priority"@
            &&& members[5].0 == "assignee"@
            &&& members[6] == (
                "labels"@,
                json_array(fm.labels.map_values(|label: Seq<char>| json_string(label))),
            )
            &&& members[7].0 == "parent_id"@
            &&& members[8] == ("created_at"@, json_string(created))
            &&& members[9] == ("updated_at"@, json_string(updated))
            &&& members[10].0 == "native_status"@
            &&& members[11].0 == "dispatch_label"@
            &&& members[12] == ("status_metadata"@, json_value(fm.status_metadata))
            &&& members[13] == (
                "attachments"@,
                json_array(
                    fm.attachments.map_values(
                        |a: AttachmentView|
                            json_object(
                                field_members(seq![("kind"@, JsonView::Text(a.kind))] + a.rest),
                            ),
                    ),
                ),
            )
            &&& members[14] == ("custom_fields"@, json_object(field_members(custom)))
            &&& members[3].1 == json_string(
                match fm.status {
                    SubjectStatus::Ready => "ready"@,
                    SubjectStatus::InProgress => "in-progress"@,
                    SubjectStatus::Blocked => "blocked"@,
                    SubjectStatus::Done => "done"@,
                    SubjectStatus::Cancelled => "cancelled"@,
                },
            )
            &&& members[4].1 == (match fm.priority {
                Some(p) => decimal_text(p as nat),
                None => seq!['n', 'u', 'l', 'l'],
            })
            &&& members[5].1 == text_or_null(fm.assignee)
            &&& members[7].1 == text_or_null(fm.parent_id)
            &&& members[10].1 == text_or_null(fm.native_status)
            &&& members[11].1 == text_or_null(fm.dispatch_label)
        }),
{
    lemma_attachments_are_objects(fm.attachments);
    law_fields_of_a_map(custom, Seq::empty(), JsonView::Null);
}

/// A text as a string, `null` where there is none.
pub open spec fn text_or_null(text: Option<Seq<char>>) -> Seq<char> {
    match text {
        Some(s) => json_string(s),
        None => seq!['n', 'u', 'l', 'l'],
    }
}

/// The members of the object that an attachment is written as.
pub open spec fn attachment_fields(a: AttachmentView) -> Seq<Field> {
    seq![("kind"@, JsonView::Text(a.kind))] + a.rest
}

#[verifier::rlimit(40)]
proof fn lemma_attachments_are_objects(attachments: Seq<AttachmentView>)
    ensures
        attachments.map_values(|a: AttachmentView| attachment_json(a)) == attachments.map_values(
            |a: AttachmentView|
                json_object(field_members(seq![("kind"@, JsonView::Text(a.kind))] + a.rest)),
        ),
        attachments.map_values(|a: AttachmentView| attachment_json(a)) == attachments.map_values(
            |a: AttachmentView| attachment_fields(a),
        ).map_values(|fields: Seq<Field>| json_object(field_members(fields))),
{
    let written = attachments.map_values(|a: AttachmentView| attachment_json(a));
    let objects = attachments.map_values(
        |a: AttachmentView|
            json_object(field_members(seq![("kind"@, JsonView::Text(a.kind))] + a.rest)),
    );
    assert forall|i: int| 0 <= i < attachments.len() implies written[i] == objects[i] by {
        let a = attachments[i];
        let fields = seq![("kind"@, JsonView::Text(a.kind))] + a.rest;
        assert(field_members(fields) =~= seq![("kind"@, json_string(a.kind))] + field_members(
            a.rest,
        ));
    }
    assert(written =~= objects);
    assert(written =~= attachments.map_values(
        |a: AttachmentView| attachment_fields(a),
    ).map_values(|fields: Seq<Field>| json_object(field_members(fields))));
}

/// Whether the values in attachments are told apart, place by place.
pub open spec fn attachments_told_apart(a: Seq<AttachmentView>, b: Seq<AttachmentView>) -> bool {
    forall|i: int|
        0 <= i < a.len() && i < b.len() ==> all_told_apart(a[i].rest, (#[trigger] b[i]).rest)
}

/// What is written of a field is the same for two frontmatters only where the
/// field is: what is written determines the frontmatter, as far as the JSON
/// values in it are told apart by their texts.
#[verifier::rlimit(40)]
pub proof fn law_written_fields_determine_the_frontmatter(
    a: FrontmatterView,
    created_a: Seq<char>,
    updated_a: Seq<char>,
    custom_a: Seq<Field>,
    b: FrontmatterView,
    created_b: Seq<char>,
    updated_b: Seq<char>,
    custom_b: Seq<Field>,
)
    requires
        in_order(custom_a),
        in_order(custom_b),
        a.custom_fields == map_of(custom_a),
        b.custom_fields == map_of(custom_b),
    ensures
        ({
            let left = frontmatter_members(a, created_a, updated_a);
            let right = frontmatter_members(b, created_b, updated_b);
            &&& left[0].1 == right[0].1 ==> a.id == b.id
            &&& left[1].1 == right[1].1 ==> a.kind == b.kind
            &&& left[2].1 == right[2].1 ==> a.title == b.title
            &&& left[3].1 == right[3].1 ==> a.status == b.status
            &&& left[4].1 == right[4].1 ==> a.priority == b.priority
            &&& left[5].1 == right[5].1 ==> a.assignee == b.assignee
            &&& left[6].1 == right[6].1 ==> a.labels == b.labels
            &&& left[7].1 == right[7].1 ==> a.parent_id == b.parent_id
            &&& left[8].1 == right[8].1 ==> created_a == created_b
            &&& left[9].1 == right[9].1 ==> updated_a == updated_b
            &&& left[10].1 == right[10].1 ==> a.native_status == b.native_status
            &&& left[11].1 == right[11].1 ==> a.dispatch_label == b.dispatch_label
            &&& left[12].1 == right[12].1 && told_apart(a.status_metadata, b.status_metadata)
                ==> a.status_metadata == b.status_metadata
            &&& left[13].1 == right[13].1 && attachments_told_apart(a.attachments, b.attachments)
                ==> a.attachments == b.attachments
            &&& left[14].1 == right[14].1 && all_told_apart(custom_a, custom_b) ==> a.custom_fields
                == b.custom_fields
        }),
{
    let none = Seq::<char>::empty();
    let left = frontmatter_members(a, created_a, updated_a);
    let right = frontmatter_members(b, created_b, updated_b);
    law_every_field_is_written(a, created_a, updated_a, custom_a);
    law_every_field_is_written(b, created_b, updated_b, custom_b);
    lemma_equal_strings(a.id, b.id);
    lemma_equal_strings(a.kind, b.kind);
    lemma_equal_strings(a.title, b.title);
    lemma_equal_strings(
        status_text(a.status),
        status_text(b.status),
    );
    lemma_equal_strings(created_a, created_b);
    lemma_equal_strings(updated_a, updated_b);
    if left[3].1 == right[3].1 {
        law_status_names_differ(a.status, b.status);
    }
    if left[4].1 == right[4].1 {
        law_priorities_are_told_apart(a.priority, b.priority);
    }
    law_optional_texts_are_told_apart(a.assignee, b.assignee);
    law_optional_texts_are_told_apart(a.parent_id, b.parent_id);
    law_optional_texts_are_told_apart(a.native_status, b.native_status);
    law_optional_texts_are_told_apart(a.dispatch_label, b.dispatch_label);
    if left[6].1 == right[6].1 {
        assert(a.labels.map_values(|l: Seq<char>| json_string(l)) =~= a.labels.map_values(
            |s: Seq<char>| json_string(s),
        ));
        law_string_arrays_are_told_apart(a.labels, b.labels);
    }
    if left[12].1 == right[12].1 && told_apart(a.status_metadata, b.status_metadata) {
        let end = seq!['}'];
        assert(ends_value(end));
        assert(json_value(a.status_metadata) + end == json_value(b.status_metadata) + end);
    }
    if left[13].1 == right[13].1 && attachments_told_apart(a.attachments, b.attachments) {
        lemma_equal_attachments(a.attachments, b.attachments);
    }
    if left[14].1 == right[14].1 && all_told_apart(custom_a, custom_b) {
        assert(json_object(field_members(custom_a)) + none == json_object(field_members(custom_b))
            + none);
        law_objects_are_told_apart(custom_a, none, custom_b, none);
    }
}

proof fn lemma_equal_strings(a: Seq<char>, b: Seq<char>)
    ensures
        json_string(a) == json_string(b) ==> a == b,
{
    let none = Seq::<char>::empty();
    if json_string(a) == json_string(b) {
        law_strings_are_told_apart(a, none, b, none);
    }
}

#[verifier::rlimit(40)]
proof fn lemma_equal_attachments(a: Seq<AttachmentView>, b: Seq<AttachmentView>)
    requires
        attachments_told_apart(a, b),
        json_array(a.map_values(|x: AttachmentView| attachment_json(x))) == json_array(
            b.map_values(|x: AttachmentView| attachment_json(x)),
        ),
    ensures
        a == b,
{
    let fields = |x: AttachmentView| attachment_fields(x);
    let left = a.map_values(fields);
    let right = b.map_values(fields);
    lemma_attachments_are_objects(a);
    lemma_attachments_are_objects(b);
    assert forall|i: int| 0 <= i < left.len() && i < right.len() implies all_told_apart(
        left[i],
        #[trigger] right[i],
    ) by {
        let (x, y) = (a[i], b[i]);
        assert(all_told_apart(x.rest, y.rest));
        law_null_and_strings_are_told_apart(x.kind, y.kind);
        assert forall|k: int| 0 <= k < left[i].len() && k < right[i].len() implies told_apart(
            left[i][k].1,
            #[trigger] right[i][k].1,
        ) by {
            if k > 0 {
                assert(told_apart(x.rest[k - 1].1, y.rest[k - 1].1));
            }
        }
    }
    law_object_arrays_are_told_apart(left, right);
    assert(a.len() == left.len() && b.len() == right.len());
    assert forall|i: int| 0 <= i < a.len() implies a[i] == b[i] by {
        assert(left[i] == right[i]);
        assert(a[i].kind == left[i][0].1->Text_0);
        assert(b[i].kind == right[i][0].1->Text_0);
        assert(a[i].rest =~= left[i].skip(1));
        assert(b[i].rest =~= right[i].skip(1));
    }
    assert(a =~= b);
}

// -------------------------------------------------------------- the whole of it

/// The text of a frontmatter is the YAML of the object of its fields, with a `\n`
/// behind it where it does not end in one. The times stand there as chrono writes
/// them, each under its own name. There is no text where a time is none, where the
/// object is nested too deep, or where it has no YAML.
pub proof fn law_frontmatter_text(fm: FrontmatterView)
    ensures
        ({
            let created = rfc3339_text(fm.created_at.secs, fm.created_at.nanos);
            let updated = rfc3339_text(fm.updated_at.secs, fm.updated_at.nanos);
            let json = json_object(frontmatter_members(fm, created->0, updated->0));
            let yaml = yaml_of_json(json);
            let text = frontmatter_text(fm);
            &&& text == Err::<Seq<char>, _>(RenderError::Timestamp) <==> created is None
                || updated is None
            &&& text == Err::<Seq<char>, _>(RenderError::Depth) <==> created is Some
                && updated is Some && levels(json) > 1024
            &&& text == Err::<Seq<char>, _>(RenderError::Yaml) <==> created is Some
                && updated is Some && levels(json) <= 1024 && yaml is None
            &&& text matches Ok(t) ==> {
                &&& t.len() > 0 && t[t.len() - 1] == '\n'
                &&& yaml matches Some(y) && (t == y || (t == y + seq!['\n'] && !(y.len() > 0
                    && y[y.len() - 1] == '\n')))
            }
        }),
{
    assert(MAX_LEVELS == 1024);
    let created = rfc3339_text(fm.created_at.secs, fm.created_at.nanos);
    let updated = rfc3339_text(fm.updated_at.secs, fm.updated_at.nanos);
    let json = json_object(frontmatter_members(fm, created->0, updated->0));
    if let Some(y) = yaml_of_json(json) {
        assert(y.push('\n') =~= y + seq!['\n']);
    }
}

/// A plain frontmatter has the fields it is made with, and every other field in
/// its empty form.
pub proof fn law_plain_frontmatter(
    id: Seq<char>,
    kind: Seq<char>,
    title: Seq<char>,
    status: SubjectStatus,
    created_at: Timestamp,
    updated_at: Timestamp,
)
    ensures
        ({
            let fm = plain_frontmatter(id, kind, title, status, created_at, updated_at);
            &&& fm.id == id
            &&& fm.kind == kind
            &&& fm.title == title
            &&& fm.status == status
            &&& fm.created_at == created_at
            &&& fm.updated_at == updated_at
            &&& fm.priority is None
            &&& fm.assignee is None
            &&& fm.labels.len() == 0
            &&& fm.parent_id is None
            &&& fm.native_status is None
            &&& fm.dispatch_label is None
            &&& json_value(fm.status_metadata) == seq!['{', '}']
            &&& fm.status_metadata is Other
            &&& fm.attachments.len() == 0
            &&& forall|name: Seq<char>| !(#[trigger] fm.custom_fields.contains_key(name))
        }),
{
}

} // verus!
