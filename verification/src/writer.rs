//! Subject files put together.
//!
//! Writing the same content twice gives the same bytes: the fields of the
//! frontmatter stand in a fixed order, a field without a value is written as
//! `null`, custom fields stand in alphabetical order, lines end in `\n`, and
//! exactly one `\n` ends the file. A file is written beside its place first and
//! then renamed into it, so that no torn file is ever seen.

use crate::decimal::{decimal, decimal_text};
use crate::fields::{add_fields, field_members, fields_of};
use crate::json::{
    array, json_array, json_null, json_object, json_string, json_value, members_view, object,
    quoted,
};
use crate::lines::{
    has_cr_ending, has_crlf, lemma_lf_text, lemma_lf_text_keeps, lemma_lf_text_of_unix_text,
    lemma_trim_lf_text, lemma_trim_line_ends, lemma_trim_line_ends_is_trim_newlines,
    lemma_trim_newlines, lf_text, to_lf, trim_line_ends, trim_newlines, unix_text,
    without_line_ends,
};
use crate::nesting::{levels, nests_within};
use crate::parser::{
    assembled, delimiter_at, delimiter_line, has_delimiter, law_expected_shape, parses_to,
    split_file, DocView, Frontmatter, FrontmatterView, MarkdownDoc, MissingDelimiter, ParseError,
};
use crate::paths::{
    file_name, is_plain_name, is_trimmed, join, join_path, lemma_join_takes_apart,
    lemma_name_is_plain, lemma_parent_is_trimmed, name_of, parent, parent_of,
};
use crate::subject::{
    attachments_view, opt_text, status_text, Attachment, AttachmentView, SubjectStatus,
};
use crate::text::{ends_with, joined};
use crate::time::rfc3339_text;
use vstd::prelude::*;

verus! {

/// The error type of serde_yaml, which only says that there is no YAML text.
#[verifier::external_type_specification]
#[verifier::external_body]
pub struct ExYamlError(serde_yaml::Error);

/// Why a document could not be rendered.
#[derive(Debug, Clone, Copy, PartialEq, Eq, Structural)]
pub enum RenderError {
    /// A timestamp is no point in time.
    Timestamp,
    /// It is nested deeper than [`MAX_LEVELS`].
    Depth,
    /// serde_yaml refuses the frontmatter.
    Yaml,
}

/// The YAML text of the value that a JSON text denotes, as serde_yaml writes
/// it; `None` where it writes none.
pub uninterp spec fn yaml_of_json(json: Seq<char>) -> Option<Seq<char>>;

/// How deep a frontmatter may be nested. Every level takes a few hundred bytes of
/// stack or more while its YAML text is made, and a thread may have no more than
/// two megabytes of it.
pub const MAX_LEVELS: usize = 1024;

/// Calls `serde_yaml::to_string` on the `serde_yaml::Value` that a
/// `serde_json::Deserializer` reads from `json`. Claimed is that the outcome
/// depends on the text alone, and of the YAML text of an object that it holds
/// no `\r` (the emitter escapes it) and no line that is `---` and nothing else
/// (a key that starts with `---` is quoted, and what is not a key is indented or
/// starts with `- `, `? ` or `: `). Both calls go down by recursion, so the depth
/// is bounded.
#[verifier::external_body]
fn yaml_from_json(json: &str) -> (yaml: Result<String, serde_yaml::Error>)
    requires
        levels(json@) <= MAX_LEVELS,
    ensures
        yaml is Ok <==> yaml_of_json(json@) is Some,
        yaml matches Ok(text) ==> yaml_of_json(json@) == Some(text@),
        yaml matches Ok(text) ==> json@.len() > 0 && json@[0] == '{' ==> !text@.contains('\r')
            && !has_delimiter(text@),
{
    let mut reader = serde_json::Deserializer::from_str(json);
    reader.disable_recursion_limit();
    let value: serde_yaml::Value = match serde::Deserialize::deserialize(&mut reader) {
        Ok(value) => value,
        Err(error) => return Err(serde::de::Error::custom(error)),
    };
    match reader.end() {
        Ok(()) => serde_yaml::to_string(&value),
        Err(error) => Err(serde::de::Error::custom(error)),
    }
}

// ---------------------------------------------------------------- frontmatter

/// An optional text as JSON.
pub open spec fn json_opt(text: Option<Seq<char>>) -> Seq<char> {
    match text {
        Some(s) => json_string(s),
        None => json_null(),
    }
}

/// A priority as JSON.
pub open spec fn json_priority(priority: Option<u8>) -> Seq<char> {
    match priority {
        Some(p) => decimal_text(p as nat),
        None => json_null(),
    }
}

/// An attachment as JSON: its kind, and what else is said of it.
pub open spec fn attachment_json(attachment: AttachmentView) -> Seq<char> {
    json_object(
        seq![("kind"@, json_string(attachment.kind))] + field_members(attachment.rest),
    )
}

/// The fields of a frontmatter in the order in which they are written, each
/// with its value as JSON.
pub open spec fn frontmatter_members(
    fm: FrontmatterView,
    created: Seq<char>,
    updated: Seq<char>,
) -> Seq<(Seq<char>, Seq<char>)> {
    seq![
        ("id"@, json_string(fm.id)),
        ("kind"@, json_string(fm.kind)),
        ("title"@, json_string(fm.title)),
        ("status"@, json_string(status_text(fm.status))),
        ("priority"@, json_priority(fm.priority)),
        ("assignee"@, json_opt(fm.assignee)),
        ("labels"@, json_array(fm.labels.map_values(|l: Seq<char>| json_string(l)))),
        ("parent_id"@, json_opt(fm.parent_id)),
        ("created_at"@, json_string(created)),
        ("updated_at"@, json_string(updated)),
        ("native_status"@, json_opt(fm.native_status)),
        ("dispatch_label"@, json_opt(fm.dispatch_label)),
        ("status_metadata"@, json_value(fm.status_metadata)),
        (
            "attachments"@,
            json_array(fm.attachments.map_values(|a: AttachmentView| attachment_json(a))),
        ),
        ("custom_fields"@, json_object(field_members(fields_of(fm.custom_fields)))),
    ]
}

/// A text that ends in `\n`.
pub open spec fn newline_ended(s: Seq<char>) -> Seq<char> {
    if s.len() > 0 && s.last() == '\n' {
        s
    } else {
        s.push('\n')
    }
}

/// The YAML text of a frontmatter.
pub open spec fn frontmatter_text(fm: FrontmatterView) -> Result<Seq<char>, RenderError> {
    match (
        rfc3339_text(fm.created_at.secs, fm.created_at.nanos),
        rfc3339_text(fm.updated_at.secs, fm.updated_at.nanos),
    ) {
        (Some(created), Some(updated)) => {
            let json = json_object(frontmatter_members(fm, created, updated));
            if levels(json) > MAX_LEVELS {
                Err(RenderError::Depth)
            } else {
                match yaml_of_json(json) {
                    Some(yaml) => Ok(newline_ended(yaml)),
                    None => Err(RenderError::Yaml),
                }
            }
        },
        _ => Err(RenderError::Timestamp),
    }
}

/// `null` as JSON.
fn null_json() -> (json: String)
    ensures
        json@ == json_null(),
{
    proof {
        reveal_strlit("null");
        assert("null"@ =~= json_null());
    }
    "null".to_owned()
}

/// An optional text as JSON.
fn opt_json(text: &Option<String>) -> (json: String)
    ensures
        json@ == json_opt(opt_text(*text)),
{
    match text {
        Some(s) => quoted(s.as_str()),
        None => null_json(),
    }
}

/// A priority as JSON.
fn priority_json(priority: &Option<u8>) -> (json: String)
    ensures
        json@ == json_priority(*priority),
{
    match priority {
        Some(p) => decimal(*p as u32),
        None => null_json(),
    }
}

/// Labels as JSON.
fn labels_json(labels: &Vec<String>) -> (json: String)
    ensures
        json@ == json_array(labels.deep_view().map_values(|l: Seq<char>| json_string(l))),
{
    let ghost want = labels.deep_view().map_values(|l: Seq<char>| json_string(l));
    let mut items: Vec<String> = Vec::new();
    let mut i: usize = 0;
    while i < labels.len()
        invariant
            i <= labels.len(),
            want == labels.deep_view().map_values(|l: Seq<char>| json_string(l)),
            items.deep_view() == want.take(i as int),
        decreases labels.len() - i,
    {
        let ghost before = items.deep_view();
        let item = quoted(labels[i].as_str());
        items.push(item);
        assert(items.deep_view() =~= before.push(item@));
        assert(want.take(i + 1) =~= want.take(i as int).push(item@));
        i += 1;
    }
    assert(items.deep_view() =~= want);
    array(&items)
}

/// An attachment as JSON.
fn one_attachment_json(attachment: &Attachment) -> (json: String)
    ensures
        json@ == attachment_json(attachment@),
{
    let mut members: Vec<(String, String)> = Vec::new();
    members.push(("kind".to_owned(), quoted(attachment.kind())));
    assert(members_view(members@) =~= seq![("kind"@, json_string(attachment@.kind))]);
    add_fields(&mut members, attachment.rest());
    object(&members)
}

/// Attachments as JSON.
fn attachments_json(attachments: &Vec<Attachment>) -> (json: String)
    ensures
        json@ == json_array(
            attachments_view(attachments@).map_values(|a: AttachmentView| attachment_json(a)),
        ),
{
    let ghost want = attachments_view(attachments@).map_values(
        |a: AttachmentView| attachment_json(a),
    );
    let mut items: Vec<String> = Vec::new();
    let mut i: usize = 0;
    while i < attachments.len()
        invariant
            i <= attachments.len(),
            want == attachments_view(attachments@).map_values(
                |a: AttachmentView| attachment_json(a),
            ),
            items.deep_view() == want.take(i as int),
        decreases attachments.len() - i,
    {
        let ghost before = items.deep_view();
        let item = one_attachment_json(&attachments[i]);
        items.push(item);
        assert(items.deep_view() =~= before.push(item@));
        assert(want.take(i + 1) =~= want.take(i as int).push(item@));
        i += 1;
    }
    assert(items.deep_view() =~= want);
    array(&items)
}

/// Custom fields as JSON, in alphabetical order of their names.
fn custom_json(frontmatter: &Frontmatter) -> (json: String)
    ensures
        json@ == json_object(field_members(fields_of(frontmatter@.custom_fields))),
{
    let mut members: Vec<(String, String)> = Vec::new();
    assert(members_view(members@) =~= seq![]);
    add_fields(&mut members, frontmatter.custom_fields.list());
    assert(members_view(members@) =~= field_members(fields_of(frontmatter@.custom_fields)));
    object(&members)
}

/// One more member of a frontmatter under construction.
fn add_member(members: &mut Vec<(String, String)>, name: &str, json: String)
    ensures
        members_view(final(members)@) == members_view(old(members)@).push((name@, json@)),
{
    let ghost before = members@;
    members.push((name.to_owned(), json));
    assert(members_view(members@) =~= members_view(before).push((name@, json@)));
}

/// The YAML text of a frontmatter, which ends in `\n`.
pub fn render_frontmatter(frontmatter: &Frontmatter) -> (yaml: Result<String, RenderError>)
    ensures
        match yaml {
            Ok(text) => frontmatter_text(frontmatter@) == Ok::<_, RenderError>(text@),
            Err(error) => frontmatter_text(frontmatter@) == Err::<Seq<char>, _>(error),
        },
        yaml matches Ok(text) ==> is_readable(text@),
{
    let created = match frontmatter.created_at.to_rfc3339() {
        Some(text) => text,
        None => return Err(RenderError::Timestamp),
    };
    let updated = match frontmatter.updated_at.to_rfc3339() {
        Some(text) => text,
        None => return Err(RenderError::Timestamp),
    };
    let mut members: Vec<(String, String)> = Vec::new();
    add_member(&mut members, "id", quoted(frontmatter.id.as_str()));
    add_member(&mut members, "kind", quoted(frontmatter.kind.as_str()));
    add_member(&mut members, "title", quoted(frontmatter.title.as_str()));
    add_member(&mut members, "status", quoted(frontmatter.status.as_str()));
    add_member(&mut members, "priority", priority_json(&frontmatter.priority));
    add_member(&mut members, "assignee", opt_json(&frontmatter.assignee));
    add_member(&mut members, "labels", labels_json(&frontmatter.labels));
    add_member(&mut members, "parent_id", opt_json(&frontmatter.parent_id));
    add_member(&mut members, "created_at", quoted(created.as_str()));
    add_member(&mut members, "updated_at", quoted(updated.as_str()));
    add_member(&mut members, "native_status", opt_json(&frontmatter.native_status));
    add_member(&mut members, "dispatch_label", opt_json(&frontmatter.dispatch_label));
    add_member(&mut members, "status_metadata", frontmatter.status_metadata.to_json());
    add_member(&mut members, "attachments", attachments_json(&frontmatter.attachments));
    add_member(&mut members, "custom_fields", custom_json(frontmatter));
    assert(members_view(members@) =~= frontmatter_members(frontmatter@, created@, updated@));
    let json = object(&members);
    assert(json@[0] == '{');
    if !nests_within(json.as_str(), MAX_LEVELS) {
        return Err(RenderError::Depth);
    }
    match yaml_from_json(json.as_str()) {
        Ok(text) => {
            let mut yaml = text;
            proof {
                reveal_strlit("\n");
                assert("\n"@ =~= seq!['\n']);
            }
            if !ends_with(yaml.as_str(), "\n") {
                proof {
                    if yaml@.len() > 0 && yaml@.last() == '\n' {
                        assert(seq!['\n'] =~= yaml@.skip(yaml@.len() - 1));
                    }
                    lemma_newline_ended_is_clean(yaml@);
                }
                yaml.push('\n');
            } else {
                assert(yaml@.last() == seq!['\n'][0]);
            }
            Ok(yaml)
        },
        Err(_) => Err(RenderError::Yaml),
    }
}

/// A line ending brings neither `\r` nor a `---` line into a text.
proof fn lemma_newline_ended_is_clean(s: Seq<char>)
    requires
        !s.contains('\r'),
        !has_delimiter(s),
    ensures
        !s.push('\n').contains('\r'),
        !has_delimiter(s.push('\n')),
{
    let t = s.push('\n');
    assert forall|i: int| 0 <= i < t.len() implies t[i] != '\r' by {
        if i < s.len() {
            assert(s.contains(s[i]));
        }
    }
    if has_delimiter(t) {
        let at = choose|at: int| delimiter_at(t, at);
        assert(delimiter_at(s, at));
    }
}

// ---------------------------------------------------------------- documents

/// A body with `\n` line endings and exactly one `\n` at its end. No `\r` is left
/// before a line ending.
pub open spec fn normal_body(body: Seq<char>) -> Seq<char> {
    lf_text(trim_line_ends(body)).push('\n')
}

/// What is asked of a frontmatter text so that it can be read back: it ends in
/// `\n`, holds no `\r`, and none of its lines is `---` and nothing else.
pub open spec fn is_readable(yaml: Seq<char>) -> bool {
    &&& yaml.len() > 0 && yaml.last() == '\n'
    &&& !yaml.contains('\r')
    &&& !has_delimiter(yaml)
}

/// A file with this frontmatter text and this body.
pub open spec fn file_text(yaml: Seq<char>, body: Seq<char>) -> Seq<char> {
    delimiter_line() + yaml + delimiter_line() + normal_body(body)
}

/// The text of the file of a document.
pub open spec fn document_text(doc: DocView) -> Result<Seq<char>, RenderError> {
    match frontmatter_text(doc.frontmatter) {
        Ok(yaml) => Ok(file_text(yaml, doc.body)),
        Err(error) => Err(error),
    }
}

/// A body with `\n` line endings and exactly one `\n` at its end. An empty body
/// becomes that one `\n`.
pub fn normalize_body(body: &str) -> (out: String)
    ensures
        out@ == normal_body(body@),
{
    let text = without_line_ends(body);
    let mut out = to_lf(text.as_str());
    out.push('\n');
    out
}

/// The text of the file of a document: `---`, the frontmatter, `---`, the body.
///
/// What is written is read back: the file splits into the frontmatter text and
/// the body that were written. No `\r\n` stands in it.
pub fn render(doc: &MarkdownDoc) -> (text: Result<String, RenderError>)
    ensures
        match text {
            Ok(t) => document_text(doc@) == Ok::<_, RenderError>(t@) && is_readable(
                frontmatter_text(doc.frontmatter@)->Ok_0,
            ),
            Err(error) => document_text(doc@) == Err::<Seq<char>, _>(error),
        },
        text matches Ok(t) ==> split_file(t@) == Ok::<_, MissingDelimiter>(
            (frontmatter_text(doc.frontmatter@)->Ok_0, normal_body(doc.body@)),
        ) && !has_crlf(t@),
{
    let yaml = match render_frontmatter(&doc.frontmatter) {
        Ok(yaml) => yaml,
        Err(error) => return Err(error),
    };
    let body = normalize_body(doc.body.as_str());
    proof {
        reveal_strlit("---\n");
        assert("---\n"@ =~= delimiter_line());
        law_file_reads_back(yaml@, doc.body@);
    }
    let mut text = "---\n".to_owned();
    text.append(yaml.as_str());
    text.append("---\n");
    text.append(body.as_str());
    Ok(text)
}

/// A file gives back the frontmatter text and the body that it was made of, the
/// body in its normal form. No `\r\n` stands in it.
pub proof fn law_file_reads_back(yaml: Seq<char>, body: Seq<char>)
    requires
        is_readable(yaml),
    ensures
        split_file(file_text(yaml, body)) == Ok::<_, MissingDelimiter>((yaml, normal_body(body))),
        !has_crlf(file_text(yaml, body)),
{
    law_normal_body(body);
    assert forall|i: int| 0 <= i < yaml.len() implies yaml[i] != '\r' by {
        assert(yaml.contains(yaml[i]));
    }
    law_expected_shape(yaml, normal_body(body));
}

/// A body in its normal form ends in exactly one `\n`.
pub proof fn law_one_final_newline(body: Seq<char>)
    ensures
        normal_body(body).len() > 0,
        normal_body(body).last() == '\n',
        normal_body(body).len() > 1 ==> normal_body(body)[normal_body(body).len() - 2] != '\n',
{
    lemma_trim_line_ends(body);
    lemma_lf_text(trim_line_ends(body));
}

/// A body in its normal form has no `\r\n` and is its own normal form.
pub proof fn law_normal_body(body: Seq<char>)
    ensures
        !has_crlf(normal_body(body)),
        normal_body(normal_body(body)) == normal_body(body),
{
    let text = trim_line_ends(body);
    let lf = lf_text(text);
    let norm = normal_body(body);
    lemma_trim_line_ends(body);
    lemma_lf_text(text);
    assert forall|i: int| 0 <= i < norm.len() - 1 && #[trigger] norm[i] == '\r' implies norm[i + 1]
        != '\n' by {
        assert(lf[i] == '\r');
    }
    assert(norm.drop_last() =~= lf);
    assert(trim_line_ends(lf) == lf);
    lemma_lf_text_keeps(lf);
}

/// A body in which no `\r` ends a line is kept but for the `\n`s at its end, which
/// become one.
pub proof fn law_only_final_newlines_change(body: Seq<char>)
    requires
        !has_cr_ending(body),
    ensures
        normal_body(body) == trim_newlines(body).push('\n'),
{
    lemma_trim_line_ends_is_trim_newlines(body);
    lemma_trim_newlines(body);
    let text = trim_newlines(body);
    assert forall|i: int| 0 <= i < text.len() - 1 && #[trigger] text[i] == '\r' implies text[i + 1]
        != '\n' by {
        assert(body[i] == '\r');
        assert(body[i + 1] == text[i + 1]);
    }
    lemma_lf_text_keeps(text);
}

/// A body and the same body with `\n` in place of `\r\n` have the same normal form:
/// that body with one `\n` at its end, where no `\r` is left before a line ending.
pub proof fn law_line_endings_do_not_matter(body: Seq<char>)
    ensures
        normal_body(unix_text(body)) == normal_body(body),
        !has_cr_ending(unix_text(body)) ==> normal_body(body) == trim_newlines(
            unix_text(body),
        ).push('\n'),
{
    lemma_trim_lf_text(body);
    lemma_trim_lf_text(unix_text(body));
    lemma_lf_text_of_unix_text(body);
    if !has_cr_ending(unix_text(body)) {
        law_only_final_newlines_change(unix_text(body));
    }
}

/// Whether a decoder makes a frontmatter of its text, whatever else it does.
pub open spec fn reads_back<F: FnOnce(String) -> Result<Frontmatter, String>>(
    decode: F,
    yaml: Seq<char>,
    fm: FrontmatterView,
) -> bool {
    forall|text: String, decoded: Result<Frontmatter, String>|
        text@ == yaml && #[trigger] decode.ensures((text,), decoded) ==> (decoded matches Ok(
            frontmatter,
        ) && frontmatter@ == fm)
}

/// A document that was rendered is parsed back as it was, with its body in the
/// normal form, by every decoder that reads the frontmatter text back: the
/// document itself where its body has that form. Rendering what was parsed
/// gives the same text again, which has no `\r\n`.
pub proof fn law_rendered_parses_back<F: FnOnce(String) -> Result<Frontmatter, String>>(
    doc: DocView,
    yaml: Seq<char>,
    decode: F,
    read: Result<MarkdownDoc, ParseError>,
)
    requires
        frontmatter_text(doc.frontmatter) == Ok::<_, RenderError>(yaml),
        is_readable(yaml),
        reads_back(decode, yaml, doc.frontmatter),
        parses_to(decode, file_text(yaml, doc.body), read),
    ensures
        document_text(doc) == Ok::<_, RenderError>(file_text(yaml, doc.body)),
        read matches Ok(again) && again@ == (DocView {
            frontmatter: doc.frontmatter,
            body: normal_body(doc.body),
        }) && document_text(again@) == document_text(doc),
        normal_body(doc.body) == doc.body ==> read->Ok_0@ == doc,
        !has_crlf(file_text(yaml, doc.body)),
{
    law_file_reads_back(yaml, doc.body);
    law_normal_body(doc.body);
    let (text, decoded) = choose|text: String, decoded: Result<Frontmatter, String>|
        text@ == yaml && #[trigger] decode.ensures((text,), decoded) && assembled(
            normal_body(doc.body),
            decoded,
            read,
        );
    assert(read->Ok_0@ =~= DocView {
        frontmatter: doc.frontmatter,
        body: normal_body(doc.body),
    });
}

/// Reading a file that was rendered and rendering what was read changes nothing,
/// and no `\r\n` stands in the file.
pub proof fn law_rendered_file_is_kept<F: FnOnce(String) -> Result<Frontmatter, String>>(
    doc: DocView,
    raw: Seq<char>,
    decode: F,
    read: Result<MarkdownDoc, ParseError>,
)
    requires
        document_text(doc) == Ok::<_, RenderError>(raw),
        is_readable(frontmatter_text(doc.frontmatter)->Ok_0),
        reads_back(decode, frontmatter_text(doc.frontmatter)->Ok_0, doc.frontmatter),
        parses_to(decode, raw, read),
    ensures
        read matches Ok(again) && document_text(again@) == Ok::<_, RenderError>(raw),
        !has_crlf(raw),
{
    law_rendered_parses_back(doc, frontmatter_text(doc.frontmatter)->Ok_0, decode, read);
}

/// Equal content gives equal bytes, however it came about: in whatever order
/// custom fields were set, for one.
pub proof fn law_equal_content_renders_alike(a: MarkdownDoc, b: MarkdownDoc)
    requires
        a@ == b@,
    ensures
        document_text(a@) == document_text(b@),
{
}

/// The names of the fields of a frontmatter, in the order in which they are
/// written.
pub open spec fn field_order() -> Seq<Seq<char>> {
    seq![
        "id"@,
        "kind"@,
        "title"@,
        "status"@,
        "priority"@,
        "assignee"@,
        "labels"@,
        "parent_id"@,
        "created_at"@,
        "updated_at"@,
        "native_status"@,
        "dispatch_label"@,
        "status_metadata"@,
        "attachments"@,
        "custom_fields"@,
    ]
}

/// All fields are written, in a fixed order, whatever they hold.
pub proof fn law_field_order_is_fixed(fm: FrontmatterView, created: Seq<char>, updated: Seq<char>)
    ensures
        frontmatter_members(fm, created, updated).map_values(
            |m: (Seq<char>, Seq<char>)| m.0,
        ) == field_order(),
{
    assert(frontmatter_members(fm, created, updated).map_values(|m: (Seq<char>, Seq<char>)| m.0)
        =~= field_order());
}

/// A change of status changes what is written of the status and nothing else.
pub proof fn law_status_change_is_local(
    fm: FrontmatterView,
    status: SubjectStatus,
    created: Seq<char>,
    updated: Seq<char>,
)
    ensures
        frontmatter_members(FrontmatterView { status, ..fm }, created, updated)
            == frontmatter_members(fm, created, updated).update(
            3,
            ("status"@, json_string(status_text(status))),
        ),
{
    assert(frontmatter_members(FrontmatterView { status, ..fm }, created, updated)
        =~= frontmatter_members(fm, created, updated).update(
        3,
        ("status"@, json_string(status_text(status))),
    ));
}

// ---------------------------------------------------------------- atomic writes

/// `.tmp`.
pub open spec fn tmp() -> Seq<char> {
    seq!['.', 't', 'm', 'p']
}

/// The staging path of a path: beside it, its name followed by `.tmp`.
pub open spec fn tmp_path(path: Seq<char>) -> Seq<char> {
    let name = match name_of(path) {
        Some(name) => name + tmp(),
        None => tmp(),
    };
    match parent_of(path) {
        Some(parent) => join_path(parent, name),
        None => name,
    }
}

/// The staging path of `path`: beside it, its name followed by `.tmp`.
pub fn tmp_path_for(path: &str) -> (staging: String)
    ensures
        staging@ == tmp_path(path@),
{
    proof {
        reveal_strlit(".tmp");
        assert(".tmp"@ =~= tmp());
    }
    let mut name = match file_name(path) {
        Some(name) => name,
        None => String::new(),
    };
    name.append(".tmp");
    assert(name_of(path@) is None ==> name@ =~= tmp());
    match parent(path) {
        Some(dir) => join(dir.as_str(), name.as_str()),
        None => name,
    }
}

/// One step of what is to be done on disk.
#[derive(Debug, PartialEq, Eq)]
pub enum FileStep {
    /// Create this directory and those above it, where they are missing.
    CreateDirs(String),
    /// Make this text the contents of the file at this path.
    Write(String, String),
    /// Rename the file at the first path to the second, over what is there.
    Rename(String, String),
    /// Remove the file at this path.
    Remove(String),
}

/// What a [`FileStep`] says.
pub enum StepView {
    CreateDirs(Seq<char>),
    Write(Seq<char>, Seq<char>),
    Rename(Seq<char>, Seq<char>),
    Remove(Seq<char>),
}

impl View for FileStep {
    type V = StepView;

    open spec fn view(&self) -> StepView {
        match *self {
            FileStep::CreateDirs(dir) => StepView::CreateDirs(dir@),
            FileStep::Write(path, contents) => StepView::Write(path@, contents@),
            FileStep::Rename(from, to) => StepView::Rename(from@, to@),
            FileStep::Remove(path) => StepView::Remove(path@),
        }
    }
}

/// What is said of a step that failed.
pub open spec fn step_failure_text(step: StepView) -> Seq<char> {
    match step {
        StepView::CreateDirs(dir) => "creating parent dir "@ + dir,
        StepView::Write(path, _) => "writing tmp file "@ + path,
        StepView::Rename(from, to) => "renaming "@ + from + " -> "@ + to,
        StepView::Remove(path) => "removing "@ + path,
    }
}

impl FileStep {
    /// What is said of this step where it failed.
    pub fn failure(&self) -> (message: String)
        ensures
            message@ == step_failure_text(self@),
    {
        match self {
            FileStep::CreateDirs(dir) => joined("creating parent dir ", dir.as_str()),
            FileStep::Write(path, _) => joined("writing tmp file ", path.as_str()),
            FileStep::Rename(from, to) => {
                let mut message = joined("renaming ", from.as_str());
                message.append(" -> ");
                message.append(to.as_str());
                message
            },
            FileStep::Remove(path) => joined("removing ", path.as_str()),
        }
    }
}

/// The steps of a list.
pub open spec fn steps_view(steps: Seq<FileStep>) -> Seq<StepView> {
    steps.map_values(|s: FileStep| s@)
}

/// How a file is written: its directory is made, its text goes into the staging
/// file, and that is renamed into place.
pub open spec fn atomic_steps(path: Seq<char>, contents: Seq<char>) -> Seq<StepView> {
    let last = seq![
        StepView::Write(tmp_path(path), contents),
        StepView::Rename(tmp_path(path), path),
    ];
    match parent_of(path) {
        Some(parent) => seq![StepView::CreateDirs(parent)] + last,
        None => last,
    }
}

/// The steps that make `contents` the contents of the file at `path`. Each is
/// to be taken only once the one before it has succeeded.
pub fn write_atomic(path: &str, contents: &str) -> (steps: Vec<FileStep>)
    ensures
        steps_view(steps@) == atomic_steps(path@, contents@),
{
    let mut steps: Vec<FileStep> = Vec::new();
    if let Some(dir) = parent(path) {
        steps.push(FileStep::CreateDirs(dir));
    }
    let staging = tmp_path_for(path);
    steps.push(FileStep::Write(staging.clone(), contents.to_owned()));
    steps.push(FileStep::Rename(staging, path.to_owned()));
    assert(steps_view(steps@) =~= atomic_steps(path@, contents@));
    steps
}

/// The steps that make the text of `doc` the contents of the file at `path`.
pub fn render_and_write(path: &str, doc: &MarkdownDoc) -> (steps: Result<
    Vec<FileStep>,
    RenderError,
>)
    ensures
        match steps {
            Ok(s) => document_text(doc@) matches Ok(text) && steps_view(s@) == atomic_steps(
                path@,
                text,
            ) && is_readable(frontmatter_text(doc.frontmatter@)->Ok_0),
            Err(error) => document_text(doc@) == Err::<Seq<char>, _>(error),
        },
{
    match render(doc) {
        Ok(text) => Ok(write_atomic(path, text.as_str())),
        Err(error) => Err(error),
    }
}

/// The files of a disk: their contents by their paths.
pub type Disk = Map<Seq<char>, Seq<char>>;

/// A disk once a step has been taken.
pub open spec fn after_step(disk: Disk, step: StepView) -> Disk {
    match step {
        StepView::CreateDirs(_) => disk,
        StepView::Write(path, contents) => disk.insert(path, contents),
        StepView::Rename(from, to) => disk.remove(from).insert(to, disk[from]),
        StepView::Remove(path) => disk.remove(path),
    }
}

/// A disk once a step was cut short: a write may have left any text behind, any
/// other step has happened or has not.
pub open spec fn after_torn_step(disk: Disk, step: StepView, torn: Disk) -> bool {
    match step {
        StepView::Write(path, _) => torn == disk || exists|junk: Seq<char>|
            torn == #[trigger] disk.insert(path, junk),
        _ => torn == disk || torn == after_step(disk, step),
    }
}

/// A disk once all of these steps have been taken.
pub open spec fn after_steps(disk: Disk, steps: Seq<StepView>) -> Disk
    decreases steps.len(),
{
    if steps.len() == 0 {
        disk
    } else {
        after_step(after_steps(disk, steps.drop_last()), steps.last())
    }
}

/// The staging file stands beside its target under another name, which ends in
/// `.tmp`.
pub proof fn law_staging_is_a_sibling(path: Seq<char>)
    ensures
        name_of(tmp_path(path)) == Some(
            match name_of(path) {
                Some(name) => name + tmp(),
                None => tmp(),
            },
        ),
        parent_of(tmp_path(path)) == Some(
            match parent_of(path) {
                Some(parent) => parent,
                None => seq![],
            },
        ),
        tmp_path(path) != path,
{
    let name = match name_of(path) {
        Some(name) => name + tmp(),
        None => tmp(),
    };
    lemma_parent_is_trimmed(path);
    lemma_name_is_plain(path);
    assert(is_plain_name(name)) by {
        assert(name.len() >= 4);
        if name.contains('/') {
            let i = choose|i: int| 0 <= i < name.len() && name[i] == '/';
            if i < name.len() - 4 {
                assert(name_of(path)->0.contains('/'));
            } else {
                assert(name[i] == tmp()[i - (name.len() - 4)]);
            }
        }
    }
    match parent_of(path) {
        Some(parent) => lemma_join_takes_apart(parent, name),
        None => {
            let here: Seq<char> = seq![];
            assert(is_trimmed(here));
            lemma_join_takes_apart(here, name);
            assert(join_path(here, name) =~= name);
        },
    }
}

/// However far writing a file gets, and wherever it is cut short, the file
/// holds what it held before or the whole of the new contents, and no other
/// file but the staging file is touched.
pub proof fn law_no_torn_file(
    disk: Disk,
    path: Seq<char>,
    contents: Seq<char>,
    done: int,
    torn: Disk,
)
    requires
        0 <= done < atomic_steps(path, contents).len(),
        ({
            let steps = atomic_steps(path, contents);
            after_torn_step(after_steps(disk, steps.take(done)), steps[done], torn)
        }),
    ensures
        torn.contains_key(path) == disk.contains_key(path) && torn[path] == disk[path]
            || torn.contains_key(path) && torn[path] == contents,
        forall|other: Seq<char>|
            other != path && other != tmp_path(path) ==> (#[trigger] torn.contains_key(other)
                == disk.contains_key(other)) && torn[other] == disk[other],
{
    law_staging_is_a_sibling(path);
    let steps = atomic_steps(path, contents);
    let n = steps.len() as int;
    reveal_with_fuel(after_steps, 4);
    assert(steps.take(0) =~= seq![]);
    assert(steps.take(1).drop_last() =~= seq![]);
    assert(steps.take(2).drop_last() =~= steps.take(1));
}

/// Once all steps of a write are taken, the file holds the new contents, the
/// staging file is gone, and every other file is as it was.
pub proof fn law_write_changes_one_file(disk: Disk, path: Seq<char>, contents: Seq<char>)
    ensures
        after_steps(disk, atomic_steps(path, contents)) == disk.remove(tmp_path(path)).insert(
            path,
            contents,
        ),
{
    law_staging_is_a_sibling(path);
    let steps = atomic_steps(path, contents);
    reveal_with_fuel(after_steps, 4);
    let first = steps.drop_last().drop_last();
    assert(first.len() > 0 ==> first.drop_last() =~= seq![]);
    assert(after_steps(disk, steps) =~= disk.remove(tmp_path(path)).insert(path, contents));
}

} // verus!
