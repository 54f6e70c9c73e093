//! Laws on subjects and the documents that describe them.

use crate::json::{JsonValue, JsonView};
use crate::laws::requests::{same_option, same_texts};
use crate::lines::lemma_trim_newlines;
use crate::mapping::subject_of;
use crate::parser::{DocView, MarkdownDoc};
use crate::subject::{status_text, Attachment, AttachmentView, Subject, SubjectStatus};
use crate::text::is_white;
use vstd::prelude::*;

verus! {

/// A subject shows what its fields hold.
pub proof fn law_subject_shows_its_fields(subject: Subject)
    ensures
        subject@.id == subject.id@,
        subject@.kind == subject.kind@,
        subject@.title == subject.title@,
        same_option(subject@.description, subject.description),
        subject@.status == subject.status,
        subject@.priority == subject.priority,
        same_option(subject@.assignee, subject.assignee),
        same_texts(subject@.labels, subject.labels@),
        subject.parent is None <==> subject@.parent is None,
        subject.parent matches Some(id) ==> subject@.parent == Some(id@),
        subject@.children.len() == subject.children.len(),
        forall|i: int|
            0 <= i < subject.children.len() ==> #[trigger] subject@.children[i]
                == subject.children[i]@,
        same_option(subject@.url, subject.url),
        subject@.created_at == subject.created_at,
        subject@.updated_at == subject.updated_at,
        subject@.custom == subject.custom@,
        same_option(subject@.native_status, subject.native_status),
        subject@.status_metadata == subject.status_metadata@,
        same_attachments(subject@.attachments, subject.attachments@),
{
}

/// Whether what attachments hold is what those of a list hold, one by one.
pub open spec fn same_attachments(
    views: Seq<AttachmentView>,
    list: Seq<Attachment>,
) -> bool {
    &&& views.len() == list.len()
    &&& forall|i: int| 0 <= i < list.len() ==> #[trigger] views[i] == list[i]@
}

/// A document shows what its fields hold.
pub proof fn law_document_shows_its_fields(doc: MarkdownDoc)
    ensures
        doc@.body == doc.body@,
        ({
            let fm = doc.frontmatter;
            let shown = doc@.frontmatter;
            &&& shown.id == fm.id@
            &&& shown.kind == fm.kind@
            &&& shown.title == fm.title@
            &&& shown.status == fm.status
            &&& shown.priority == fm.priority
            &&& same_option(shown.assignee, fm.assignee)
            &&& same_texts(shown.labels, fm.labels@)
            &&& same_option(shown.parent_id, fm.parent_id)
            &&& shown.created_at == fm.created_at
            &&& shown.updated_at == fm.updated_at
            &&& same_option(shown.native_status, fm.native_status)
            &&& same_option(shown.dispatch_label, fm.dispatch_label)
            &&& shown.status_metadata == fm.status_metadata@
            &&& same_attachments(shown.attachments, fm.attachments@)
            &&& shown.custom_fields == fm.custom_fields@
        }),
{
}

/// `null` and strings are told apart from each other and from everything else.
pub proof fn law_json_values_show_what_they_are(value: JsonValue)
    ensures
        value is Null <==> value@ is Null,
        value matches JsonValue::Text(s) ==> value@ == JsonView::Text(s@),
        value matches JsonValue::Other(s) ==> value@ == JsonView::Other(s@),
{
}

/// A status is written in lower case, its words joined by `-`.
pub proof fn law_status_names(status: SubjectStatus)
    ensures
        status_text(status) == (match status {
            SubjectStatus::Ready => seq!['r', 'e', 'a', 'd', 'y'],
            SubjectStatus::InProgress => seq![
                'i',
                'n',
                '-',
                'p',
                'r',
                'o',
                'g',
                'r',
                'e',
                's',
                's',
            ],
            SubjectStatus::Blocked => seq!['b', 'l', 'o', 'c', 'k', 'e', 'd'],
            SubjectStatus::Done => seq!['d', 'o', 'n', 'e'],
            SubjectStatus::Cancelled => seq!['c', 'a', 'n', 'c', 'e', 'l', 'l', 'e', 'd'],
        }),
{
    reveal_strlit("ready");
    reveal_strlit("in-progress");
    reveal_strlit("blocked");
    reveal_strlit("done");
    reveal_strlit("cancelled");
}

/// No two statuses have the same name.
pub proof fn law_status_names_differ(a: SubjectStatus, b: SubjectStatus)
    requires
        status_text(a) == status_text(b),
    ensures
        a == b,
{
    law_status_names(a);
    law_status_names(b);
    let (s, t) = (status_text(a), status_text(b));
    assert(s.len() == t.len() && s[0] == t[0]);
}

/// A subject has from its document the fields that both have, each under its
/// name; it has neither children nor a place on the web.
pub proof fn law_subject_has_the_fields_of_its_document(doc: DocView)
    ensures
        ({
            let fm = doc.frontmatter;
            let subject = subject_of(doc);
            &&& subject.id == fm.id
            &&& subject.kind == fm.kind
            &&& subject.title == fm.title
            &&& subject.status == fm.status
            &&& subject.priority == fm.priority
            &&& subject.assignee == fm.assignee
            &&& subject.labels == fm.labels
            &&& subject.parent == fm.parent_id
            &&& subject.children.len() == 0
            &&& subject.url is None
            &&& subject.created_at == fm.created_at
            &&& subject.updated_at == fm.updated_at
            &&& subject.native_status == fm.native_status
            &&& subject.status_metadata == fm.status_metadata
            &&& subject.attachments == fm.attachments
        }),
{
}

/// Every custom field of a document is one of the subject's, with its value,
/// whether or not there is a dispatch label. The label is one under the name
/// `dispatch_label` unless a custom field has that name. There are no others.
pub proof fn law_subject_has_all_custom_fields(doc: DocView, name: Seq<char>)
    ensures
        ({
            let fm = doc.frontmatter;
            let custom = subject_of(doc).custom;
            &&& fm.custom_fields.contains_key(name) ==> custom.contains_pair(
                name,
                fm.custom_fields[name],
            )
            &&& !fm.custom_fields.contains_key("dispatch_label"@) ==> match fm.dispatch_label {
                Some(label) => custom.contains_pair(
                    "dispatch_label"@,
                    JsonView::Text(label),
                ),
                None => !custom.contains_key("dispatch_label"@),
            }
            &&& custom.contains_key(name) ==> fm.custom_fields.contains_key(name) || name
                == "dispatch_label"@
        }),
{
}

/// The description of a subject is the body of its document without the `\n`s at
/// its end. There is none where the body holds white space only.
pub proof fn law_description_is_the_body(doc: DocView)
    ensures
        ({
            let body = doc.body;
            let description = subject_of(doc).description;
            &&& description is None <==> forall|i: int|
                0 <= i < body.len() ==> is_white(#[trigger] body[i])
            &&& description matches Some(text) ==> {
                &&& text.len() <= body.len()
                &&& body.take(text.len() as int) == text
                &&& forall|i: int| text.len() <= i < body.len() ==> #[trigger] body[i] == '\n'
                &&& text.len() > 0 && text[text.len() - 1] != '\n'
            }
        }),
{
    let body = doc.body;
    lemma_trim_newlines(body);
    if subject_of(doc).description is Some {
        let at = choose|at: int| 0 <= at < body.len() && !is_white(#[trigger] body[at]);
        assert(is_white('\n'));
    }
}

} // verus!
