//! The subject that a document describes.

use crate::filter::{accepts, dispatch_key};
use crate::json::{JsonValue, JsonView};
use crate::lines::{
    has_cr_ending, lemma_trim_crs, lemma_trim_line_ends, lemma_trim_newlines,
    lemma_trim_newlines_push, lf_text, trim_line_ends, trim_newlines, without_final_newlines,
};
use crate::parser::{DocView, Frontmatter, FrontmatterView, MarkdownDoc};
use crate::subject::{no_filter, FilterView, Subject, SubjectId, SubjectView};
use crate::text::{blank_text, is_blank, is_white};
use crate::writer::{law_only_final_newlines_change, normal_body};
use vstd::prelude::*;

verus! {

/// The custom fields of a subject: those of its file, and its dispatch label
/// under the name `dispatch_label` unless a custom field has that name.
pub open spec fn custom_of(fm: FrontmatterView) -> Map<Seq<char>, JsonView> {
    match fm.dispatch_label {
        Some(label) if !fm.custom_fields.contains_key(dispatch_key()) => fm.custom_fields.insert(
            dispatch_key(),
            JsonView::Text(label),
        ),
        _ => fm.custom_fields,
    }
}

/// The description that a body holds: the body without the line endings at its
/// end; none where it holds white space only.
pub open spec fn description_of(body: Seq<char>) -> Option<Seq<char>> {
    if blank_text(body) {
        None
    } else {
        Some(trim_newlines(body))
    }
}

/// The subject that a document describes.
pub open spec fn subject_of(doc: DocView) -> SubjectView {
    let fm = doc.frontmatter;
    SubjectView {
        id: fm.id,
        kind: fm.kind,
        title: fm.title,
        description: description_of(doc.body),
        status: fm.status,
        priority: fm.priority,
        assignee: fm.assignee,
        labels: fm.labels,
        parent: fm.parent_id,
        children: seq![],
        url: None,
        created_at: fm.created_at,
        updated_at: fm.updated_at,
        custom: custom_of(fm),
        native_status: fm.native_status,
        status_metadata: fm.status_metadata,
        attachments: fm.attachments,
    }
}

/// The subject that a document describes.
pub fn subject_from_doc(doc: MarkdownDoc) -> (subject: Subject)
    ensures
        subject@ == subject_of(doc@),
{
    let MarkdownDoc { frontmatter, body } = doc;
    let description = if is_blank(body.as_str()) {
        None
    } else {
        Some(without_final_newlines(body.as_str()))
    };
    let Frontmatter {
        id,
        kind,
        title,
        status,
        priority,
        assignee,
        labels,
        parent_id,
        created_at,
        updated_at,
        native_status,
        dispatch_label,
        status_metadata,
        attachments,
        custom_fields,
    } = frontmatter;
    let mut custom = custom_fields;
    if let Some(label) = dispatch_label {
        if custom.get("dispatch_label").is_none() {
            custom.insert("dispatch_label".to_owned(), JsonValue::Text(label));
        }
    }
    let parent = match parent_id {
        Some(text) => Some(SubjectId::new(text.as_str())),
        None => None,
    };
    let subject = Subject {
        id: SubjectId::new(id.as_str()),
        kind,
        title,
        description,
        status,
        priority,
        assignee,
        labels,
        parent,
        children: Vec::new(),
        url: None,
        created_at,
        updated_at,
        custom,
        native_status,
        status_metadata,
        attachments,
    };
    assert(subject@ =~= subject_of(doc@));
    subject
}

/// Writing a document and reading it again does not change the subject that it
/// describes: the body in its normal form gives the same description.
pub proof fn law_subject_survives_writing(doc: DocView)
    requires
        blank_text(doc.body) || !has_cr_ending(doc.body),
    ensures
        subject_of(DocView { frontmatter: doc.frontmatter, body: normal_body(doc.body) })
            == subject_of(doc),
{
    let text = trim_line_ends(doc.body);
    let norm = normal_body(doc.body);
    lemma_trim_line_ends(doc.body);
    if blank_text(doc.body) {
        assert forall|i: int| 0 <= i < text.len() implies is_white(#[trigger] text[i]) by {
            assert(text[i] == doc.body[i]);
        }
        lemma_lf_text_is_blank(text);
        assert(blank_text(norm));
    } else {
        law_only_final_newlines_change(doc.body);
        lemma_trim_newlines(doc.body);
        lemma_trim_newlines_push(trim_newlines(doc.body));
        let at = choose|at: int| 0 <= at < doc.body.len() && !is_white(#[trigger] doc.body[at]);
        assert(at < trim_newlines(doc.body).len());
        assert(norm[at] == doc.body[at]);
    }
}

/// A blank text stays blank when its line endings change.
proof fn lemma_lf_text_is_blank(s: Seq<char>)
    requires
        blank_text(s),
    ensures
        blank_text(lf_text(s)),
    decreases s.len(),
{
    if s.len() > 0 {
        let init = s.drop_last();
        assert forall|i: int| 0 <= i < init.len() implies is_white(#[trigger] init[i]) by {
            assert(init[i] == s[i]);
        }
        assert(is_white(s[s.len() - 1]));
        lemma_lf_text_is_blank(init);
        lemma_trim_crs(lf_text(init));
    }
}

/// A subject is found by the dispatch label of its file, unless a custom field
/// stands in its place.
pub proof fn law_dispatch_label_is_found(doc: DocView, label: Seq<char>)
    requires
        doc.frontmatter.dispatch_label == Some(label),
        !doc.frontmatter.custom_fields.contains_key(dispatch_key()),
    ensures
        accepts(FilterView { dispatch_label: Some(label), ..no_filter() }, subject_of(doc)),
{
}

} // verus!
