//! Choosing subjects by what they hold.

use crate::json::{JsonValue, JsonView};
use crate::subject::{
    attachments_view, contains_text, no_filter, opt_text, FilterView, Subject, SubjectFilter,
    SubjectStatus, SubjectView,
};
use crate::text::same_text;
use crate::time::{earlier, Timestamp};
use vstd::prelude::*;

verus! {

/// The name under which the dispatch label of a subject stands among its
/// custom fields.
pub open spec fn dispatch_key() -> Seq<char> {
    "dispatch_label"@
}

/// Whether a subject is what a filter asks for.
pub open spec fn accepts(filter: FilterView, subject: SubjectView) -> bool {
    &&& filter.status.len() > 0 ==> filter.status.contains(subject.status)
    &&& filter.kind.len() > 0 ==> filter.kind.contains(subject.kind)
    &&& filter.assignee.len() > 0 ==> (subject.assignee matches Some(who)
        && filter.assignee.contains(who))
    &&& filter.labels_any.len() > 0 ==> exists|i: int|
        0 <= i < filter.labels_any.len() && subject.labels.contains(#[trigger] filter.labels_any[i])
    &&& forall|i: int|
        0 <= i < filter.labels_all.len() ==> subject.labels.contains(
            #[trigger] filter.labels_all[i],
        )
    &&& filter.updated_since matches Some(since) ==> !earlier(subject.updated_at, since)
    &&& filter.native_status matches Some(native) ==> subject.native_status == Some(native)
    &&& filter.dispatch_label matches Some(label) ==> subject.custom.contains_key(dispatch_key())
        && subject.custom[dispatch_key()] == JsonView::Text(label)
    &&& filter.has_attachment_kind matches Some(kind) ==> exists|i: int|
        0 <= i < subject.attachments.len() && #[trigger] subject.attachments[i].kind == kind
}

/// Whether `status` is one of `list`.
fn contains_status(list: &Vec<SubjectStatus>, status: SubjectStatus) -> (yes: bool)
    ensures
        yes == list@.contains(status),
{
    let mut i: usize = 0;
    while i < list.len()
        invariant
            i <= list.len(),
            forall|j: int| 0 <= j < i ==> #[trigger] list@[j] != status,
        decreases list.len() - i,
    {
        if list[i] == status {
            return true;
        }
        i += 1;
    }
    false
}

/// Whether one of `wanted` is among `labels`.
fn any_label(wanted: &Vec<String>, labels: &Vec<String>) -> (yes: bool)
    ensures
        yes == exists|i: int|
            0 <= i < wanted.deep_view().len() && labels.deep_view().contains(
                #[trigger] wanted.deep_view()[i],
            ),
{
    let mut i: usize = 0;
    while i < wanted.len()
        invariant
            i <= wanted.len(),
            forall|j: int|
                0 <= j < i ==> !labels.deep_view().contains(#[trigger] wanted.deep_view()[j]),
        decreases wanted.len() - i,
    {
        assert(wanted.deep_view()[i as int] == wanted[i as int]@);
        if contains_text(labels, &wanted[i]) {
            return true;
        }
        i += 1;
    }
    false
}

/// Whether all of `wanted` are among `labels`.
fn all_labels(wanted: &Vec<String>, labels: &Vec<String>) -> (yes: bool)
    ensures
        yes == forall|i: int|
            0 <= i < wanted.deep_view().len() ==> labels.deep_view().contains(
                #[trigger] wanted.deep_view()[i],
            ),
{
    let mut i: usize = 0;
    while i < wanted.len()
        invariant
            i <= wanted.len(),
            forall|j: int|
                0 <= j < i ==> labels.deep_view().contains(#[trigger] wanted.deep_view()[j]),
        decreases wanted.len() - i,
    {
        assert(wanted.deep_view()[i as int] == wanted[i as int]@);
        if !contains_text(labels, &wanted[i]) {
            return false;
        }
        i += 1;
    }
    true
}

/// Whether a subject was updated at `since` or later.
fn updated_since(subject: &Subject, since: &Option<Timestamp>) -> (yes: bool)
    ensures
        yes == (since matches Some(at) ==> !earlier(subject.updated_at, *at)),
{
    match since {
        Some(at) => !subject.updated_at.is_before(at),
        None => true,
    }
}

/// Whether a subject has the status `native`, in the words of the backend.
fn has_native_status(subject: &Subject, native: &Option<String>) -> (yes: bool)
    ensures
        yes == (opt_text(*native) matches Some(want) ==> opt_text(subject.native_status) == Some(
            want,
        )),
{
    match native {
        Some(want) => match &subject.native_status {
            Some(have) => *have == *want,
            None => false,
        },
        None => true,
    }
}

/// Whether a subject has the dispatch label `label`.
fn has_dispatch_label(subject: &Subject, label: &Option<String>) -> (yes: bool)
    ensures
        yes == (opt_text(*label) matches Some(want) ==> subject.custom@.contains_key(dispatch_key())
            && subject.custom@[dispatch_key()] == JsonView::Text(want)),
{
    match label {
        Some(want) => match subject.custom.get("dispatch_label") {
            Some(JsonValue::Text(have)) => *have == *want,
            _ => false,
        },
        None => true,
    }
}

/// Whether a subject has an attachment of kind `kind`.
fn has_attachment(subject: &Subject, kind: &Option<String>) -> (yes: bool)
    ensures
        yes == (opt_text(*kind) matches Some(want) ==> exists|i: int|
            0 <= i < subject@.attachments.len() && #[trigger] subject@.attachments[i].kind
                == want),
{
    match kind {
        Some(want) => {
            let ghost all = attachments_view(subject.attachments@);
            let mut i: usize = 0;
            while i < subject.attachments.len()
                invariant
                    i <= subject.attachments.len(),
                    all == attachments_view(subject.attachments@),
                    opt_text(*kind) == Some(want@),
                    forall|j: int| 0 <= j < i ==> #[trigger] all[j].kind != want@,
                decreases subject.attachments.len() - i,
            {
                assert(all[i as int] == subject.attachments[i as int]@);
                if same_text(subject.attachments[i].kind(), want.as_str()) {
                    assert(subject@.attachments[i as int].kind == want@);
                    return true;
                }
                i += 1;
            }
            false
        },
        None => true,
    }
}

/// Whether `subject` is what `filter` asks for.
pub fn matches_filter(subject: &Subject, filter: &SubjectFilter) -> (yes: bool)
    ensures
        yes == accepts(filter@, subject@),
{
    if filter.status.len() > 0 && !contains_status(&filter.status, subject.status) {
        return false;
    }
    if filter.kind.len() > 0 && !contains_text(&filter.kind, &subject.kind) {
        return false;
    }
    if filter.assignee.len() > 0 {
        match &subject.assignee {
            Some(who) => {
                if !contains_text(&filter.assignee, who) {
                    return false;
                }
            },
            None => return false,
        }
    }
    if filter.labels_any.len() > 0 && !any_label(&filter.labels_any, &subject.labels) {
        return false;
    }
    if !all_labels(&filter.labels_all, &subject.labels) {
        proof {
            let i = choose|i: int|
                0 <= i < filter@.labels_all.len() && !subject@.labels.contains(
                    #[trigger] filter@.labels_all[i],
                );
            assert(!subject@.labels.contains(filter@.labels_all[i]));
        }
        return false;
    }
    assert(filter@.labels_any.len() == filter.labels_any.len());
    updated_since(subject, &filter.updated_since) && has_native_status(
        subject,
        &filter.native_status,
    ) && has_dispatch_label(subject, &filter.dispatch_label) && has_attachment(
        subject,
        &filter.has_attachment_kind,
    )
}

/// The subjects of a list.
pub open spec fn subjects_view(list: Seq<Subject>) -> Seq<SubjectView> {
    list.map_values(|s: Subject| s@)
}

/// The subjects that `filter` asks for, in the order in which they come.
pub fn filter_subjects(all: Vec<Subject>, filter: &SubjectFilter) -> (kept: Vec<Subject>)
    ensures
        subjects_view(kept@) == subjects_view(all@).filter(|s: SubjectView| accepts(filter@, s)),
{
    let ghost input = all@;
    let ghost wanted = |s: SubjectView| accepts(filter@, s);
    let mut kept: Vec<Subject> = Vec::new();
    assert(subjects_view(input.take(0)).filter(wanted) =~= seq![]) by {
        reveal(Seq::filter);
    }
    for subject in it: all
        invariant
            it.seq() == input,
            wanted == (|s: SubjectView| accepts(filter@, s)),
            subjects_view(kept@) == subjects_view(input.take(it.index())).filter(wanted),
    {
        let ghost before = kept@;
        let ghost cut = subjects_view(input.take(it.index() + 1));
        assert(cut.drop_last() =~= subjects_view(input.take(it.index())));
        assert(cut.last() == subject@);
        proof {
            reveal(Seq::filter);
        }
        if matches_filter(&subject, filter) {
            kept.push(subject);
            assert(subjects_view(kept@) =~= subjects_view(before).push(subject@));
        }
    }
    assert(input.take(input.len() as int) =~= input);
    kept
}

/// The filter that asks for nothing accepts every subject.
pub proof fn law_no_filter_accepts_all(subject: SubjectView)
    ensures
        accepts(no_filter(), subject),
{
}

} // verus!
