//! Laws on what callers ask for: filters and patches.

use crate::filter::accepts;
use crate::json::JsonView;
use crate::laws::text::law_lines;
use crate::lines::lines_of;
use crate::parser::DocView;
use crate::patch::{patched, quote_lines, quote_mark};
use crate::subject::{
    no_filter, no_patch, FilterView, PatchView, SubjectFilter, SubjectPatch, SubjectStatus,
    SubjectView,
};
use vstd::prelude::*;

verus! {

// --------------------------------------------------------------------- filters

/// The criteria of a filter that ask that something is there.
spec fn asks_for_label_and_attachment(filter: FilterView, subject: SubjectView) -> bool {
    &&& filter.labels_any.len() > 0 ==> exists|i: int|
        0 <= i < filter.labels_any.len() && subject.labels.contains(#[trigger] filter.labels_any[i])
    &&& filter.has_attachment_kind matches Some(kind) ==> exists|i: int|
        0 <= i < subject.attachments.len() && #[trigger] subject.attachments[i].kind == kind
}

/// A filter that lists statuses asks, beyond what it asks otherwise, that the
/// status is one of them.
pub proof fn law_filter_by_status(filter: FilterView, subject: SubjectView)
    ensures
        accepts(filter, subject) <==> {
            &&& accepts(FilterView { status: seq![], ..filter }, subject)
            &&& filter.status == Seq::<SubjectStatus>::empty() || exists|i: int|
                0 <= i < filter.status.len() && #[trigger] filter.status[i] == subject.status
        },
{
    assert(filter.status.len() == 0 ==> filter.status =~= Seq::<SubjectStatus>::empty());
}

/// A filter that lists kinds asks, beyond what it asks otherwise, that the kind
/// is one of them.
pub proof fn law_filter_by_kind(filter: FilterView, subject: SubjectView)
    ensures
        accepts(filter, subject) <==> {
            &&& accepts(FilterView { kind: seq![], ..filter }, subject)
            &&& filter.kind == Seq::<Seq<char>>::empty() || exists|i: int|
                0 <= i < filter.kind.len() && #[trigger] filter.kind[i] == subject.kind
        },
{
    assert(filter.kind.len() == 0 ==> filter.kind =~= Seq::<Seq<char>>::empty());
}

/// A filter that lists assignees asks, beyond what it asks otherwise, that there
/// is an assignee and that it is one of them.
pub proof fn law_filter_by_assignee(filter: FilterView, subject: SubjectView)
    ensures
        accepts(filter, subject) <==> {
            &&& accepts(FilterView { assignee: seq![], ..filter }, subject)
            &&& filter.assignee == Seq::<Seq<char>>::empty() || exists|i: int|
                0 <= i < filter.assignee.len() && subject.assignee == Some(
                    #[trigger] filter.assignee[i],
                )
        },
{
    assert(filter.assignee.len() == 0 ==> filter.assignee =~= Seq::<Seq<char>>::empty());
}

/// A filter that lists labels of which any will do asks, beyond what it asks
/// otherwise, that the subject has one of them.
#[verifier::rlimit(40)]
pub proof fn law_filter_by_any_label(filter: FilterView, subject: SubjectView)
    ensures
        accepts(filter, subject) <==> {
            &&& accepts(FilterView { labels_any: seq![], ..filter }, subject)
            &&& filter.labels_any == Seq::<Seq<char>>::empty() || exists|i: int, j: int|
                0 <= i < filter.labels_any.len() && 0 <= j < subject.labels.len()
                    && #[trigger] filter.labels_any[i] == #[trigger] subject.labels[j]
        },
{
    assert(filter.labels_any.len() == 0 ==> filter.labels_any =~= Seq::<Seq<char>>::empty());
    if exists|i: int|
        0 <= i < filter.labels_any.len() && subject.labels.contains(
            #[trigger] filter.labels_any[i],
        ) {
        let i = choose|i: int|
            0 <= i < filter.labels_any.len() && subject.labels.contains(
                #[trigger] filter.labels_any[i],
            );
        let j = choose|j: int|
            0 <= j < subject.labels.len() && subject.labels[j] == filter.labels_any[i];
        assert(filter.labels_any[i] == subject.labels[j]);
    }
    if exists|i: int, j: int|
        0 <= i < filter.labels_any.len() && 0 <= j < subject.labels.len()
            && #[trigger] filter.labels_any[i] == #[trigger] subject.labels[j] {
        let (i, j) = choose|i: int, j: int|
            0 <= i < filter.labels_any.len() && 0 <= j < subject.labels.len()
                && #[trigger] filter.labels_any[i] == #[trigger] subject.labels[j];
        assert(subject.labels.contains(filter.labels_any[i]));
    }
    let other = FilterView { labels_any: seq![], ..filter };
    if accepts(filter, subject) {
        assert(accepts(other, subject));
    }
    if accepts(other, subject) {
        assert(filter.has_attachment_kind matches Some(kind) ==> exists|i: int|
            0 <= i < subject.attachments.len() && #[trigger] subject.attachments[i].kind == kind);
    }
}

/// A filter that lists labels of which all are wanted asks, beyond what it asks
/// otherwise, that the subject has each of them.
pub proof fn law_filter_by_all_labels(filter: FilterView, subject: SubjectView)
    ensures
        accepts(filter, subject) <==> {
            &&& accepts(FilterView { labels_all: seq![], ..filter }, subject)
            &&& forall|label: Seq<char>| #[trigger]
                filter.labels_all.contains(label) ==> subject.labels.contains(label)
        },
{
    if forall|label: Seq<char>| #[trigger]
        filter.labels_all.contains(label) ==> subject.labels.contains(label) {
        assert forall|i: int| 0 <= i < filter.labels_all.len() implies subject.labels.contains(
            #[trigger] filter.labels_all[i],
        ) by {
            assert(filter.labels_all.contains(filter.labels_all[i]));
        }
    }
}

/// A filter with a time asks, beyond what it asks otherwise, that the subject
/// was updated at that time or later: in a later second, or in the same one and
/// not at an earlier nanosecond.
pub proof fn law_filter_by_time(filter: FilterView, subject: SubjectView)
    ensures
        accepts(filter, subject) <==> {
            &&& accepts(FilterView { updated_since: None, ..filter }, subject)
            &&& filter.updated_since matches Some(since) ==> {
                ||| subject.updated_at.secs > since.secs
                ||| subject.updated_at.secs == since.secs && subject.updated_at.nanos >= since.nanos
            }
        },
{
    let other = FilterView { updated_since: None, ..filter };
    if accepts(other, subject) {
        assert(asks_for_label_and_attachment(other, subject));
        assert(asks_for_label_and_attachment(filter, subject));
    }
}

/// A filter with a native status asks, beyond what it asks otherwise, that the
/// subject has that very status.
pub proof fn law_filter_by_native_status(filter: FilterView, subject: SubjectView)
    ensures
        accepts(filter, subject) <==> {
            &&& accepts(FilterView { native_status: None, ..filter }, subject)
            &&& filter.native_status is None || subject.native_status == filter.native_status
        },
{
    let other = FilterView { native_status: None, ..filter };
    if accepts(other, subject) {
        assert(asks_for_label_and_attachment(other, subject));
        assert(asks_for_label_and_attachment(filter, subject));
    }
}

/// A filter with a dispatch label asks, beyond what it asks otherwise, that the
/// custom field `dispatch_label` is that very text.
pub proof fn law_filter_by_dispatch_label(filter: FilterView, subject: SubjectView)
    ensures
        accepts(filter, subject) <==> {
            &&& accepts(FilterView { dispatch_label: None, ..filter }, subject)
            &&& filter.dispatch_label matches Some(label) ==> subject.custom.contains_pair(
                "dispatch_label"@,
                JsonView::Text(label),
            )
        },
{
    let other = FilterView { dispatch_label: None, ..filter };
    if accepts(other, subject) {
        assert(asks_for_label_and_attachment(other, subject));
        assert(asks_for_label_and_attachment(filter, subject));
    }
}

/// A filter with a kind of attachment asks, beyond what it asks otherwise, that
/// the subject has an attachment of that kind.
pub proof fn law_filter_by_attachment(filter: FilterView, subject: SubjectView)
    ensures
        accepts(filter, subject) <==> {
            &&& accepts(FilterView { has_attachment_kind: None, ..filter }, subject)
            &&& filter.has_attachment_kind matches Some(kind) ==> exists|i: int|
                0 <= i < subject.attachments.len() && (#[trigger] subject.attachments[i]).kind
                    == kind
        },
{
}

/// A filter in which no criterion is set accepts every subject.
pub proof fn law_empty_criteria_accept_all(subject: SubjectView)
    ensures
        accepts(
            FilterView {
                status: seq![],
                kind: seq![],
                assignee: seq![],
                labels_any: seq![],
                labels_all: seq![],
                updated_since: None,
                native_status: None,
                dispatch_label: None,
                has_attachment_kind: None,
            },
            subject,
        ),
{
}

/// The filter that asks for nothing has no criterion set, and the patch that
/// changes nothing holds no change.
pub proof fn law_empty_requests()
    ensures
        no_filter().status.len() == 0,
        no_filter().kind.len() == 0,
        no_filter().assignee.len() == 0,
        no_filter().labels_any.len() == 0,
        no_filter().labels_all.len() == 0,
        no_filter().updated_since is None,
        no_filter().native_status is None,
        no_filter().dispatch_label is None,
        no_filter().has_attachment_kind is None,
        no_patch().status is None,
        no_patch().assignee is None,
        no_patch().labels_add.len() == 0,
        no_patch().labels_remove.len() == 0,
        forall|name: Seq<char>| !(#[trigger] no_patch().custom.contains_key(name)),
        no_patch().comment is None,
{
}

/// A filter asks for what its fields hold.
pub proof fn law_filter_shows_its_fields(filter: SubjectFilter)
    ensures
        filter@.status == filter.status@,
        filter@.updated_since == filter.updated_since,
        same_texts(filter@.kind, filter.kind@),
        same_texts(filter@.assignee, filter.assignee@),
        same_texts(filter@.labels_any, filter.labels_any@),
        same_texts(filter@.labels_all, filter.labels_all@),
        same_option(filter@.native_status, filter.native_status),
        same_option(filter@.dispatch_label, filter.dispatch_label),
        same_option(filter@.has_attachment_kind, filter.has_attachment_kind),
{
}

/// Whether texts are those of a list of strings, one by one.
pub open spec fn same_texts(texts: Seq<Seq<char>>, list: Seq<String>) -> bool {
    &&& texts.len() == list.len()
    &&& forall|i: int| 0 <= i < list.len() ==> #[trigger] texts[i] == list[i]@
}

/// Whether an optional text is that of an optional string.
pub open spec fn same_option(text: Option<Seq<char>>, string: Option<String>) -> bool {
    match string {
        Some(s) => text == Some(s@),
        None => text is None,
    }
}

// --------------------------------------------------------------------- patches

/// A patch changes what its fields hold.
pub proof fn law_patch_shows_its_fields(patch: SubjectPatch)
    ensures
        patch@.status == patch.status,
        patch.assignee is None <==> patch@.assignee is None,
        patch.assignee matches Some(who) ==> same_option(patch@.assignee->0, who),
        same_texts(patch@.labels_add, patch.labels_add@),
        same_texts(patch@.labels_remove, patch.labels_remove@),
        patch@.custom == patch.custom@,
        same_option(patch@.comment, patch.comment),
{
}

/// A status or an assignee in a patch becomes that of the subject, whatever it
/// was; without one it stays. What a patch has no field for stays.
pub proof fn law_patch_sets_status_and_assignee(doc: DocView, patch: PatchView)
    ensures
        ({
            let old_fm = doc.frontmatter;
            let new_fm = patched(doc, patch).frontmatter;
            &&& forall|status: SubjectStatus|
                patch.status == Some(status) ==> new_fm.status == status
            &&& patch.status is None ==> new_fm.status == old_fm.status
            &&& forall|who: Option<Seq<char>>|
                patch.assignee == Some(who) ==> new_fm.assignee == who
            &&& patch.assignee is None ==> new_fm.assignee == old_fm.assignee
            &&& new_fm.id == old_fm.id
            &&& new_fm.kind == old_fm.kind
            &&& new_fm.title == old_fm.title
            &&& new_fm.priority == old_fm.priority
            &&& new_fm.parent_id == old_fm.parent_id
            &&& new_fm.created_at == old_fm.created_at
            &&& new_fm.updated_at == old_fm.updated_at
            &&& new_fm.native_status == old_fm.native_status
            &&& new_fm.dispatch_label == old_fm.dispatch_label
            &&& new_fm.status_metadata == old_fm.status_metadata
            &&& new_fm.attachments == old_fm.attachments
        }),
{
}

/// The later of two patches has the last word on status and assignee, and what
/// only the first one sets is still set.
pub proof fn law_later_patch_wins(doc: DocView, first: PatchView, second: PatchView)
    ensures
        ({
            let once = patched(doc, first).frontmatter;
            let twice = patched(patched(doc, first), second).frontmatter;
            let alone = patched(doc, second).frontmatter;
            &&& second.status is Some ==> twice.status == alone.status
            &&& second.status is None ==> twice.status == once.status
            &&& second.assignee is Some ==> twice.assignee == alone.assignee
            &&& second.assignee is None ==> twice.assignee == once.assignee
        }),
{
}

/// Without labels to add, the labels are those that are not to be removed, in
/// their order. One more label to add stands at the end, unless it is there.
pub proof fn law_patch_label_order(doc: DocView, patch: PatchView, label: Seq<char>)
    ensures
        ({
            let labels = patched(doc, patch).frontmatter.labels;
            let more = patched(
                doc,
                PatchView { labels_add: patch.labels_add.push(label), ..patch },
            ).frontmatter.labels;
            &&& patch.labels_add.len() == 0 ==> labels == doc.frontmatter.labels.filter(
                |l: Seq<char>| !patch.labels_remove.contains(l),
            )
            &&& labels.contains(label) ==> more == labels
            &&& !labels.contains(label) ==> more == labels.push(label)
        }),
{
    assert(patch.labels_add.push(label).drop_last() =~= patch.labels_add);
}

/// What stands before a comment: the body, a `\n` that ends its last line where
/// that lacks one, an empty line and a quote mark.
pub open spec fn before_comment(body: Seq<char>) -> Seq<char> {
    let gap: Seq<char> = if body.len() > 0 && body[body.len() - 1] != '\n' {
        seq!['\n']
    } else {
        seq![]
    };
    body + gap + seq!['\n', '>', ' ']
}

/// A comment of one line stands behind the body as a block quote that ends in
/// `\n`; the end of the line in the comment makes no difference. The first line of
/// a longer comment stands before the lines of the rest, `> ` before each.
#[verifier::rlimit(40)]
pub proof fn law_comment_is_quoted(
    doc: DocView,
    patch: PatchView,
    line: Seq<char>,
    rest: Seq<char>,
)
    requires
        !line.contains('\n'),
    ensures
        ({
            let body = |comment: Seq<char>|
                patched(doc, PatchView { comment: Some(comment), ..patch }).body;
            let start = before_comment(doc.body);
            let bare = line.len() == 0 || line[line.len() - 1] != '\r';
            &&& body(line) == start + line + seq!['\n']
            &&& bare ==> body(line + seq!['\n']) == start + line + seq!['\n']
            &&& body(line + seq!['\r', '\n']) == start + line + seq!['\n']
            &&& start.is_prefix_of(body(rest))
            &&& rest.len() > 0 && bare ==> body(line + seq!['\n'] + rest) == start + line + seq![
                '\n',
                '>',
                ' ',
            ] + body(rest).skip(start.len() as int)
            &&& rest.len() > 0 ==> body(line + seq!['\r', '\n'] + rest) == start + line + seq![
                '\n',
                '>',
                ' ',
            ] + body(rest).skip(start.len() as int)
        }),
{
    let start = before_comment(doc.body);
    let none = Seq::<char>::empty();
    law_lines(line, none);
    law_lines(line, rest);
    assert(line + seq!['\n'] + none =~= line + seq!['\n']);
    assert(line + seq!['\r', '\n'] + none =~= line + seq!['\r', '\n']);
    assert(seq![line] + Seq::<Seq<char>>::empty() =~= seq![line]);
    if line.len() == 0 {
        assert(line =~= none);
    }
    assert(quote_lines(seq![line]) =~= line);
    let quoted = quote_lines(lines_of(rest));
    let of_rest = patched(doc, PatchView { comment: Some(rest), ..patch }).body;
    assert(of_rest =~= start + quoted.push('\n'));
    assert(start =~= of_rest.take(start.len() as int));
    assert(of_rest.skip(start.len() as int) =~= quoted.push('\n'));
    if rest.len() > 0 {
        lemma_some_line(rest);
        lemma_quote_first(line, lines_of(rest));
        let all = seq![line] + lines_of(rest);
        assert((start + quote_lines(all)).push('\n') =~= start + line + quote_mark()
            + quoted.push('\n'));
        let one = patched(
            doc,
            PatchView { comment: Some(line + seq!['\n'] + rest), ..patch },
        ).body;
        let two = patched(
            doc,
            PatchView { comment: Some(line + seq!['\r', '\n'] + rest), ..patch },
        ).body;
        if line.len() == 0 || line[line.len() - 1] != '\r' {
            assert(one =~= (start + quote_lines(all)).push('\n'));
        }
        assert(two =~= (start + quote_lines(all)).push('\n'));
    }
}

/// A text that is not empty has a line.
proof fn lemma_some_line(text: Seq<char>)
    requires
        text.len() > 0,
    ensures
        lines_of(text).len() > 0,
{
}

/// A quote mark stands behind the first line where there are more.
proof fn lemma_quote_first(first: Seq<char>, lines: Seq<Seq<char>>)
    requires
        lines.len() > 0,
    ensures
        quote_lines(seq![first] + lines) == first + quote_mark() + quote_lines(lines),
    decreases lines.len(),
{
    let all = seq![first] + lines;
    assert(all.drop_last() =~= seq![first] + lines.drop_last());
    if lines.len() == 1 {
        assert(all.drop_last() =~= seq![first]);
        assert(quote_lines(all.drop_last()) =~= first);
    } else {
        lemma_quote_first(first, lines.drop_last());
    }
    assert(quote_lines(all) =~= first + quote_mark() + quote_lines(lines));
}

} // verus!
