//! Changes to a subject file.

use crate::fields::{list_view, map_of, FieldMap};
use crate::json::JsonView;
use crate::lines::{lines, lines_of};
use crate::parser::{DocView, FrontmatterView, MarkdownDoc};
use crate::subject::{contains_text, no_patch, PatchView, SubjectPatch};
use crate::text::chars_of;
use vstd::prelude::*;

verus! {

/// Labels with those of `add` put behind them that are not there yet.
pub open spec fn with_labels(labels: Seq<Seq<char>>, add: Seq<Seq<char>>) -> Seq<Seq<char>>
    decreases add.len(),
{
    if add.len() == 0 {
        labels
    } else {
        let before = with_labels(labels, add.drop_last());
        if before.contains(add.last()) {
            before
        } else {
            before.push(add.last())
        }
    }
}

/// Labels without those of `remove`.
pub open spec fn without_labels(labels: Seq<Seq<char>>, remove: Seq<Seq<char>>) -> Seq<Seq<char>> {
    labels.filter(|label: Seq<char>| !remove.contains(label))
}

/// Custom fields with those of `changes` set; one that is to be `null` is taken
/// away.
pub open spec fn with_fields(
    fields: Map<Seq<char>, JsonView>,
    changes: Map<Seq<char>, JsonView>,
) -> Map<Seq<char>, JsonView> {
    Map::new(
        |name: Seq<char>|
            if changes.contains_key(name) {
                changes[name] !is Null
            } else {
                fields.contains_key(name)
            },
        |name: Seq<char>|
            if changes.contains_key(name) {
                changes[name]
            } else {
                fields[name]
            },
    )
}

/// What starts a line of a block quote.
pub open spec fn quote_mark() -> Seq<char> {
    seq!['\n', '>', ' ']
}

/// Lines with a quote mark between each two.
pub open spec fn quote_lines(lines: Seq<Seq<char>>) -> Seq<char>
    decreases lines.len(),
{
    if lines.len() == 0 {
        seq![]
    } else if lines.len() == 1 {
        lines[0]
    } else {
        quote_lines(lines.drop_last()) + quote_mark() + lines.last()
    }
}

/// A text that ends a line: with a `\n` behind it where it is neither empty nor
/// ends in one.
pub open spec fn line_ended(body: Seq<char>) -> Seq<char> {
    if body.len() > 0 && body.last() != '\n' {
        body.push('\n')
    } else {
        body
    }
}

/// A body with a comment behind it, as a block quote.
pub open spec fn with_comment(body: Seq<char>, comment: Seq<char>) -> Seq<char> {
    (line_ended(body) + quote_mark() + quote_lines(lines_of(comment))).push('\n')
}

/// A document with the changes of a patch made.
pub open spec fn patched(doc: DocView, patch: PatchView) -> DocView {
    let fm = doc.frontmatter;
    DocView {
        frontmatter: FrontmatterView {
            status: match patch.status {
                Some(status) => status,
                None => fm.status,
            },
            assignee: match patch.assignee {
                Some(assignee) => assignee,
                None => fm.assignee,
            },
            labels: with_labels(without_labels(fm.labels, patch.labels_remove), patch.labels_add),
            custom_fields: with_fields(fm.custom_fields, patch.custom),
            ..fm
        },
        body: match patch.comment {
            Some(comment) => with_comment(doc.body, comment),
            None => doc.body,
        },
    }
}

/// The labels of `labels` that are not in `remove`.
fn remove_labels(labels: &Vec<String>, remove: &Vec<String>) -> (kept: Vec<String>)
    ensures
        kept.deep_view() == without_labels(labels.deep_view(), remove.deep_view()),
{
    let ghost all = labels.deep_view();
    let ghost gone = remove.deep_view();
    let mut kept: Vec<String> = Vec::new();
    let mut i: usize = 0;
    assert(without_labels(all.take(0), gone) =~= seq![]) by {
        reveal(Seq::filter);
    }
    while i < labels.len()
        invariant
            i <= labels.len(),
            all == labels.deep_view(),
            gone == remove.deep_view(),
            kept.deep_view() == without_labels(all.take(i as int), gone),
        decreases labels.len() - i,
    {
        let ghost before = kept.deep_view();
        let ghost label = labels[i as int]@;
        proof {
            assert(all.take(i + 1).drop_last() =~= all.take(i as int));
            assert(all.take(i + 1).last() == label);
            reveal(Seq::filter);
        }
        if !contains_text(remove, &labels[i]) {
            kept.push(labels[i].clone());
            assert(kept.deep_view() =~= before.push(label));
        }
        i += 1;
    }
    assert(all.take(labels.len() as int) =~= all);
    kept
}

/// Puts the labels of `add` behind `labels` that are not there yet.
fn add_labels(labels: &mut Vec<String>, add: &Vec<String>)
    ensures
        final(labels).deep_view() == with_labels(old(labels).deep_view(), add.deep_view()),
{
    let ghost start = labels.deep_view();
    let ghost new = add.deep_view();
    let mut i: usize = 0;
    while i < add.len()
        invariant
            i <= add.len(),
            new == add.deep_view(),
            labels.deep_view() == with_labels(start, new.take(i as int)),
        decreases add.len() - i,
    {
        let ghost before = labels.deep_view();
        assert(new.take(i + 1).drop_last() =~= new.take(i as int));
        assert(new.take(i + 1).last() == add[i as int]@);
        if !contains_text(labels, &add[i]) {
            labels.push(add[i].clone());
            assert(labels.deep_view() =~= before.push(add[i as int]@));
        }
        i += 1;
    }
    assert(new.take(add.len() as int) =~= new);
}

/// Sets the fields of `changes` in `fields`, or takes them away.
fn change_fields(fields: &mut FieldMap, changes: &FieldMap)
    ensures
        final(fields)@ == with_fields(old(fields)@, changes@),
{
    let entries = changes.list();
    let ghost start = fields@;
    let ghost all = list_view(entries@);
    let mut i: usize = 0;
    assert(fields@ =~= with_fields(start, map_of(all.take(0))));
    while i < entries.len()
        invariant
            i <= entries.len(),
            all == list_view(entries@),
            fields@ == with_fields(start, map_of(all.take(i as int))),
        decreases entries.len() - i,
    {
        assert(all.take(i + 1).drop_last() =~= all.take(i as int));
        assert(all.take(i + 1).last() == (entries[i as int].0@, entries[i as int].1@));
        if entries[i].1.is_null() {
            fields.remove(entries[i].0.as_str());
        } else {
            fields.insert(entries[i].0.clone(), entries[i].1.clone());
        }
        assert(fields@ =~= with_fields(start, map_of(all.take(i + 1))));
        i += 1;
    }
    assert(all.take(entries.len() as int) =~= all);
}

/// Puts a comment behind a body, as a block quote.
fn append_comment(body: &mut String, comment: &str)
    ensures
        final(body)@ == with_comment(old(body)@, comment@),
{
    proof {
        reveal_strlit("\n> ");
        assert("\n> "@ =~= quote_mark());
    }
    let chars = chars_of(body.as_str());
    if chars.len() > 0 && chars[chars.len() - 1] != '\n' {
        body.push('\n');
    }
    body.append("\n> ");
    let ghost head = body@;
    let quoted = lines(comment);
    let ghost all = quoted.deep_view();
    let mut i: usize = 0;
    assert(body@ =~= head + quote_lines(all.take(0)));
    while i < quoted.len()
        invariant
            i <= quoted.len(),
            all == quoted.deep_view(),
            "\n> "@ == quote_mark(),
            body@ == head + quote_lines(all.take(i as int)),
        decreases quoted.len() - i,
    {
        assert(all.take(i + 1).drop_last() =~= all.take(i as int));
        assert(all.take(i + 1).last() == quoted[i as int]@);
        if i > 0 {
            body.append("\n> ");
        }
        body.append(quoted[i].as_str());
        assert(body@ =~= head + quote_lines(all.take(i + 1)));
        i += 1;
    }
    assert(all.take(quoted.len() as int) =~= all);
    body.push('\n');
}

/// Makes the changes of `patch` to `doc`.
pub fn apply_patch(doc: &mut MarkdownDoc, patch: &SubjectPatch)
    ensures
        final(doc)@ == patched(old(doc)@, patch@),
{
    if let Some(status) = patch.status {
        doc.frontmatter.status = status;
    }
    if let Some(assignee) = &patch.assignee {
        doc.frontmatter.assignee = assignee.clone();
    }
    doc.frontmatter.labels = remove_labels(&doc.frontmatter.labels, &patch.labels_remove);
    add_labels(&mut doc.frontmatter.labels, &patch.labels_add);
    change_fields(&mut doc.frontmatter.custom_fields, &patch.custom);
    if let Some(comment) = &patch.comment {
        append_comment(&mut doc.body, comment.as_str());
    }
    assert(doc@ =~= patched(old(doc)@, patch@));
}

/// The patch that changes nothing changes nothing.
pub proof fn law_empty_patch_keeps_all(doc: DocView)
    ensures
        patched(doc, no_patch()) == doc,
{
    let fm = doc.frontmatter;
    let all = |label: Seq<char>| !no_patch().labels_remove.contains(label);
    lemma_filter_keeps_all(fm.labels, all);
    assert(with_fields(fm.custom_fields, no_patch().custom) =~= fm.custom_fields);
    assert(patched(doc, no_patch()) =~= doc);
}

/// A filter that every element passes keeps the list as it is.
proof fn lemma_filter_keeps_all(list: Seq<Seq<char>>, pred: spec_fn(Seq<char>) -> bool)
    requires
        forall|i: int| 0 <= i < list.len() ==> pred(#[trigger] list[i]),
    ensures
        list.filter(pred) == list,
    decreases list.len(),
{
    reveal(Seq::filter);
    if list.len() > 0 {
        let init = list.drop_last();
        assert forall|i: int| 0 <= i < init.len() implies pred(#[trigger] init[i]) by {
            assert(pred(list[i]));
        }
        lemma_filter_keeps_all(init, pred);
        assert(pred(list[list.len() - 1]));
        assert(list =~= init.push(list.last()));
    } else {
        assert(list.filter(pred) =~= list);
    }
}

/// A patch without a comment leaves the body alone; one with a comment only
/// puts something behind it.
pub proof fn law_patch_keeps_body(doc: DocView, patch: PatchView)
    ensures
        patch.comment is None ==> patched(doc, patch).body == doc.body,
        doc.body.is_prefix_of(patched(doc, patch).body),
{
    let new = patched(doc, patch).body;
    assert(doc.body =~= new.take(doc.body.len() as int));
}

/// A patch touches neither the identity of a subject nor its times.
pub proof fn law_patch_keeps_identity(doc: DocView, patch: PatchView)
    ensures
        patched(doc, patch).frontmatter == (FrontmatterView {
            status: patched(doc, patch).frontmatter.status,
            assignee: patched(doc, patch).frontmatter.assignee,
            labels: patched(doc, patch).frontmatter.labels,
            custom_fields: patched(doc, patch).frontmatter.custom_fields,
            ..doc.frontmatter
        }),
{
}

/// Behind a patch stand the labels that were added, and those that were there
/// and not removed, and no others; where no label stood twice, none does.
pub proof fn law_patch_labels(doc: DocView, patch: PatchView, label: Seq<char>)
    ensures
        patched(doc, patch).frontmatter.labels.contains(label) <==> (patch.labels_add.contains(
            label,
        ) || (doc.frontmatter.labels.contains(label) && !patch.labels_remove.contains(label))),
        doc.frontmatter.labels.no_duplicates() ==> patched(
            doc,
            patch,
        ).frontmatter.labels.no_duplicates(),
{
    let labels = doc.frontmatter.labels;
    let remove = patch.labels_remove;
    lemma_without_labels(labels, remove, label);
    lemma_with_labels(without_labels(labels, remove), patch.labels_add, label);
}

proof fn lemma_without_labels(labels: Seq<Seq<char>>, remove: Seq<Seq<char>>, label: Seq<char>)
    ensures
        without_labels(labels, remove).contains(label) <==> labels.contains(label)
            && !remove.contains(label),
        labels.no_duplicates() ==> without_labels(labels, remove).no_duplicates(),
    decreases labels.len(),
{
    reveal(Seq::filter);
    let kept = without_labels(labels, remove);
    if labels.len() > 0 {
        let init = labels.drop_last();
        let last = labels.last();
        lemma_without_labels(init, remove, label);
        lemma_without_labels(init, remove, last);
        let before = without_labels(init, remove);
        assert(labels =~= init.push(last));
        lemma_push_contains(init, last, label);
        if !remove.contains(last) {
            assert(kept == before.push(last));
            lemma_push_contains(before, last, label);
            if labels.no_duplicates() {
                assert forall|i: int, j: int| 0 <= i < init.len() && 0 <= j < init.len() && i
                    != j implies init[i] != init[j] by {
                    assert(labels[i] != labels[j]);
                }
                if init.contains(last) {
                    let i = choose|i: int| 0 <= i < init.len() && init[i] == last;
                    assert(labels[i] != labels[labels.len() - 1]);
                }
                lemma_push_no_duplicates(before, last);
            }
        } else {
            if labels.no_duplicates() {
                assert forall|i: int, j: int| 0 <= i < init.len() && 0 <= j < init.len() && i
                    != j implies init[i] != init[j] by {
                    assert(labels[i] != labels[j]);
                }
            }
        }
    }
}

proof fn lemma_with_labels(labels: Seq<Seq<char>>, add: Seq<Seq<char>>, label: Seq<char>)
    ensures
        with_labels(labels, add).contains(label) <==> labels.contains(label) || add.contains(label),
        labels.no_duplicates() ==> with_labels(labels, add).no_duplicates(),
    decreases add.len(),
{
    if add.len() > 0 {
        let init = add.drop_last();
        let last = add.last();
        let before = with_labels(labels, init);
        lemma_with_labels(labels, init, label);
        assert(add =~= init.push(last));
        lemma_push_contains(init, last, label);
        if !before.contains(last) {
            lemma_push_contains(before, last, label);
            if labels.no_duplicates() {
                lemma_push_no_duplicates(before, last);
            }
        }
    }
}

proof fn lemma_push_contains(list: Seq<Seq<char>>, last: Seq<char>, item: Seq<char>)
    ensures
        list.push(last).contains(item) <==> list.contains(item) || item == last,
{
    let new = list.push(last);
    if list.contains(item) {
        let i = choose|i: int| 0 <= i < list.len() && list[i] == item;
        assert(new[i] == item);
    }
    assert(new[list.len() as int] == last);
}

proof fn lemma_push_no_duplicates(list: Seq<Seq<char>>, last: Seq<char>)
    requires
        list.no_duplicates(),
        !list.contains(last),
    ensures
        list.push(last).no_duplicates(),
{
    let new = list.push(last);
    assert forall|i: int, j: int| 0 <= i < new.len() && 0 <= j < new.len() && i != j implies new[i]
        != new[j] by {
        if i < list.len() {
            assert(list.contains(list[i]));
        }
        if j < list.len() {
            assert(list.contains(list[j]));
        }
    }
}

/// A custom field that a patch names holds what the patch says, or is gone
/// where that is `null`; every other one is as it was.
pub proof fn law_patch_fields(doc: DocView, patch: PatchView, name: Seq<char>)
    ensures
        ({
            let old_fields = doc.frontmatter.custom_fields;
            let new_fields = patched(doc, patch).frontmatter.custom_fields;
            if patch.custom.contains_key(name) {
                if patch.custom[name] is Null {
                    !new_fields.contains_key(name)
                } else {
                    new_fields.contains_key(name) && new_fields[name] == patch.custom[name]
                }
            } else {
                new_fields.contains_key(name) == old_fields.contains_key(name) && (
                old_fields.contains_key(name) ==> new_fields[name] == old_fields[name])
            }
        }),
{
}

} // verus!
