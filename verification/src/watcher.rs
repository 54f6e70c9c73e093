//! Changes on disk, and what they mean for subjects.

use crate::backend::{created_path, MarkdownBackend};
use crate::config::{kind_path, ConfigView};
use crate::decimal::{is_digit, lemma_padded_reads_back, padded_text};
use crate::error::BackendError;
use crate::id_gen::{file_name_text, md};
use crate::ids::{configured_kind, is_configured, lemma_configured_kind_is_the_kind};
use crate::paths::{
    file_name, is_plain_name, lemma_join_ends_in, lemma_join_takes_apart, name_of, parent,
    parent_of,
};
use crate::subject::{Subject, SubjectId, SubjectView};
use crate::text::{ascii_upper, ends_with, same_ignoring_case, upper_text};
use crate::writer::{law_staging_is_a_sibling, tmp, tmp_path};
use vstd::prelude::*;

verus! {

/// What happened to a path, as far as subjects tell it apart.
#[derive(Debug, Clone, Copy, PartialEq, Eq, Structural)]
pub enum RawChange {
    /// It was created.
    Create,
    /// Its contents were modified.
    ModifyData,
    /// It was modified in a way that is not known.
    ModifyAny,
    /// It is the new name of something.
    RenameTo,
    /// It was the old name of something.
    RenameFrom,
    /// It was renamed, and whether to or from it is not known.
    RenameOther,
    /// It was removed.
    Remove,
    /// Anything else: it was read, its metadata were modified.
    Other,
}

/// What happened to a subject.
#[derive(Debug, Clone, Copy, PartialEq, Eq, Structural)]
pub enum ChangeKind {
    Created,
    Updated,
    Deleted,
}

/// What a change on disk means for a subject; nothing, for some.
pub open spec fn change_of(change: RawChange) -> Option<ChangeKind> {
    match change {
        RawChange::Create | RawChange::RenameTo => Some(ChangeKind::Created),
        RawChange::ModifyData | RawChange::ModifyAny | RawChange::RenameOther => Some(
            ChangeKind::Updated,
        ),
        RawChange::Remove | RawChange::RenameFrom => Some(ChangeKind::Deleted),
        RawChange::Other => None,
    }
}

/// What a change on disk means for a subject; nothing, for some.
pub fn classify(change: RawChange) -> (kind: Option<ChangeKind>)
    ensures
        kind == change_of(change),
{
    match change {
        RawChange::Create => Some(ChangeKind::Created),
        RawChange::ModifyData | RawChange::ModifyAny => Some(ChangeKind::Updated),
        RawChange::RenameTo => Some(ChangeKind::Created),
        RawChange::RenameFrom => Some(ChangeKind::Deleted),
        RawChange::RenameOther => Some(ChangeKind::Updated),
        RawChange::Remove => Some(ChangeKind::Deleted),
        RawChange::Other => None,
    }
}

/// Whether a path is that of a subject file: its name ends in `.md`, and the
/// name of its directory is one of `kinds`, ASCII case aside.
pub open spec fn is_managed(kinds: Seq<Seq<char>>, path: Seq<char>) -> bool {
    &&& name_of(path) matches Some(name) && md().is_suffix_of(name)
    &&& parent_of(path) matches Some(dir) && name_of(dir) matches Some(kind) && is_configured(
        kinds,
        kind,
    )
}

/// The subject files that a change on disk concerns, in their order, each with
/// what happened to its subject.
pub open spec fn targets_of(
    kinds: Seq<Seq<char>>,
    change: RawChange,
    paths: Seq<Seq<char>>,
) -> Seq<(Seq<char>, ChangeKind)> {
    match change_of(change) {
        Some(kind) => paths.filter(|path: Seq<char>| is_managed(kinds, path)).map_values(
            |path: Seq<char>| (path, kind),
        ),
        None => seq![],
    }
}

/// The targets of a list.
pub open spec fn targets_view(targets: Seq<(String, ChangeKind)>) -> Seq<(Seq<char>, ChangeKind)> {
    targets.map_values(|t: (String, ChangeKind)| (t.0@, t.1))
}

/// A subject changed.
#[derive(Debug)]
pub struct SubjectChangedEvent {
    pub id: SubjectId,
    pub change_kind: ChangeKind,
    /// The subject as it is now.
    pub subject: Subject,
    pub previous_native_status: Option<String>,
    pub previous_dispatch_label: Option<String>,
}

/// Whether an event says that something happened to a subject.
pub open spec fn reports(
    event: SubjectChangedEvent,
    kind: ChangeKind,
    subject: SubjectView,
) -> bool {
    &&& event.id@ == subject.id
    &&& event.change_kind == kind
    &&& event.subject@ == subject
    &&& event.previous_native_status is None
    &&& event.previous_dispatch_label is None
}

impl MarkdownBackend {
    /// Whether a path is that of a subject file.
    pub fn is_managed_path(&self, path: &str) -> (yes: bool)
        ensures
            yes == is_managed(self@.config.kinds, path@),
    {
        proof {
            reveal_strlit(".md");
            assert(".md"@ =~= md());
        }
        match file_name(path) {
            Some(name) => {
                if !ends_with(name.as_str(), ".md") {
                    return false;
                }
            },
            None => return false,
        }
        match parent(path) {
            Some(dir) => match file_name(dir.as_str()) {
                Some(kind) => self.has_kind(kind.as_str()),
                None => false,
            },
            None => false,
        }
    }

    /// The subject files that a change on disk concerns, in their order, each
    /// with what happened to its subject.
    pub fn changed_files(&self, change: RawChange, paths: &Vec<String>) -> (targets: Vec<
        (String, ChangeKind),
    >)
        ensures
            targets_view(targets@) == targets_of(
                self@.config.kinds,
                change,
                paths.deep_view(),
            ),
    {
        let mut targets: Vec<(String, ChangeKind)> = Vec::new();
        assert(targets_view(targets@) =~= seq![]);
        let kind = match classify(change) {
            Some(kind) => kind,
            None => return targets,
        };
        let ghost kinds = self@.config.kinds;
        let ghost all = paths.deep_view();
        let ghost managed = |path: Seq<char>| is_managed(kinds, path);
        let ghost mark = |path: Seq<char>| (path, kind);
        let mut i: usize = 0;
        assert(all.take(0).filter(managed).map_values(mark) =~= seq![]) by {
            reveal(Seq::filter);
        }
        while i < paths.len()
            invariant
                i <= paths.len(),
                kinds == self@.config.kinds,
                all == paths.deep_view(),
                managed == (|path: Seq<char>| is_managed(kinds, path)),
                mark == (|path: Seq<char>| (path, kind)),
                targets_view(targets@) == all.take(i as int).filter(managed).map_values(mark),
            decreases paths.len() - i,
        {
            let ghost before = targets@;
            let ghost cut = all.take(i + 1);
            proof {
                assert(cut.drop_last() =~= all.take(i as int));
                assert(cut.last() == paths[i as int]@);
                reveal(Seq::filter);
            }
            if self.is_managed_path(paths[i].as_str()) {
                targets.push((paths[i].clone(), kind));
                assert(targets_view(targets@) =~= targets_view(before).push(
                    (paths[i as int]@, kind),
                ));
                assert(cut.filter(managed) == all.take(i as int).filter(managed).push(cut.last()));
            }
            assert(targets_view(targets@) =~= cut.filter(managed).map_values(mark));
            i += 1;
        }
        assert(all.take(paths.len() as int) =~= all);
        targets
    }
}

/// The event for a subject file that changed, given what reading it gave. A
/// file that is gone or cannot be read makes no event.
pub fn translate(change_kind: ChangeKind, read: Result<Subject, BackendError>) -> (event: Option<
    SubjectChangedEvent,
>)
    ensures
        event is Some <==> read is Ok,
        event matches Some(e) ==> read matches Ok(subject) && reports(e, change_kind, subject@),
{
    match read {
        Ok(subject) => Some(
            SubjectChangedEvent {
                id: subject.id.clone(),
                change_kind,
                subject,
                previous_native_status: None,
                previous_dispatch_label: None,
            },
        ),
        Err(_) => None,
    }
}

/// Staging files are never taken for subject files, so that a write makes no
/// noise before its rename.
pub proof fn law_staging_files_are_ignored(kinds: Seq<Seq<char>>, path: Seq<char>)
    ensures
        !is_managed(kinds, tmp_path(path)),
{
    law_staging_is_a_sibling(path);
    let name = name_of(tmp_path(path))->0;
    assert(name.last() == tmp()[3]);
    if md().is_suffix_of(name) {
        assert(name.last() == md()[2]);
    }
}

/// The file of a new subject is taken for a subject file.
pub proof fn law_new_files_are_noticed(config: ConfigView, kind: Seq<char>, seq: u32)
    requires
        is_configured(config.kinds, kind),
        is_plain_name(configured_kind(config.kinds, kind)),
    ensures
        is_managed(
            config.kinds,
            created_path(config, configured_kind(config.kinds, kind), seq),
        ),
{
    let configured = configured_kind(config.kinds, kind);
    lemma_configured_kind_is_the_kind(config.kinds, kind);
    let i = choose|i: int| 0 <= i < config.kinds.len() && config.kinds[i] == configured;
    assert(same_ignoring_case(config.kinds[i], configured));
    let dir = kind_path(config, configured);
    let name = file_name_text(upper_text(configured), seq);
    lemma_join_ends_in(config.root, configured);
    lemma_file_name_is_plain(configured, seq);
    lemma_join_takes_apart(dir, name);
    assert(md() =~= name.skip(name.len() - 3));
}

/// The file name of a new subject is a plain name where its kind is.
proof fn lemma_file_name_is_plain(kind: Seq<char>, seq: u32)
    requires
        is_plain_name(kind),
    ensures
        is_plain_name(file_name_text(upper_text(kind), seq)),
{
    let name = file_name_text(upper_text(kind), seq);
    let digits = padded_text(seq as nat);
    lemma_padded_reads_back(seq);
    let at = kind.len() as int;
    assert forall|i: int| 0 <= i < name.len() implies name[i] != '/' by {
        if i < at {
            assert(name[i] == ascii_upper(kind[i]));
            assert(kind.contains(kind[i]));
        } else if at < i < at + 1 + digits.len() {
            assert(name[i] == digits[i - at - 1]);
            assert(is_digit(digits[i - at - 1]));
        } else if i > at {
            assert(name[i] == md()[i - (name.len() - 3)]);
        }
    }
    assert(name.len() > 2);
}

} // verus!
