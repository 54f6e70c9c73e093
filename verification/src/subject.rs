//! Subjects, and what callers ask of them.

use crate::fields::{copy_list, list_view, Field, FieldMap};
use crate::json::{JsonValue, JsonView};
use crate::text::same_text;
use crate::time::Timestamp;
use vstd::prelude::*;

verus! {

/// An optional text.
pub open spec fn opt_text(text: Option<String>) -> Option<Seq<char>> {
    match text {
        Some(s) => Some(s@),
        None => None,
    }
}

/// The normalized status of a subject.
#[derive(Debug, Clone, Copy, PartialEq, Eq, Structural)]
pub enum SubjectStatus {
    Ready,
    InProgress,
    Blocked,
    Done,
    Cancelled,
}

/// The kebab-case name of a status.
pub open spec fn status_text(status: SubjectStatus) -> Seq<char> {
    match status {
        SubjectStatus::Ready => "ready"@,
        SubjectStatus::InProgress => "in-progress"@,
        SubjectStatus::Blocked => "blocked"@,
        SubjectStatus::Done => "done"@,
        SubjectStatus::Cancelled => "cancelled"@,
    }
}

impl SubjectStatus {
    /// The kebab-case name of this status.
    pub fn as_str(&self) -> (name: &'static str)
        ensures
            name@ == status_text(*self),
    {
        match self {
            SubjectStatus::Ready => "ready",
            SubjectStatus::InProgress => "in-progress",
            SubjectStatus::Blocked => "blocked",
            SubjectStatus::Done => "done",
            SubjectStatus::Cancelled => "cancelled",
        }
    }
}

/// The fully-qualified id of a subject, such as `markdown:TASK-0001`.
#[derive(Debug, PartialEq, Eq)]
pub struct SubjectId {
    text: String,
}

impl View for SubjectId {
    type V = Seq<char>;

    closed spec fn view(&self) -> Seq<char> {
        self.text@
    }
}

impl SubjectId {
    /// The id with this text.
    pub fn new(text: &str) -> (id: Self)
        ensures
            id@ == text@,
    {
        SubjectId { text: text.to_owned() }
    }

    /// The text of this id.
    pub fn as_str(&self) -> (text: &str)
        ensures
            text@ == self@,
    {
        self.text.as_str()
    }
}

impl Clone for SubjectId {
    fn clone(&self) -> (copy: Self)
        ensures
            copy@ == self@,
    {
        SubjectId { text: self.text.clone() }
    }
}

/// Something attached to a subject: its kind, and what else is said of it, by
/// names in an order of their own.
#[derive(Debug, PartialEq, Eq)]
pub struct Attachment {
    kind: String,
    rest: Vec<(String, JsonValue)>,
}

/// What an [`Attachment`] holds.
pub struct AttachmentView {
    pub kind: Seq<char>,
    pub rest: Seq<Field>,
}

impl View for Attachment {
    type V = AttachmentView;

    closed spec fn view(&self) -> AttachmentView {
        AttachmentView { kind: self.kind@, rest: list_view(self.rest@) }
    }
}

/// Whether members can stand beside the kind of an attachment: none is named
/// `kind`, and no two have the same name.
pub open spec fn beside_kind(members: Seq<Field>) -> bool {
    &&& forall|i: int| 0 <= i < members.len() ==> #[trigger] members[i].0 != "kind"@
    &&& forall|i: int, j: int|
        0 <= i < j < members.len() ==> #[trigger] members[i].0 != #[trigger] members[j].0
}

impl Attachment {
    #[verifier::type_invariant]
    spec fn names_are_distinct(self) -> bool {
        beside_kind(list_view(self.rest@))
    }

    /// The attachment of this kind of which `rest` is said. `None` where a
    /// member is named `kind` or two have the same name.
    pub fn new(kind: &str, rest: Vec<(String, JsonValue)>) -> (attachment: Option<Self>)
        ensures
            attachment is Some <==> beside_kind(list_view(rest@)),
            attachment matches Some(a) ==> a@.kind == kind@ && a@.rest == list_view(rest@),
    {
        let ghost members = list_view(rest@);
        let mut i: usize = 0;
        while i < rest.len()
            invariant
                i <= rest.len(),
                members == list_view(rest@),
                forall|k: int| 0 <= k < i ==> #[trigger] members[k].0 != "kind"@,
                forall|k: int, l: int|
                    0 <= k < l < i ==> #[trigger] members[k].0 != #[trigger] members[l].0,
            decreases rest.len() - i,
        {
            assert(members[i as int].0 == rest[i as int].0@);
            if same_text(rest[i].0.as_str(), "kind") {
                return None;
            }
            let mut j: usize = 0;
            while j < i
                invariant
                    j <= i < rest.len(),
                    members == list_view(rest@),
                    forall|k: int| 0 <= k < j ==> #[trigger] members[k].0 != members[i as int].0,
                decreases i - j,
            {
                assert(members[j as int].0 == rest[j as int].0@);
                assert(members[i as int].0 == rest[i as int].0@);
                if rest[j].0 == rest[i].0 {
                    return None;
                }
                j += 1;
            }
            i += 1;
        }
        Some(Attachment { kind: kind.to_owned(), rest })
    }

    /// The kind.
    pub fn kind(&self) -> (kind: &str)
        ensures
            kind@ == self@.kind,
    {
        self.kind.as_str()
    }

    /// What is said besides the kind, in its order.
    pub fn rest(&self) -> (rest: &Vec<(String, JsonValue)>)
        ensures
            list_view(rest@) == self@.rest,
            beside_kind(self@.rest),
    {
        proof {
            use_type_invariant(self);
        }
        &self.rest
    }
}

impl Clone for Attachment {
    fn clone(&self) -> (copy: Self)
        ensures
            copy@ == self@,
    {
        proof {
            use_type_invariant(self);
        }
        let rest = copy_list(&self.rest);
        Attachment { kind: self.kind.clone(), rest }
    }
}

/// The attachments of a list.
pub open spec fn attachments_view(list: Seq<Attachment>) -> Seq<AttachmentView> {
    list.map_values(|a: Attachment| a@)
}

/// A subject as callers see it.
#[derive(Debug, PartialEq, Eq)]
pub struct Subject {
    pub id: SubjectId,
    pub kind: String,
    pub title: String,
    pub description: Option<String>,
    pub status: SubjectStatus,
    pub priority: Option<u8>,
    pub assignee: Option<String>,
    pub labels: Vec<String>,
    pub parent: Option<SubjectId>,
    pub children: Vec<SubjectId>,
    pub url: Option<String>,
    pub created_at: Timestamp,
    pub updated_at: Timestamp,
    pub custom: FieldMap,
    pub native_status: Option<String>,
    pub status_metadata: JsonValue,
    pub attachments: Vec<Attachment>,
}

/// What a [`Subject`] holds.
#[verifier::ext_equal]
pub struct SubjectView {
    pub id: Seq<char>,
    pub kind: Seq<char>,
    pub title: Seq<char>,
    pub description: Option<Seq<char>>,
    pub status: SubjectStatus,
    pub priority: Option<u8>,
    pub assignee: Option<Seq<char>>,
    pub labels: Seq<Seq<char>>,
    pub parent: Option<Seq<char>>,
    pub children: Seq<Seq<char>>,
    pub url: Option<Seq<char>>,
    pub created_at: Timestamp,
    pub updated_at: Timestamp,
    pub custom: Map<Seq<char>, JsonView>,
    pub native_status: Option<Seq<char>>,
    pub status_metadata: JsonView,
    pub attachments: Seq<AttachmentView>,
}

impl View for Subject {
    type V = SubjectView;

    open spec fn view(&self) -> SubjectView {
        SubjectView {
            id: self.id@,
            kind: self.kind@,
            title: self.title@,
            description: opt_text(self.description),
            status: self.status,
            priority: self.priority,
            assignee: opt_text(self.assignee),
            labels: self.labels.deep_view(),
            parent: match self.parent {
                Some(id) => Some(id@),
                None => None,
            },
            children: self.children@.map_values(|id: SubjectId| id@),
            url: opt_text(self.url),
            created_at: self.created_at,
            updated_at: self.updated_at,
            custom: self.custom@,
            native_status: opt_text(self.native_status),
            status_metadata: self.status_metadata@,
            attachments: attachments_view(self.attachments@),
        }
    }
}

/// Which subjects to list. An empty list or `None` asks for nothing.
#[derive(Debug)]
pub struct SubjectFilter {
    /// One of these statuses.
    pub status: Vec<SubjectStatus>,
    /// One of these kinds.
    pub kind: Vec<String>,
    /// Assigned to one of these.
    pub assignee: Vec<String>,
    /// At least one of these labels.
    pub labels_any: Vec<String>,
    /// All of these labels.
    pub labels_all: Vec<String>,
    /// Updated at this time or later.
    pub updated_since: Option<Timestamp>,
    /// This status in the words of the backend.
    pub native_status: Option<String>,
    /// This dispatch label.
    pub dispatch_label: Option<String>,
    /// An attachment of this kind.
    pub has_attachment_kind: Option<String>,
}

/// What a [`SubjectFilter`] asks for.
#[verifier::ext_equal]
pub struct FilterView {
    pub status: Seq<SubjectStatus>,
    pub kind: Seq<Seq<char>>,
    pub assignee: Seq<Seq<char>>,
    pub labels_any: Seq<Seq<char>>,
    pub labels_all: Seq<Seq<char>>,
    pub updated_since: Option<Timestamp>,
    pub native_status: Option<Seq<char>>,
    pub dispatch_label: Option<Seq<char>>,
    pub has_attachment_kind: Option<Seq<char>>,
}

impl View for SubjectFilter {
    type V = FilterView;

    open spec fn view(&self) -> FilterView {
        FilterView {
            status: self.status@,
            kind: self.kind.deep_view(),
            assignee: self.assignee.deep_view(),
            labels_any: self.labels_any.deep_view(),
            labels_all: self.labels_all.deep_view(),
            updated_since: self.updated_since,
            native_status: opt_text(self.native_status),
            dispatch_label: opt_text(self.dispatch_label),
            has_attachment_kind: opt_text(self.has_attachment_kind),
        }
    }
}

/// The filter that asks for nothing.
pub open spec fn no_filter() -> FilterView {
    FilterView {
        status: seq![],
        kind: seq![],
        assignee: seq![],
        labels_any: seq![],
        labels_all: seq![],
        updated_since: None,
        native_status: None,
        dispatch_label: None,
        has_attachment_kind: None,
    }
}

impl Default for SubjectFilter {
    /// The filter that asks for nothing.
    fn default() -> (filter: Self)
        ensures
            filter@ == no_filter(),
    {
        let filter = SubjectFilter {
            status: Vec::new(),
            kind: Vec::new(),
            assignee: Vec::new(),
            labels_any: Vec::new(),
            labels_all: Vec::new(),
            updated_since: None,
            native_status: None,
            dispatch_label: None,
            has_attachment_kind: None,
        };
        assert(filter@ =~= no_filter());
        filter
    }
}

/// Changes to a subject. An empty list, an empty map or `None` changes
/// nothing.
#[derive(Debug)]
pub struct SubjectPatch {
    /// The new status.
    pub status: Option<SubjectStatus>,
    /// The new assignee; `Some(None)` takes the assignee away.
    pub assignee: Option<Option<String>>,
    /// Labels to put on.
    pub labels_add: Vec<String>,
    /// Labels to take off, before others are put on.
    pub labels_remove: Vec<String>,
    /// Custom fields to set; `null` takes a field away.
    pub custom: FieldMap,
    /// A comment to put behind the body.
    pub comment: Option<String>,
}

/// What a [`SubjectPatch`] changes.
#[verifier::ext_equal]
pub struct PatchView {
    pub status: Option<SubjectStatus>,
    pub assignee: Option<Option<Seq<char>>>,
    pub labels_add: Seq<Seq<char>>,
    pub labels_remove: Seq<Seq<char>>,
    pub custom: Map<Seq<char>, JsonView>,
    pub comment: Option<Seq<char>>,
}

impl View for SubjectPatch {
    type V = PatchView;

    open spec fn view(&self) -> PatchView {
        PatchView {
            status: self.status,
            assignee: match self.assignee {
                Some(assignee) => Some(opt_text(assignee)),
                None => None,
            },
            labels_add: self.labels_add.deep_view(),
            labels_remove: self.labels_remove.deep_view(),
            custom: self.custom@,
            comment: opt_text(self.comment),
        }
    }
}

/// The patch that changes nothing.
pub open spec fn no_patch() -> PatchView {
    PatchView {
        status: None,
        assignee: None,
        labels_add: seq![],
        labels_remove: seq![],
        custom: Map::empty(),
        comment: None,
    }
}

impl Default for SubjectPatch {
    /// The patch that changes nothing.
    fn default() -> (patch: Self)
        ensures
            patch@ == no_patch(),
    {
        let patch = SubjectPatch {
            status: None,
            assignee: None,
            labels_add: Vec::new(),
            labels_remove: Vec::new(),
            custom: FieldMap::new(),
            comment: None,
        };
        assert(patch@ =~= no_patch());
        patch
    }
}

/// Whether `text` is one of `list`.
pub fn contains_text(list: &Vec<String>, text: &String) -> (yes: bool)
    ensures
        yes == list.deep_view().contains(text@),
{
    let mut i: usize = 0;
    while i < list.len()
        invariant
            i <= list.len(),
            forall|j: int| 0 <= j < i ==> #[trigger] list.deep_view()[j] != text@,
        decreases list.len() - i,
    {
        assert(list.deep_view()[i as int] == list[i as int]@);
        if list[i] == *text {
            return true;
        }
        i += 1;
    }
    false
}

} // verus!
