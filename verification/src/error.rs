//! What callers are told when a request fails.

use vstd::prelude::*;

verus! {

/// Why a request failed.
#[derive(Debug, PartialEq, Eq)]
pub enum BackendError {
    /// The request makes no sense.
    InvalidRequest(String),
    /// There is no subject with this id.
    NotFound(String),
    /// Something else went wrong: what was tried first, then its causes.
    Other(Vec<String>),
}

/// What a [`BackendError`] says.
pub enum ErrorView {
    InvalidRequest(Seq<char>),
    NotFound(Seq<char>),
    Other(Seq<Seq<char>>),
}

impl View for BackendError {
    type V = ErrorView;

    open spec fn view(&self) -> ErrorView {
        match *self {
            BackendError::InvalidRequest(message) => ErrorView::InvalidRequest(message@),
            BackendError::NotFound(id) => ErrorView::NotFound(id@),
            BackendError::Other(messages) => ErrorView::Other(messages.deep_view()),
        }
    }
}

/// A text in quotation marks, as `{:?}` shows it.
pub uninterp spec fn debug_text(s: Seq<char>) -> Seq<char>;

/// Calls the `Debug` formatting of `str`. Claimed is only that what it shows
/// depends on nothing but the text.
#[verifier::external_body]
pub(crate) fn debug(s: &str) -> (shown: String)
    ensures
        shown@ == debug_text(s@),
{
    format!("{s:?}")
}

/// What is said of an id with another prefix. `shown` is the id as shown.
pub open spec fn foreign_id_text(shown: Seq<char>, prefix: Seq<char>) -> Seq<char> {
    "subject id "@ + shown + " is not a markdown id (expected `"@ + prefix + "` prefix)"@
}

/// What is said of an id that is not a kind, `-` and a number.
pub open spec fn malformed_id_text(shown: Seq<char>) -> Seq<char> {
    "malformed id "@ + shown
}

/// What is said of an id that has a number and no kind.
pub open spec fn empty_kind_text(shown: Seq<char>) -> Seq<char> {
    "malformed id "@ + shown + " (empty kind)"@
}

/// Texts with a comma and a space between each two.
pub open spec fn comma_list(items: Seq<Seq<char>>) -> Seq<char>
    decreases items.len(),
{
    if items.len() == 0 {
        seq![]
    } else if items.len() == 1 {
        items[0]
    } else {
        comma_list(items.drop_last()) + ", "@ + items.last()
    }
}

/// What is said of a kind that is not configured. `shown` is the kind as shown,
/// `kinds` are the configured ones as shown.
pub open spec fn unknown_kind_text(shown: Seq<char>, kinds: Seq<Seq<char>>) -> Seq<char> {
    "kind "@ + shown + " not in configured kinds ["@ + comma_list(kinds) + "]"@
}

/// Says that something could not be done to a path: `what`, the path, and why.
pub open spec fn failed_text(what: Seq<char>, path: Seq<char>, why: Seq<char>) -> Seq<char> {
    what + path + ": "@ + why
}

/// What is said of an id with another prefix. `shown` is the id as shown.
pub fn foreign_id_message(shown: &str, prefix: &str) -> (message: String)
    ensures
        message@ == foreign_id_text(shown@, prefix@),
{
    let mut message = "subject id ".to_owned();
    message.append(shown);
    message.append(" is not a markdown id (expected `");
    message.append(prefix);
    message.append("` prefix)");
    message
}

/// What is said of an id that is not a kind, `-` and a number.
pub fn malformed_id_message(shown: &str) -> (message: String)
    ensures
        message@ == malformed_id_text(shown@),
{
    let mut message = "malformed id ".to_owned();
    message.append(shown);
    message
}

/// What is said of an id that has a number and no kind.
pub fn empty_kind_message(shown: &str) -> (message: String)
    ensures
        message@ == empty_kind_text(shown@),
{
    let mut message = "malformed id ".to_owned();
    message.append(shown);
    message.append(" (empty kind)");
    message
}

/// What is said of a kind that is not configured. `shown` is the kind as shown,
/// `kinds` are the configured ones as shown.
pub fn unknown_kind_message(shown: &str, kinds: &Vec<String>) -> (message: String)
    ensures
        message@ == unknown_kind_text(shown@, kinds.deep_view()),
{
    let mut message = "kind ".to_owned();
    message.append(shown);
    message.append(" not in configured kinds [");
    let ghost head = message@;
    let ghost all = kinds.deep_view();
    let mut i: usize = 0;
    assert(message@ =~= head + comma_list(all.take(0)));
    while i < kinds.len()
        invariant
            i <= kinds.len(),
            all == kinds.deep_view(),
            message@ == head + comma_list(all.take(i as int)),
        decreases kinds.len() - i,
    {
        assert(all.take(i + 1).drop_last() =~= all.take(i as int));
        assert(all.take(i + 1).last() == kinds[i as int]@);
        if i > 0 {
            message.append(", ");
        }
        message.append(kinds[i].as_str());
        assert(message@ =~= head + comma_list(all.take(i + 1)));
        i += 1;
    }
    assert(all.take(kinds.len() as int) =~= all);
    message.append("]");
    message
}

/// Says that something could not be done to a path: `what`, the path, and why.
pub fn failed_message(what: &str, path: &str, why: &str) -> (message: String)
    ensures
        message@ == failed_text(what@, path@, why@),
{
    let mut message = what.to_owned();
    message.append(path);
    message.append(": ");
    message.append(why);
    message
}

/// The error of something that could not be done to a path.
pub(crate) fn io_failure(what: &str, path: &str, why: &str) -> (failure: BackendError)
    ensures
        failure@ == ErrorView::Other(seq![failed_text(what@, path@, why@)]),
{
    let mut messages: Vec<String> = Vec::new();
    messages.push(failed_message(what, path, why));
    assert(messages.deep_view() =~= seq![failed_text(what@, path@, why@)]);
    BackendError::Other(messages)
}

} // verus!
