//! Laws on what a backend does: creating, reading, changing and listing subjects,
//! and noticing changes.

use crate::backend::{
    after_allocation, can_allocate, created_body, created_doc, created_id, created_path,
    described, gets, reads_to, rewritten, sequence_of, unknown_kind, updated_doc, updates, written,
    BackendView, Found,
};
use crate::config::ConfigView;
use crate::error::{comma_list, debug_text, BackendError, ErrorView};
use crate::filter::subjects_view;
use crate::id_gen::{first_free, max_sequence, md, native_text, sequence_in};
use crate::ids::subject_path;
use crate::json::JsonView;
use crate::laws::files::{ends_in_component, is_component, law_path_parts, law_reading};
use crate::listing::{readable, subject_files, walked, DirListing, ListingView};
use crate::mapping::subject_of;
use crate::parser::{
    parses_to, split_file, DocView, Frontmatter, FrontmatterView, MarkdownDoc, MissingDelimiter,
    ParseError,
};
use crate::patch::patched;
use crate::paths::{join_path, name_of, parent_of};
use crate::report::{probe_of, probe_plan, root_fault, RootProbe};
use crate::subject::{PatchView, Subject, SubjectStatus};
use crate::text::{is_white, same_ignoring_case, upper_text};
use crate::time::Timestamp;
use crate::watcher::{
    change_of, is_managed, reports, targets_of, targets_view, ChangeKind, RawChange,
    SubjectChangedEvent,
};
use crate::writer::{atomic_steps, document_text, steps_view, FileStep, StepView};
use vstd::prelude::*;

verus! {

// ------------------------------------------------------------------- creating

/// A new subject has the kind and the title that it is created with, with or
/// without a description; it is ready, and was created and updated at the time of
/// the call. Its id is the prefix, the kind in upper case, a `-` and its number. It
/// holds nothing else, and its body is the description and a `\n`.
pub proof fn law_new_document(
    config: ConfigView,
    kind: Seq<char>,
    title: Seq<char>,
    description: Option<Seq<char>>,
    seq: u32,
    now: Timestamp,
)
    ensures
        ({
            let doc = created_doc(config, kind, title, description, seq, now);
            let fm = doc.frontmatter;
            &&& fm.id == config.id_prefix + native_text(upper_text(kind), seq)
            &&& fm.id == created_id(config, kind, seq)
            &&& fm.kind == kind
            &&& fm.title == title
            &&& fm.status == SubjectStatus::Ready
            &&& fm.created_at == now
            &&& fm.updated_at == now
            &&& fm.priority is None
            &&& fm.assignee is None
            &&& fm.labels == Seq::<Seq<char>>::empty()
            &&& fm.parent_id is None
            &&& fm.native_status is None
            &&& fm.dispatch_label is None
            &&& fm.status_metadata == JsonView::Other(seq!['{', '}'])
            &&& fm.attachments.len() == 0
            &&& fm.custom_fields == Map::<Seq<char>, JsonView>::empty()
            &&& description matches Some(text) ==> doc.body == text + seq!['\n']
            &&& description is None ==> doc.body == seq!['\n']
        }),
{
    if let Some(text) = description {
        assert(created_body(description) =~= text + seq!['\n']);
    }
}

/// The subject that creating one gives has the kind, the title, the status, the
/// times and the id that were asked for, and the description but for the `\n`s at
/// its end; what is written is the text of a document that has them too.
#[verifier::rlimit(40)]
pub proof fn law_new_subject(
    config: ConfigView,
    kind: Seq<char>,
    title: Seq<char>,
    description: Option<Seq<char>>,
    seq: u32,
    now: Timestamp,
    path: Seq<char>,
    outcome: Result<(Vec<FileStep>, Subject), BackendError>,
)
    requires
        written(path, created_doc(config, kind, title, description, seq, now), outcome),
    ensures
        outcome matches Ok((steps, subject)) ==> {
            &&& subject@.id == config.id_prefix + native_text(upper_text(kind), seq)
            &&& subject@.kind == kind
            &&& subject@.title == title
            &&& subject@.status == SubjectStatus::Ready
            &&& subject@.created_at == now
            &&& subject@.updated_at == now
            &&& subject@.priority is None
            &&& subject@.assignee is None
            &&& subject@.labels.len() == 0
            &&& subject@.parent is None
            &&& subject@.native_status is None
            &&& subject@.attachments.len() == 0
            &&& forall|name: Seq<char>| !(#[trigger] subject@.custom.contains_key(name))
            &&& subject@.description is None <==> (description is None || (forall|i: int|
                0 <= i < description->0.len() ==> is_white(#[trigger] description->0[i])))
            &&& document_text(
                DocView {
                    frontmatter: FrontmatterView {
                        id: config.id_prefix + native_text(upper_text(kind), seq),
                        kind,
                        title,
                        status: SubjectStatus::Ready,
                        priority: None,
                        assignee: None,
                        labels: seq![],
                        parent_id: None,
                        created_at: now,
                        updated_at: now,
                        native_status: None,
                        dispatch_label: None,
                        status_metadata: JsonView::Other(seq!['{', '}']),
                        attachments: seq![],
                        custom_fields: Map::empty(),
                    },
                    body: match description {
                        Some(text) => text + seq!['\n'],
                        None => seq!['\n'],
                    },
                },
            ) matches Ok(text) && steps_view(steps@) == atomic_steps(path, text)
        },
        outcome matches Err(error) ==> error@ == ErrorView::Other(seq!["serialize frontmatter"@]),
{
    law_new_document(config, kind, title, description, seq, now);
    let doc = created_doc(config, kind, title, description, seq, now);
    if let Ok((steps, subject)) = outcome {
        assert(doc =~= DocView {
            frontmatter: FrontmatterView {
                id: config.id_prefix + native_text(upper_text(kind), seq),
                kind,
                title,
                status: SubjectStatus::Ready,
                priority: None,
                assignee: None,
                labels: seq![],
                parent_id: None,
                created_at: now,
                updated_at: now,
                native_status: None,
                dispatch_label: None,
                status_metadata: JsonView::Other(seq!['{', '}']),
                attachments: seq![],
                custom_fields: Map::empty(),
            },
            body: match description {
                Some(text) => text + seq!['\n'],
                None => seq!['\n'],
            },
        });
        let body = doc.body;
        assert(is_white('\n'));
        match description {
            Some(text) => {
                assert(body.len() == text.len() + 1);
                assert(forall|i: int| 0 <= i < text.len() ==> #[trigger] body[i] == text[i]);
                if subject@.description is None {
                    assert forall|i: int| 0 <= i < text.len() implies is_white(
                        #[trigger] text[i],
                    ) by {
                        assert(is_white(body[i]));
                    }
                } else {
                    let at = choose|at: int|
                        0 <= at < body.len() && !is_white(#[trigger] body[at]);
                    assert(at < text.len());
                    assert(!is_white(text[at]));
                }
            },
            None => {
                assert(body =~= seq!['\n']);
            },
        }
    }
}

/// The file of a new subject stands in the directory of its kind and is named by
/// its native id.
pub proof fn law_new_file(config: ConfigView, kind: Seq<char>, seq: u32)
    ensures
        created_path(config, kind, seq) == join_path(
            join_path(config.root, kind),
            native_text(upper_text(kind), seq) + seq!['.', 'm', 'd'],
        ),
{
}

/// What is said of an unknown kind shows it and every configured one.
pub proof fn law_unknown_kind(config: ConfigView, kind: Seq<char>)
    ensures
        unknown_kind(config, kind) == ErrorView::InvalidRequest(
            "kind "@ + debug_text(kind) + " not in configured kinds ["@ + comma_list(
                config.kinds.map_values(|k: Seq<char>| debug_text(k)),
            ) + "]"@,
        ),
{
}

/// The number for a kind is the one that comes next, or the first free one where
/// the kind was not asked for before. Then the next one comes next, for this kind
/// only, whatever the case it is given in.
pub proof fn law_numbers_are_handed_out(
    backend: BackendView,
    kind: Seq<char>,
    names: Seq<Seq<char>>,
    other: Seq<char>,
)
    ensures
        ({
            let key = upper_text(kind);
            let seq = sequence_of(backend, kind, names);
            let after = after_allocation(backend, kind, names);
            &&& forall|n: u32| backend.next.contains_pair(key, n) ==> seq == n
            &&& !backend.next.contains_key(key) ==> seq == first_free(names, key)
            &&& seq < u32::MAX ==> after.next.contains_pair(key, (seq + 1) as u32)
            &&& seq == u32::MAX ==> after.next.contains_pair(key, 0)
            &&& after.config == backend.config
            &&& other != key ==> after.next.contains_key(other) == backend.next.contains_key(other)
                && (backend.next.contains_key(other) ==> after.next[other] == backend.next[other])
            &&& can_allocate(backend, kind, names) <==> (backend.next.contains_key(key)
                || max_sequence(names, key) != Some(u32::MAX))
        }),
{
}

// ------------------------------------------------------------------- writing

/// Writing a document gives the steps that write its text, and the subject that
/// the document describes; where it has no text, that is said.
pub proof fn law_writing_a_document(
    path: Seq<char>,
    doc: DocView,
    outcome: Result<(Vec<FileStep>, Subject), BackendError>,
)
    requires
        written(path, doc, outcome),
    ensures
        outcome is Ok <==> document_text(doc) is Ok,
        outcome matches Ok((steps, subject)) ==> {
            &&& steps_view(steps@) == atomic_steps(path, document_text(doc)->Ok_0)
            &&& subject@ == subject_of(doc)
        },
        outcome matches Err(error) ==> error@ == ErrorView::Other(seq!["serialize frontmatter"@]),
{
}

// ------------------------------------------------------------------- reading

/// Whether an error says that the file at a path is not a subject file, and why.
pub open spec fn says_unparsable(
    path: Seq<char>,
    causes: Seq<Seq<char>>,
    error: BackendError,
) -> bool {
    error@ == ErrorView::Other(seq!["parse "@ + path] + causes)
}

/// A file that could not be read is an error with its path and the reason. One
/// that lacks a `---` line, or whose frontmatter the decoder refuses, is an error
/// with the path and the cause. Any other is the subject of what the decoder made
/// of the frontmatter, and of the body.
#[verifier::rlimit(40)]
pub proof fn law_reading_a_subject<F: FnOnce(String) -> Result<Frontmatter, String>>(
    path: Seq<char>,
    raw: Result<String, String>,
    decode: F,
    outcome: Result<Subject, BackendError>,
)
    requires
        reads_to(path, raw, decode, outcome),
    ensures
        raw matches Err(why) ==> (outcome matches Err(e) && e@ == ErrorView::Other(
            seq!["read "@ + path + seq![':', ' '] + why@],
        )),
        raw matches Ok(text) ==> (split_file(text@) matches Ok((yaml, body)) ==> exists|
            t: String,
            decoded: Result<Frontmatter, String>,
        |
            {
                &&& t@ == yaml
                &&& #[trigger] decode.ensures((t,), decoded)
                &&& decoded matches Ok(fm) ==> (outcome matches Ok(s) && s@ == subject_of(
                    DocView { frontmatter: fm@, body },
                ))
                &&& decoded matches Err(cause) ==> (outcome matches Err(e) && says_unparsable(
                    path,
                    seq!["failed to parse YAML frontmatter"@, cause@],
                    e,
                ))
            }),
        raw matches Ok(text) ==> (split_file(text@) == Err::<(Seq<char>, Seq<char>), _>(
            MissingDelimiter::Opening,
        ) ==> (outcome matches Err(e) && says_unparsable(
            path,
            seq!["missing opening `---` frontmatter delimiter"@],
            e,
        ))),
        raw matches Ok(text) ==> (split_file(text@) == Err::<(Seq<char>, Seq<char>), _>(
            MissingDelimiter::Closing,
        ) ==> (outcome matches Err(e) && says_unparsable(
            path,
            seq!["missing closing `---` frontmatter delimiter"@],
            e,
        ))),
{
    reveal_strlit(": ");
    assert(": "@ =~= seq![':', ' ']);
    if let Ok(text) = raw {
        let doc = choose|doc: Result<MarkdownDoc, ParseError>|
            #[trigger] parses_to(decode, text@, doc) && described(path, doc, outcome);
        law_reading(decode, text@, doc);
        if let Ok((yaml, body)) = split_file(text@) {
            let (t, decoded) = choose|t: String, decoded: Result<Frontmatter, String>|
                {
                    &&& t@ == yaml
                    &&& #[trigger] decode.ensures((t,), decoded)
                    &&& decoded matches Ok(fm) ==> (doc matches Ok(d) && d.frontmatter == fm
                        && d.body@ == body)
                    &&& decoded matches Err(cause) ==> doc == Err::<MarkdownDoc, _>(
                        ParseError::Frontmatter(cause),
                    )
                };
            assert(decode.ensures((t,), decoded));
            if let Ok(fm) = decoded {
                assert(doc->Ok_0@ == DocView { frontmatter: fm@, body });
            }
        }
    }
}

/// A request for a subject is refused where its id is, is answered with its id
/// where there is no file, and otherwise is what reading its file comes to.
pub proof fn law_getting_a_subject<F: FnOnce(String) -> Result<Frontmatter, String>>(
    config: ConfigView,
    id: Seq<char>,
    found: Found,
    decode: F,
    outcome: Result<Subject, BackendError>,
)
    requires
        gets(config, id, found, decode, outcome),
    ensures
        subject_path(config, id) matches Err(error) ==> (outcome matches Err(e) && e@ == error),
        subject_path(config, id) is Ok && found is None ==> (outcome matches Err(e) && e@
            == ErrorView::NotFound(id)),
        subject_path(config, id) matches Ok(path) ==> (found matches Some(raw) ==> reads_to(
            path,
            raw,
            decode,
            outcome,
        )),
{
}

// ------------------------------------------------------------------- changing

/// A change makes what its patch says of a document, and the time of the change
/// that of the last update, whatever that was; nothing else.
pub proof fn law_changed_document(doc: DocView, patch: PatchView, now: Timestamp)
    ensures
        ({
            let new = updated_doc(doc, patch, now);
            let by_patch = patched(doc, patch);
            &&& new.frontmatter.updated_at == now
            &&& new.frontmatter == (FrontmatterView { updated_at: now, ..by_patch.frontmatter })
            &&& new.body == by_patch.body
            &&& patch.status matches Some(status) ==> new.frontmatter.status == status
            &&& patch.assignee matches Some(who) ==> new.frontmatter.assignee == who
            &&& new.frontmatter.title == doc.frontmatter.title
            &&& new.frontmatter.created_at == doc.frontmatter.created_at
        }),
{
}

/// A request to change a subject is refused where its id is, is answered with its
/// id where there is no file, and with an error where the file cannot be read or
/// is no subject file. Otherwise the changed document is written to its path.
#[verifier::rlimit(40)]
pub proof fn law_changing_a_subject<F: FnOnce(String) -> Result<Frontmatter, String>>(
    config: ConfigView,
    id: Seq<char>,
    patch: PatchView,
    found: Found,
    now: Timestamp,
    decode: F,
    outcome: Result<(Vec<FileStep>, Subject), BackendError>,
)
    requires
        updates(config, id, patch, found, now, decode, outcome),
    ensures
        subject_path(config, id) matches Err(error) ==> (outcome matches Err(e) && e@ == error),
        subject_path(config, id) is Ok && found is None ==> (outcome matches Err(e) && e@
            == ErrorView::NotFound(id)),
        subject_path(config, id) matches Ok(path) ==> (found matches Some(Err(why)) ==> (
        outcome matches Err(e) && e@ == ErrorView::Other(
            seq!["read "@ + path + seq![':', ' '] + why@],
        ))),
        subject_path(config, id) matches Ok(path) ==> (found matches Some(Ok(text)) ==> (split_file(
            text@,
        ) matches Ok((yaml, body)) ==> exists|t: String, decoded: Result<Frontmatter, String>|
            {
                &&& t@ == yaml
                &&& #[trigger] decode.ensures((t,), decoded)
                &&& decoded matches Ok(fm) ==> written(
                    path,
                    updated_doc(DocView { frontmatter: fm@, body }, patch, now),
                    outcome,
                )
                &&& decoded matches Err(cause) ==> (outcome matches Err(e) && says_unparsable(
                    path,
                    seq!["failed to parse YAML frontmatter"@, cause@],
                    e,
                ))
            })),
        subject_path(config, id) matches Ok(path) ==> (found matches Some(Ok(text)) ==> (split_file(
            text@,
        ) == Err::<(Seq<char>, Seq<char>), _>(MissingDelimiter::Opening) ==> (
        outcome matches Err(e) && says_unparsable(
            path,
            seq!["missing opening `---` frontmatter delimiter"@],
            e,
        )))),
        subject_path(config, id) matches Ok(path) ==> (found matches Some(Ok(text)) ==> (split_file(
            text@,
        ) == Err::<(Seq<char>, Seq<char>), _>(MissingDelimiter::Closing) ==> (
        outcome matches Err(e) && says_unparsable(
            path,
            seq!["missing closing `---` frontmatter delimiter"@],
            e,
        )))),
{
    reveal_strlit(": ");
    assert(": "@ =~= seq![':', ' ']);
    if let (Ok(path), Some(Ok(text))) = (subject_path(config, id), found) {
        let doc = choose|doc: Result<MarkdownDoc, ParseError>|
            #[trigger] parses_to(decode, text@, doc) && rewritten(path, doc, patch, now, outcome);
        law_reading(decode, text@, doc);
        if let Ok((yaml, body)) = split_file(text@) {
            let (t, decoded) = choose|t: String, decoded: Result<Frontmatter, String>|
                {
                    &&& t@ == yaml
                    &&& #[trigger] decode.ensures((t,), decoded)
                    &&& decoded matches Ok(fm) ==> (doc matches Ok(d) && d.frontmatter == fm
                        && d.body@ == body)
                    &&& decoded matches Err(cause) ==> doc == Err::<MarkdownDoc, _>(
                        ParseError::Frontmatter(cause),
                    )
                };
            assert(decode.ensures((t,), decoded));
            if let Ok(fm) = decoded {
                assert(doc->Ok_0@ == DocView { frontmatter: fm@, body });
            }
        }
    }
}

// -------------------------------------------------------------------- listing

/// The subject files of a kind stand in the order of the names of its directory;
/// a name with a sequence number of the kind is one, below that directory.
pub proof fn law_one_more_name(
    config: ConfigView,
    kind: Seq<char>,
    names: Seq<Seq<char>>,
    name: Seq<char>,
)
    ensures
        subject_files(config, kind, Seq::empty()) == Seq::<Seq<char>>::empty(),
        sequence_in(name, upper_text(kind)) is Some ==> subject_files(
            config,
            kind,
            names.push(name),
        ) == subject_files(config, kind, names).push(
            join_path(join_path(config.root, kind), name),
        ),
        sequence_in(name, upper_text(kind)) is None ==> subject_files(
            config,
            kind,
            names.push(name),
        ) == subject_files(config, kind, names),
{
    reveal(Seq::filter);
    let wanted = |n: Seq<char>| sequence_in(n, upper_text(kind)) is Some;
    let below = |n: Seq<char>| join_path(join_path(config.root, kind), n);
    assert(names.push(name).drop_last() =~= names);
    assert(subject_files(config, kind, Seq::empty()) =~= Seq::<Seq<char>>::empty());
    if wanted(name) {
        assert(names.push(name).filter(wanted) =~= names.filter(wanted).push(name));
        assert(names.filter(wanted).push(name).map_values(below) =~= names.filter(
            wanted,
        ).map_values(below).push(below(name)));
        assert(subject_files(config, kind, names) =~= names.filter(wanted).map_values(below));
        assert(subject_files(config, kind, names.push(name)) =~= names.push(name).filter(
            wanted,
        ).map_values(below));
    } else {
        assert(names.push(name).filter(wanted) =~= names.filter(wanted));
    }
}

/// The files of one more kind stand behind those before it; a missing directory
/// adds none, one that cannot be read is an error, and an error stays one.
pub proof fn law_one_more_directory(config: ConfigView, listings: Seq<DirListing>, n: nat)
    ensures
        walked(config, listings, 0) == Ok::<_, ErrorView>(Seq::<Seq<char>>::empty()),
        walked(config, listings, n) is Err ==> walked(config, listings, n + 1) == walked(
            config,
            listings,
            n,
        ),
        walked(config, listings, n) matches Ok(files) ==> walked(config, listings, n + 1) == (
        match listings[n as int] {
            DirListing::Missing => Ok(files),
            DirListing::Failed(why) => Err::<Seq<Seq<char>>, _>(
                ErrorView::Other(
                    seq![
                        "read dir "@ + join_path(config.root, config.kinds[n as int]) + seq![
                            ':',
                            ' ',
                        ] + why@,
                    ],
                ),
            ),
            DirListing::Names(names) => Ok(
                files + subject_files(config, config.kinds[n as int], names.deep_view()),
            ),
        }),
{
    reveal_strlit(": ");
    assert(": "@ =~= seq![':', ' ']);
}

/// What looking into a directory gave is shown as it is.
pub proof fn law_listings_show_what_they_hold(listing: DirListing)
    ensures
        listing is Missing <==> listing@ is Missing,
        listing matches DirListing::Failed(why) ==> listing@ == ListingView::Failed(why@),
        listing matches DirListing::Names(names) ==> listing@ == ListingView::Names(
            names.deep_view(),
        ),
{
}

/// Every file that could be read is listed in its place.
pub proof fn law_one_more_file(
    read: Seq<Result<Subject, BackendError>>,
    subject: Subject,
    error: BackendError,
    list: Seq<Subject>,
)
    ensures
        readable(Seq::empty()).len() == 0,
        readable(read.push(Ok(subject))) == readable(read).push(subject@),
        readable(read.push(Err(error))) == readable(read),
        subjects_view(list).len() == list.len(),
        forall|i: int| 0 <= i < list.len() ==> #[trigger] subjects_view(list)[i] == list[i]@,
{
    assert(read.push(Ok(subject)).drop_last() =~= read);
    assert(read.push(Err(error)).drop_last() =~= read);
}

// ------------------------------------------------------------ noticing changes

/// What happened to a file is what happened to its subject: it came to be where
/// the file was created or something was renamed to it, it is gone where the file
/// was removed or renamed away, and otherwise it changed. What leaves the contents
/// alone is no change.
pub proof fn law_changes(change: RawChange)
    ensures
        change_of(change) == Some(ChangeKind::Created) <==> change == RawChange::Create || change
            == RawChange::RenameTo,
        change_of(change) == Some(ChangeKind::Deleted) <==> change == RawChange::Remove || change
            == RawChange::RenameFrom,
        change_of(change) == Some(ChangeKind::Updated) <==> change == RawChange::ModifyData
            || change == RawChange::ModifyAny || change == RawChange::RenameOther,
        change_of(change) is None <==> change == RawChange::Other,
{
}

/// A path is that of a subject file where its name ends in `.md` and the name of
/// its directory is a configured kind, ignoring case, wherever that directory
/// stands.
#[verifier::rlimit(40)]
pub proof fn law_managed_paths(
    kinds: Seq<Seq<char>>,
    above: Seq<char>,
    dir: Seq<char>,
    name: Seq<char>,
)
    requires
        is_component(dir),
        is_component(name),
        dir != seq!['.', '.'],
        name != seq!['.', '.'],
    ensures
        ({
            let wanted = name.len() >= 3 && name.skip(name.len() - 3) == seq!['.', 'm', 'd'] && (
            exists|i: int| 0 <= i < kinds.len() && same_ignoring_case(#[trigger] kinds[i], dir));
            &&& is_managed(kinds, above + seq!['/'] + dir + seq!['/'] + name) <==> wanted
            &&& is_managed(kinds, dir + seq!['/'] + name) <==> wanted
            &&& !is_managed(kinds, name)
        }),
{
    let parent = above + seq!['/'] + dir;
    assert(parent.skip(parent.len() - dir.len()) =~= dir);
    lemma_component_ends(parent, dir);
    lemma_component_ends(dir, dir);
    law_path_parts(above, dir);
    law_path_parts(parent, name);
    law_path_parts(dir, name);
    assert(md().is_suffix_of(name) <==> name.len() >= 3 && name.skip(name.len() - 3) == seq![
        '.',
        'm',
        'd',
    ]);
    assert(name_of(Seq::<char>::empty()) is None);
}

/// Whether a path is that of a subject file rests on its name and on that of its
/// parent alone.
pub proof fn law_managed_by_name_and_parent(kinds: Seq<Seq<char>>, path: Seq<char>)
    ensures
        name_of(path) is None || parent_of(path) is None || name_of(parent_of(path)->0) is None
            ==> !is_managed(kinds, path),
        name_of(path) matches Some(name) ==> (parent_of(path) matches Some(parent) ==> (name_of(
            parent,
        ) matches Some(dir) ==> (is_managed(kinds, path) <==> name.len() >= 3 && name.skip(
            name.len() - 3,
        ) == seq!['.', 'm', 'd'] && (exists|i: int|
            0 <= i < kinds.len() && same_ignoring_case(#[trigger] kinds[i], dir))))),
{
    if let Some(name) = name_of(path) {
        assert(md().is_suffix_of(name) <==> name.len() >= 3 && name.skip(name.len() - 3) == seq![
            '.',
            'm',
            'd',
        ]);
    }
}

proof fn lemma_component_ends(path: Seq<char>, c: Seq<char>)
    requires
        is_component(c),
        path == c || path.len() > c.len() && path.skip(path.len() - c.len()) == c && path[path.len()
            - c.len() - 1] == '/',
    ensures
        ends_in_component(path),
{
    let n = path.len() - c.len();
    assert(path.skip(n) =~= c);
    assert(c[c.len() - 1] != '/');
    assert(path[path.len() - 1] == c[c.len() - 1]);
    if c.len() == 1 {
        if c[0] == '.' {
            assert(c =~= seq!['.']);
        }
    } else {
        assert(path[path.len() - 2] == c[c.len() - 2]);
        assert(c[c.len() - 2] != '/');
    }
}

/// A change concerns the subject files among its paths, in their order.
pub proof fn law_one_more_path(
    kinds: Seq<Seq<char>>,
    change: RawChange,
    paths: Seq<Seq<char>>,
    path: Seq<char>,
)
    ensures
        targets_of(kinds, change, Seq::empty()).len() == 0,
        is_managed(kinds, path) && change_of(change) is Some ==> targets_of(
            kinds,
            change,
            paths.push(path),
        ) == targets_of(kinds, change, paths).push((path, change_of(change)->0)),
        !is_managed(kinds, path) || change_of(change) is None ==> targets_of(
            kinds,
            change,
            paths.push(path),
        ) == targets_of(kinds, change, paths),
{
    reveal(Seq::filter);
    let managed = |p: Seq<char>| is_managed(kinds, p);
    assert(paths.push(path).drop_last() =~= paths);
    if change_of(change) is Some {
        let mark = |p: Seq<char>| (p, change_of(change)->0);
        assert(targets_of(kinds, change, paths) =~= paths.filter(managed).map_values(mark));
        assert(targets_of(kinds, change, paths.push(path)) =~= paths.push(path).filter(
            managed,
        ).map_values(mark));
        if managed(path) {
            assert(paths.push(path).filter(managed) =~= paths.filter(managed).push(path));
            assert(paths.filter(managed).push(path).map_values(mark) =~= paths.filter(
                managed,
            ).map_values(mark).push(mark(path)));
        } else {
            assert(paths.push(path).filter(managed) =~= paths.filter(managed));
        }
    }
}

/// Targets show their paths and what happened; an event shows the subject, its id
/// and what happened, and nothing of what was before.
pub proof fn law_targets_and_events(
    targets: Seq<(String, ChangeKind)>,
    event: SubjectChangedEvent,
    kind: ChangeKind,
    subject: Subject,
)
    ensures
        targets_view(targets).len() == targets.len(),
        forall|i: int|
            0 <= i < targets.len() ==> #[trigger] targets_view(targets)[i] == (
                targets[i].0@,
                targets[i].1,
            ),
        reports(event, kind, subject@) <==> {
            &&& event.id@ == subject.id@
            &&& event.change_kind == kind
            &&& event.subject@ == subject@
            &&& event.previous_native_status is None
            &&& event.previous_dispatch_label is None
        },
{
}

// --------------------------------------------------------------------- health

/// A root is tried out by making it where it is missing, writing a small file below
/// it and removing that file.
pub proof fn law_trying_out_a_root(root: Seq<char>)
    ensures
        ({
            let file = join_path(root, ".animus-write-probe"@);
            &&& probe_plan(root, true) == seq![
                StepView::Write(file, "ok"@),
                StepView::Remove(file),
            ]
            &&& probe_plan(root, false) == seq![
                StepView::CreateDirs(root),
                StepView::Write(file, "ok"@),
                StepView::Remove(file),
            ]
        }),
{
    let file = join_path(root, ".animus-write-probe"@);
    assert(probe_plan(root, false) =~= seq![
        StepView::CreateDirs(root),
        StepView::Write(file, "ok"@),
        StepView::Remove(file),
    ]);
}

/// What trying out a directory gave rests on the step that failed: making it,
/// writing, or any other, which is no fault; no more does a failure behind the last
/// step count.
pub proof fn law_failed_steps(steps: Seq<StepView>, at: usize, why: String)
    ensures
        probe_of(steps, None) == RootProbe::Writable,
        at >= steps.len() ==> probe_of(steps, Some((at, why))) == RootProbe::Writable,
        at < steps.len() ==> {
            let probe = probe_of(steps, Some((at, why)));
            &&& steps[at as int] is CreateDirs ==> probe == RootProbe::CannotCreate(why)
            &&& steps[at as int] is Write ==> probe == RootProbe::CannotWrite(why)
            &&& steps[at as int] is Rename || steps[at as int] is Remove ==> probe
                == RootProbe::Writable
        },
{
}

/// A root is at fault where it could not be made or the file could not be written,
/// and then it is said what failed and why; that the file stays is no fault.
pub proof fn law_faults_of_a_root(
    root: Seq<char>,
    root_exists: bool,
    failed: Option<(usize, String)>,
)
    ensures
        ({
            let probe = probe_of(probe_plan(root, root_exists), failed);
            let writing: int = if root_exists {
                0
            } else {
                1
            };
            root_fault(root, probe) == (match failed {
                Some((at, why)) => if at < writing {
                    Some("cannot create root "@ + root + ": "@ + why@)
                } else if at == writing {
                    Some("root "@ + root + " not writable: "@ + why@)
                } else {
                    None
                },
                None => None,
            })
        }),
{
    law_trying_out_a_root(root);
}

} // verus!
