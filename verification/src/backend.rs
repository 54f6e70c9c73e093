//! A backend with one Markdown file per subject.
//!
//! The backend decides: which file a subject lives in, what a request comes to
//! given what is on disk, and what is to be written. Reading directories and
//! files, taking the steps of a write and looking at the clock is left to its
//! caller, who hands in what was found.

use crate::config::{kind_path, ConfigView, MarkdownConfig};
use crate::error::{
    debug, debug_text, failed_text, foreign_id_message, io_failure, unknown_kind_message,
    unknown_kind_text, BackendError, ErrorView,
};
use crate::id_gen::{
    file_name_for, file_name_text, first_free, law_first_id_is_new, max_sequence, md, native_id,
    native_text, sequence_in, SequenceGenerator,
};
use crate::ids::{
    configured_kind, is_configured, law_native_id_splits, lemma_case_does_not_matter,
    lemma_configured_kind, lemma_configured_kind_is_the_kind, native_of, split_native,
    subject_path,
};
use crate::lines::{has_cr_ending, lemma_trim_newlines_push, trim_newlines};
use crate::mapping::{
    description_of, law_subject_survives_writing, subject_from_doc, subject_of,
};
use crate::parser::{
    parse, parse_error_texts, parses_to, plain_frontmatter, DocView, Frontmatter, FrontmatterView,
    MarkdownDoc, ParseError,
};
use crate::patch::{apply_patch, patched};
use crate::paths::{join, join_path};
use crate::subject::{opt_text, PatchView, Subject, SubjectId, SubjectPatch, SubjectStatus};
use crate::text::{
    blank_text, is_white, joined, lower_text, same_ignoring_case,
    same_text_ignoring_case, strip_prefix, to_lower, to_upper, upper_text,
};
use crate::time::Timestamp;
use crate::writer::{
    after_steps, atomic_steps, document_text, file_text, frontmatter_text, is_readable,
    law_rendered_parses_back, law_write_changes_one_file, normal_body, reads_back,
    render_and_write, steps_view, tmp_path, Disk, FileStep, RenderError,
};
use vstd::prelude::*;

verus! {

/// The sequence number that comes next for each kind.
spec fn next_of(entries: Seq<(String, SequenceGenerator)>) -> Map<Seq<char>, u32> {
    Map::new(
        |kind: Seq<char>| exists|i: int| 0 <= i < entries.len() && #[trigger] entries[i].0@ == kind,
        |kind: Seq<char>|
            entries[choose|i: int| 0 <= i < entries.len() && #[trigger] entries[i].0@ == kind].1@,
    )
}

/// Whether no kind stands in a list twice.
spec fn kinds_distinct(entries: Seq<(String, SequenceGenerator)>) -> bool {
    forall|i: int, j: int|
        0 <= i < j < entries.len() ==> #[trigger] entries[i].0@ != #[trigger] entries[j].0@
}

/// A backend with one Markdown file per subject.
#[derive(Debug)]
pub struct MarkdownBackend {
    config: MarkdownConfig,
    /// One generator for each kind that was asked for, by the kind in upper
    /// case.
    sequences: Vec<(String, SequenceGenerator)>,
}

/// What a [`MarkdownBackend`] knows: its configuration, and for each kind in
/// upper case that was asked for the sequence number that comes next.
#[verifier::ext_equal]
pub struct BackendView {
    pub config: ConfigView,
    pub next: Map<Seq<char>, u32>,
}

impl View for MarkdownBackend {
    type V = BackendView;

    closed spec fn view(&self) -> BackendView {
        BackendView { config: self.config@, next: next_of(self.sequences@) }
    }
}

/// The sequence number behind `seq`: behind the largest one comes `0`.
pub open spec fn behind(seq: u32) -> u32 {
    if seq < u32::MAX {
        (seq + 1) as u32
    } else {
        0
    }
}

/// The sequence number that a backend hands out for a kind: the next one, or,
/// where the kind was not asked for before, the first one that is free in its
/// directory, whose file names are `names`.
pub open spec fn sequence_of(
    backend: BackendView,
    kind: Seq<char>,
    names: Seq<Seq<char>>,
) -> u32 {
    let kind_upper = upper_text(kind);
    if backend.next.contains_key(kind_upper) {
        backend.next[kind_upper]
    } else {
        first_free(names, kind_upper)
    }
}

/// Whether there is a sequence number for a kind: its directory may not hold
/// the largest one when it is first looked into.
pub open spec fn can_allocate(
    backend: BackendView,
    kind: Seq<char>,
    names: Seq<Seq<char>>,
) -> bool {
    backend.next.contains_key(upper_text(kind)) || max_sequence(names, upper_text(kind)) != Some(
        u32::MAX,
    )
}

/// A backend once it has handed out a sequence number for a kind.
pub open spec fn after_allocation(
    backend: BackendView,
    kind: Seq<char>,
    names: Seq<Seq<char>>,
) -> BackendView {
    BackendView {
        config: backend.config,
        next: backend.next.insert(upper_text(kind), behind(sequence_of(backend, kind, names))),
    }
}

/// Where an entry is, the map has its value.
proof fn lemma_next_of(entries: Seq<(String, SequenceGenerator)>, i: int)
    requires
        kinds_distinct(entries),
        0 <= i < entries.len(),
    ensures
        next_of(entries).contains_key(entries[i].0@),
        next_of(entries)[entries[i].0@] == entries[i].1@,
{
    let kind = entries[i].0@;
    let j = choose|j: int| 0 <= j < entries.len() && #[trigger] entries[j].0@ == kind;
    assert(0 <= j < entries.len() && entries[j].0@ == kind);
    if i < j {
        assert(entries[i].0@ != entries[j].0@);
    } else if j < i {
        assert(entries[j].0@ != entries[i].0@);
    }
}

/// A list that differs from another in the value at one place only.
proof fn lemma_next_of_update(
    old_entries: Seq<(String, SequenceGenerator)>,
    new_entries: Seq<(String, SequenceGenerator)>,
    at: int,
)
    requires
        kinds_distinct(old_entries),
        0 <= at < new_entries.len(),
        old_entries.len() <= new_entries.len() <= old_entries.len() + 1,
        new_entries.len() > old_entries.len() ==> at == old_entries.len() && !next_of(
            old_entries,
        ).contains_key(new_entries[at].0@),
        forall|i: int|
            0 <= i < old_entries.len() ==> #[trigger] new_entries[i].0@ == old_entries[i].0@,
        forall|i: int|
            0 <= i < old_entries.len() && i != at ==> #[trigger] new_entries[i].1@
                == old_entries[i].1@,
    ensures
        kinds_distinct(new_entries),
        next_of(new_entries) == next_of(old_entries).insert(
            new_entries[at].0@,
            new_entries[at].1@,
        ),
{
    let kind = new_entries[at].0@;
    assert forall|i: int, j: int| 0 <= i < j < new_entries.len() implies #[trigger] new_entries[i].0@
        != #[trigger] new_entries[j].0@ by {
        assert(old_entries[i].0@ == new_entries[i].0@);
        if j < old_entries.len() {
            assert(old_entries[i].0@ != old_entries[j].0@);
        } else {
            lemma_next_of(old_entries, i);
        }
    }
    let old_map = next_of(old_entries);
    let new_map = next_of(new_entries);
    let want = old_map.insert(kind, new_entries[at].1@);
    assert forall|k: Seq<char>| #[trigger] new_map.contains_key(k) <==> want.contains_key(k) by {
        if new_map.contains_key(k) {
            let i = choose|i: int| 0 <= i < new_entries.len() && #[trigger] new_entries[i].0@ == k;
            if i < old_entries.len() {
                assert(old_entries[i].0@ == k);
            }
        }
        if want.contains_key(k) {
            if k == kind {
                assert(new_entries[at].0@ == k);
            } else {
                let i = choose|i: int|
                    0 <= i < old_entries.len() && #[trigger] old_entries[i].0@ == k;
                assert(new_entries[i].0@ == k);
            }
        }
    }
    assert forall|k: Seq<char>| #[trigger] new_map.contains_key(k) implies new_map[k] == want[k] by {
        let i = choose|i: int| 0 <= i < new_entries.len() && #[trigger] new_entries[i].0@ == k;
        lemma_next_of(new_entries, i);
        if k == kind {
            lemma_next_of(new_entries, at);
        } else {
            lemma_next_of(old_entries, i);
        }
    }
    assert(new_map =~= want);
}

impl MarkdownBackend {
    #[verifier::type_invariant]
    spec fn one_generator_per_kind(self) -> bool {
        kinds_distinct(self.sequences@)
    }

    /// A backend with this configuration. Nothing is read or written.
    pub fn new(config: MarkdownConfig) -> (backend: Self)
        ensures
            backend@.config == config@,
            backend@.next == Map::<Seq<char>, u32>::empty(),
    {
        let backend = MarkdownBackend { config, sequences: Vec::new() };
        assert(backend@.next =~= Map::<Seq<char>, u32>::empty());
        backend
    }

    /// The configuration of this backend.
    pub fn config(&self) -> (config: &MarkdownConfig)
        ensures
            config@ == self@.config,
    {
        &self.config
    }

    /// Where the generator for a kind in upper case stands.
    fn find_sequence(&self, kind_upper: &String) -> (at: Option<usize>)
        ensures
            at matches Some(i) ==> i < self.sequences.len() && self.sequences[i as int].0@
                == kind_upper@,
            at is Some <==> self@.next.contains_key(kind_upper@),
    {
        let mut i: usize = 0;
        while i < self.sequences.len()
            invariant
                i <= self.sequences.len(),
                forall|j: int| 0 <= j < i ==> #[trigger] self.sequences[j].0@ != kind_upper@,
            decreases self.sequences.len() - i,
        {
            if self.sequences[i].0 == *kind_upper {
                assert(self.sequences@[i as int].0@ == kind_upper@);
                return Some(i);
            }
            i += 1;
        }
        None
    }

    /// Whether the file names of the directory of `kind`, which is
    /// [`Self::listing_dir`], are wanted before a sequence number can be handed
    /// out for it.
    pub fn needs_listing(&self, kind: &str) -> (yes: bool)
        ensures
            yes == !self@.next.contains_key(upper_text(kind@)),
    {
        self.find_sequence(&to_upper(kind)).is_none()
    }

    /// Hands out a sequence number for `kind`. Where none was asked for before,
    /// `names` are the file names of its directory.
    pub fn sequence_for(&mut self, kind: &str, names: &Vec<String>) -> (seq: u32)
        requires
            can_allocate(old(self)@, kind@, names.deep_view()),
        ensures
            seq == sequence_of(old(self)@, kind@, names.deep_view()),
            final(self)@ == after_allocation(old(self)@, kind@, names.deep_view()),
    {
        proof {
            use_type_invariant(&*self);
        }
        let kind_upper = to_upper(kind);
        let found = self.find_sequence(&kind_upper);
        let ghost before = self.sequences@;
        let mut entries: Vec<(String, SequenceGenerator)> = Vec::new();
        std::mem::swap(&mut self.sequences, &mut entries);
        let at: usize = match found {
            Some(at) => at,
            None => {
                let generator = SequenceGenerator::discover(names, kind_upper.as_str());
                entries.push((kind_upper, generator));
                entries.len() - 1
            },
        };
        let ghost kind_key = upper_text(kind@);
        assert(entries[at as int].0@ == kind_key);
        proof {
            if found is Some {
                lemma_next_of(before, at as int);
            }
        }
        let seq: u32 = entries[at].1.next();
        proof {
            lemma_next_of_update(before, entries@, at as int);
        }
        self.sequences = entries;
        assert(self@ =~= after_allocation(old(self)@, kind@, names.deep_view()));
        seq
    }
}

// ---------------------------------------------------------------- finding files

impl MarkdownBackend {
    /// The native id of a subject id: what follows the prefix.
    pub fn native_id(&self, id: &SubjectId) -> (native: Result<String, BackendError>)
        ensures
            match native {
                Ok(text) => native_of(self@.config, id@) == Ok::<_, ErrorView>(text@),
                Err(error) => native_of(self@.config, id@) == Err::<Seq<char>, _>(error@),
            },
    {
        match strip_prefix(id.as_str(), self.config.id_prefix.as_str()) {
            Some(native) => Ok(native),
            None => Err(
                BackendError::InvalidRequest(
                    foreign_id_message(
                        debug(id.as_str()).as_str(),
                        self.config.id_prefix.as_str(),
                    ),
                ),
            ),
        }
    }

    /// The first configured kind that differs from `kind` in ASCII case at
    /// most; `kind` itself where there is none.
    fn find_kind(&self, kind: String) -> (found: String)
        ensures
            found@ == configured_kind(self@.config.kinds, kind@),
    {
        let ghost all = self.config.kinds.deep_view();
        let mut i: usize = 0;
        assert(all.skip(0) =~= all);
        while i < self.config.kinds.len()
            invariant
                i <= self.config.kinds.len(),
                all == self.config.kinds.deep_view(),
                configured_kind(all, kind@) == configured_kind(all.skip(i as int), kind@),
            decreases self.config.kinds.len() - i,
        {
            assert(all.skip(i as int)[0] == self.config.kinds[i as int]@);
            assert(all.skip(i as int).skip(1) =~= all.skip(i + 1));
            if same_text_ignoring_case(self.config.kinds[i].as_str(), kind.as_str()) {
                return self.config.kinds[i].clone();
            }
            i += 1;
        }
        kind
    }

    /// The path of the file of a subject.
    pub fn path_for(&self, id: &SubjectId) -> (path: Result<String, BackendError>)
        ensures
            match path {
                Ok(text) => subject_path(self@.config, id@) == Ok::<_, ErrorView>(text@),
                Err(error) => subject_path(self@.config, id@) == Err::<Seq<char>, _>(error@),
            },
    {
        let native = match self.native_id(id) {
            Ok(native) => native,
            Err(error) => return Err(error),
        };
        let kind_upper = match split_native(native.as_str()) {
            Ok((kind_upper, _)) => kind_upper,
            Err(error) => return Err(error),
        };
        let kind = self.find_kind(to_lower(kind_upper.as_str()));
        proof {
            reveal_strlit(".md");
            assert(".md"@ =~= md());
        }
        let name = joined(native.as_str(), ".md");
        Ok(join(self.config.kind_dir(kind.as_str()).as_str(), name.as_str()))
    }

    /// The directory of the subjects of `kind`: that of the first configured
    /// kind that differs from it in ASCII case at most.
    pub fn listing_dir(&self, kind: &str) -> (dir: String)
        ensures
            dir@ == kind_path(self@.config, configured_kind(self@.config.kinds, kind@)),
    {
        let configured = self.find_kind(kind.to_owned());
        self.config.kind_dir(configured.as_str())
    }

    /// Whether one of the configured kinds differs from `kind` in ASCII case at
    /// most.
    pub fn has_kind(&self, kind: &str) -> (yes: bool)
        ensures
            yes == is_configured(self@.config.kinds, kind@),
    {
        let ghost all = self.config.kinds.deep_view();
        let mut i: usize = 0;
        while i < self.config.kinds.len()
            invariant
                i <= self.config.kinds.len(),
                all == self.config.kinds.deep_view(),
                forall|j: int| 0 <= j < i ==> !same_ignoring_case(#[trigger] all[j], kind@),
            decreases self.config.kinds.len() - i,
        {
            assert(all[i as int] == self.config.kinds[i as int]@);
            if same_text_ignoring_case(self.config.kinds[i].as_str(), kind) {
                return true;
            }
            i += 1;
        }
        false
    }
}

// ---------------------------------------------------------------- creating

/// The path of the file with this sequence number in the directory of a kind.
pub open spec fn created_path(config: ConfigView, kind: Seq<char>, seq: u32) -> Seq<char> {
    join_path(kind_path(config, kind), file_name_text(upper_text(kind), seq))
}

/// The id of a new subject.
pub open spec fn created_id(config: ConfigView, kind: Seq<char>, seq: u32) -> Seq<char> {
    config.id_prefix + native_text(upper_text(kind), seq)
}

/// The body of a new subject with this description.
pub open spec fn created_body(description: Option<Seq<char>>) -> Seq<char> {
    match description {
        Some(d) if d.len() > 0 => d.push('\n'),
        _ => seq!['\n'],
    }
}

/// The document of a new subject.
pub open spec fn created_doc(
    config: ConfigView,
    kind: Seq<char>,
    title: Seq<char>,
    description: Option<Seq<char>>,
    seq: u32,
    now: Timestamp,
) -> DocView {
    DocView {
        frontmatter: plain_frontmatter(
            created_id(config, kind, seq),
            kind,
            title,
            SubjectStatus::Ready,
            now,
            now,
        ),
        body: created_body(description),
    }
}

/// What is said of a kind that is not configured.
pub open spec fn unknown_kind(config: ConfigView, kind: Seq<char>) -> ErrorView {
    ErrorView::InvalidRequest(
        unknown_kind_text(
            debug_text(kind),
            config.kinds.map_values(|k: Seq<char>| debug_text(k)),
        ),
    )
}

/// What writing a document to a path comes to: the steps to take, which write a
/// text that can be read back, and the subject; or that the document could not
/// be rendered.
pub open spec fn written(
    path: Seq<char>,
    doc: DocView,
    outcome: Result<(Vec<FileStep>, Subject), BackendError>,
) -> bool {
    match document_text(doc) {
        Ok(text) => outcome matches Ok((steps, subject)) && steps_view(steps@) == atomic_steps(
            path,
            text,
        ) && is_readable(frontmatter_text(doc.frontmatter)->Ok_0) && subject@ == subject_of(doc),
        Err(_) => outcome matches Err(error) && error@ == ErrorView::Other(
            seq!["serialize frontmatter"@],
        ),
    }
}

/// What writing `doc` to `path` comes to.
pub fn write_document(path: &str, doc: MarkdownDoc) -> (outcome: Result<
    (Vec<FileStep>, Subject),
    BackendError,
>)
    ensures
        written(path@, doc@, outcome),
{
    match render_and_write(path, &doc) {
        Ok(steps) => Ok((steps, subject_from_doc(doc))),
        Err(_) => {
            let mut messages: Vec<String> = Vec::new();
            messages.push("serialize frontmatter".to_owned());
            assert(messages.deep_view() =~= seq!["serialize frontmatter"@]);
            Err(BackendError::Other(messages))
        },
    }
}

impl MarkdownBackend {
    /// The configured kinds, as they are shown in messages.
    fn shown_kinds(&self) -> (shown: Vec<String>)
        ensures
            shown.deep_view() == self@.config.kinds.map_values(|k: Seq<char>| debug_text(k)),
    {
        let ghost want = self.config.kinds.deep_view().map_values(|k: Seq<char>| debug_text(k));
        let mut shown: Vec<String> = Vec::new();
        let mut i: usize = 0;
        while i < self.config.kinds.len()
            invariant
                i <= self.config.kinds.len(),
                want == self.config.kinds.deep_view().map_values(|k: Seq<char>| debug_text(k)),
                shown.deep_view() == want.take(i as int),
            decreases self.config.kinds.len() - i,
        {
            let ghost before = shown.deep_view();
            let one = debug(self.config.kinds[i].as_str());
            shown.push(one);
            assert(shown.deep_view() =~= before.push(one@));
            assert(want.take(i + 1) =~= want.take(i as int).push(one@));
            i += 1;
        }
        assert(shown.deep_view() =~= want);
        shown
    }

    /// Creates a subject of `kind`: hands out the next id, and gives the steps
    /// that write its file and the subject itself. The file stands in the
    /// directory of the configured kind, whatever the case in which the kind is
    /// given. `names` are the file names of that directory, where they are
    /// wanted; `now` is the time.
    pub fn create_subject(
        &mut self,
        kind: &str,
        title: &str,
        description: Option<String>,
        names: &Vec<String>,
        now: Timestamp,
    ) -> (outcome: Result<(Vec<FileStep>, Subject), BackendError>)
        requires
            is_configured(old(self)@.config.kinds, kind@) ==> can_allocate(
                old(self)@,
                kind@,
                names.deep_view(),
            ),
        ensures
            !is_configured(old(self)@.config.kinds, kind@) ==> final(self)@ == old(self)@ && (
            outcome matches Err(error) && error@ == unknown_kind(old(self)@.config, kind@)),
            is_configured(old(self)@.config.kinds, kind@) ==> final(self)@ == after_allocation(
                old(self)@,
                kind@,
                names.deep_view(),
            ) && ({
                let config = old(self)@.config;
                let seq = sequence_of(old(self)@, kind@, names.deep_view());
                written(
                    created_path(config, configured_kind(config.kinds, kind@), seq),
                    created_doc(config, kind@, title@, opt_text(description), seq, now),
                    outcome,
                )
            }),
    {
        if !self.has_kind(kind) {
            return Err(
                BackendError::InvalidRequest(
                    unknown_kind_message(debug(kind).as_str(), &self.shown_kinds()),
                ),
            );
        }
        let kind_upper = to_upper(kind);
        let seq: u32 = self.sequence_for(kind, names);
        let native = native_id(kind_upper.as_str(), seq);
        let id = joined(self.config.id_prefix.as_str(), native.as_str());
        let frontmatter = Frontmatter::new(
            id.as_str(),
            kind,
            title,
            SubjectStatus::Ready,
            now,
            now,
        );
        let mut body = match &description {
            Some(text) => text.clone(),
            None => String::new(),
        };
        body.push('\n');
        assert(body@ =~= created_body(opt_text(description)));
        let name = file_name_for(kind_upper.as_str(), seq);
        let path = join(self.listing_dir(kind).as_str(), name.as_str());
        proof {
            lemma_configured_kind_is_the_kind(self@.config.kinds, kind@);
        }
        write_document(path.as_str(), MarkdownDoc { frontmatter, body })
    }
}

// ---------------------------------------------------------------- reading

/// What is said of a file that could not be read from disk.
pub open spec fn unreadable(path: Seq<char>, why: Seq<char>) -> ErrorView {
    ErrorView::Other(seq![failed_text("read "@, path, why)])
}

/// What is said of a file that could not be parsed.
pub open spec fn unparsable(path: Seq<char>, error: ParseError) -> ErrorView {
    ErrorView::Other(seq!["parse "@ + path] + parse_error_texts(error))
}

/// What a file comes to, given what the parser made of its text.
pub open spec fn described(
    path: Seq<char>,
    doc: Result<MarkdownDoc, ParseError>,
    outcome: Result<Subject, BackendError>,
) -> bool {
    match doc {
        Ok(d) => outcome matches Ok(subject) && subject@ == subject_of(d@),
        Err(error) => outcome matches Err(e) && e@ == unparsable(path, error),
    }
}

/// What a file comes to, given its text, or why it could not be read.
pub open spec fn reads_to<F: FnOnce(String) -> Result<Frontmatter, String>>(
    path: Seq<char>,
    raw: Result<String, String>,
    decode: F,
    outcome: Result<Subject, BackendError>,
) -> bool {
    match raw {
        Err(why) => outcome matches Err(error) && error@ == unreadable(path, why@),
        Ok(text) => exists|doc: Result<MarkdownDoc, ParseError>|
            #[trigger] parses_to(decode, text@, doc) && described(path, doc, outcome),
    }
}

/// The error of a file that could not be parsed.
fn parse_failure(path: &str, error: ParseError) -> (failure: BackendError)
    ensures
        failure@ == unparsable(path@, error),
{
    let mut messages: Vec<String> = Vec::new();
    messages.push(joined("parse ", path));
    let mut causes = error.messages();
    messages.append(&mut causes);
    assert(messages.deep_view() =~= seq!["parse "@ + path@] + parse_error_texts(error));
    BackendError::Other(messages)
}

/// The subject of the file at `path`, given what the parser made of its text.
pub fn describe(path: &str, doc: Result<MarkdownDoc, ParseError>) -> (outcome: Result<
    Subject,
    BackendError,
>)
    ensures
        described(path@, doc, outcome),
{
    match doc {
        Ok(d) => Ok(subject_from_doc(d)),
        Err(error) => Err(parse_failure(path, error)),
    }
}

/// What is on disk where a subject should be: nothing, or a file that was read
/// or could not be.
pub type Found = Option<Result<String, String>>;

/// What a request for a subject comes to.
pub open spec fn gets<F: FnOnce(String) -> Result<Frontmatter, String>>(
    config: ConfigView,
    id: Seq<char>,
    found: Found,
    decode: F,
    outcome: Result<Subject, BackendError>,
) -> bool {
    match subject_path(config, id) {
        Err(error) => outcome matches Err(e) && e@ == error,
        Ok(path) => match found {
            None => outcome matches Err(e) && e@ == ErrorView::NotFound(id),
            Some(raw) => reads_to(path, raw, decode, outcome),
        },
    }
}

/// A document once a patch was applied at a time.
pub open spec fn updated_doc(doc: DocView, patch: PatchView, now: Timestamp) -> DocView {
    let new = patched(doc, patch);
    DocView {
        frontmatter: FrontmatterView { updated_at: now, ..new.frontmatter },
        body: new.body,
    }
}

/// What a change of a file comes to, given what the parser made of its text.
pub open spec fn rewritten(
    path: Seq<char>,
    doc: Result<MarkdownDoc, ParseError>,
    patch: PatchView,
    now: Timestamp,
    outcome: Result<(Vec<FileStep>, Subject), BackendError>,
) -> bool {
    match doc {
        Ok(d) => written(path, updated_doc(d@, patch, now), outcome),
        Err(error) => outcome matches Err(e) && e@ == unparsable(path, error),
    }
}

/// What a request to change a subject comes to.
pub open spec fn updates<F: FnOnce(String) -> Result<Frontmatter, String>>(
    config: ConfigView,
    id: Seq<char>,
    patch: PatchView,
    found: Found,
    now: Timestamp,
    decode: F,
    outcome: Result<(Vec<FileStep>, Subject), BackendError>,
) -> bool {
    match subject_path(config, id) {
        Err(error) => outcome matches Err(e) && e@ == error,
        Ok(path) => match found {
            None => outcome matches Err(e) && e@ == ErrorView::NotFound(id),
            Some(Err(why)) => outcome matches Err(e) && e@ == unreadable(path, why@),
            Some(Ok(text)) => exists|doc: Result<MarkdownDoc, ParseError>|
                #[trigger] parses_to(decode, text@, doc) && rewritten(
                    path,
                    doc,
                    patch,
                    now,
                    outcome,
                ),
        },
    }
}

/// Changes the file at `path`, given what the parser made of its text: the
/// steps that write it and the subject as it then is.
pub fn rewrite(
    path: &str,
    doc: Result<MarkdownDoc, ParseError>,
    patch: &SubjectPatch,
    now: Timestamp,
) -> (outcome: Result<(Vec<FileStep>, Subject), BackendError>)
    ensures
        rewritten(path@, doc, patch@, now, outcome),
{
    match doc {
        Ok(d) => {
            let mut new = d;
            apply_patch(&mut new, patch);
            new.frontmatter.updated_at = now;
            assert(new@ =~= updated_doc(d@, patch@, now));
            write_document(path, new)
        },
        Err(error) => Err(parse_failure(path, error)),
    }
}

impl MarkdownBackend {
    /// The subject of the file at `path`, given its text, or why it could not
    /// be read. `decode` reads frontmatter.
    pub fn read_subject_at<F: FnOnce(String) -> Result<Frontmatter, String>>(
        &self,
        path: &str,
        raw: Result<String, String>,
        decode: F,
    ) -> (outcome: Result<Subject, BackendError>)
        requires
            forall|text: String| decode.requires((text,)),
        ensures
            reads_to(path@, raw, decode, outcome),
    {
        match raw {
            Ok(text) => {
                let doc = parse(text.as_str(), decode);
                describe(path, doc)
            },
            Err(why) => Err(io_failure("read ", path, why.as_str())),
        }
    }

    /// The subject with this id, given what is on disk at its path. `decode`
    /// reads frontmatter.
    pub fn get<F: FnOnce(String) -> Result<Frontmatter, String>>(
        &self,
        id: &SubjectId,
        found: Found,
        decode: F,
    ) -> (outcome: Result<Subject, BackendError>)
        requires
            forall|text: String| decode.requires((text,)),
        ensures
            gets(self@.config, id@, found, decode, outcome),
    {
        let path = match self.path_for(id) {
            Ok(path) => path,
            Err(error) => return Err(error),
        };
        match found {
            Some(raw) => self.read_subject_at(path.as_str(), raw, decode),
            None => Err(BackendError::NotFound(id.as_str().to_owned())),
        }
    }

    /// Changes the subject with this id, given what is on disk at its path: the
    /// steps that write its file and the subject as it then is. `now` is the
    /// time; `decode` reads frontmatter.
    pub fn update<F: FnOnce(String) -> Result<Frontmatter, String>>(
        &self,
        id: &SubjectId,
        patch: &SubjectPatch,
        found: Found,
        now: Timestamp,
        decode: F,
    ) -> (outcome: Result<(Vec<FileStep>, Subject), BackendError>)
        requires
            forall|text: String| decode.requires((text,)),
        ensures
            updates(self@.config, id@, patch@, found, now, decode, outcome),
    {
        let path = match self.path_for(id) {
            Ok(path) => path,
            Err(error) => return Err(error),
        };
        match found {
            Some(Ok(text)) => {
                let doc = parse(text.as_str(), decode);
                rewrite(path.as_str(), doc, patch, now)
            },
            Some(Err(why)) => Err(io_failure("read ", path.as_str(), why.as_str())),
            None => Err(BackendError::NotFound(id.as_str().to_owned())),
        }
    }
}

/// A subject that was written is read back as it was, by every decoder that
/// reads its frontmatter text back.
pub proof fn law_written_subject_reads_back<F: FnOnce(String) -> Result<Frontmatter, String>>(
    path: Seq<char>,
    doc: DocView,
    yaml: Seq<char>,
    raw: String,
    decode: F,
    outcome: Result<Subject, BackendError>,
)
    requires
        frontmatter_text(doc.frontmatter) == Ok::<_, RenderError>(yaml),
        is_readable(yaml),
        blank_text(doc.body) || !has_cr_ending(doc.body),
        reads_back(decode, yaml, doc.frontmatter),
        document_text(doc) == Ok::<_, RenderError>(raw@),
        reads_to(path, Ok(raw), decode, outcome),
    ensures
        outcome matches Ok(subject) && subject@ == subject_of(doc),
{
    let read = choose|read: Result<MarkdownDoc, ParseError>|
        #[trigger] parses_to(decode, raw@, read) && described(path, read, outcome);
    assert(raw@ == file_text(yaml, doc.body));
    law_rendered_parses_back(doc, yaml, decode, read);
    law_subject_survives_writing(doc);
}

/// The file of a new subject is where the subject is looked for by its id.
pub proof fn law_created_subject_is_found(config: ConfigView, kind: Seq<char>, seq: u32)
    requires
        kind.len() > 0,
        is_configured(config.kinds, kind),
    ensures
        subject_path(config, created_id(config, kind, seq)) == Ok::<_, ErrorView>(
            created_path(config, configured_kind(config.kinds, kind), seq),
        ),
{
    let id = created_id(config, kind, seq);
    let native = native_text(upper_text(kind), seq);
    assert(config.id_prefix =~= id.take(config.id_prefix.len() as int));
    assert(id.skip(config.id_prefix.len() as int) =~= native);
    law_native_id_splits(upper_text(kind), seq);
    lemma_case_does_not_matter(kind);
    lemma_configured_kind(config.kinds, kind, lower_text(upper_text(kind)));
    lemma_configured_kind_is_the_kind(config.kinds, kind);
}

/// A new subject is what a request for its id gives once its file is written, by
/// every decoder that reads its frontmatter text back.
pub proof fn law_created_subject_is_got<F: FnOnce(String) -> Result<Frontmatter, String>>(
    config: ConfigView,
    kind: Seq<char>,
    title: Seq<char>,
    description: Option<Seq<char>>,
    seq: u32,
    now: Timestamp,
    created: Result<(Vec<FileStep>, Subject), BackendError>,
    disk: Disk,
    raw: String,
    decode: F,
    outcome: Result<Subject, BackendError>,
)
    requires
        kind.len() > 0,
        is_configured(config.kinds, kind),
        description matches Some(d) ==> blank_text(d) || !has_cr_ending(d),
        created is Ok,
        ({
            let doc = created_doc(config, kind, title, description, seq, now);
            let path = created_path(config, configured_kind(config.kinds, kind), seq);
            &&& written(path, doc, created)
            &&& reads_back(decode, frontmatter_text(doc.frontmatter)->Ok_0, doc.frontmatter)
        }),
        ({
            let id = created_id(config, kind, seq);
            let after = after_steps(disk, steps_view(created->Ok_0.0@));
            &&& raw@ == after[subject_path(config, id)->Ok_0]
            &&& gets(config, id, Some(Ok(raw)), decode, outcome)
        }),
    ensures
        outcome matches Ok(subject) && subject@ == created->Ok_0.1@,
{
    let doc = created_doc(config, kind, title, description, seq, now);
    let path = created_path(config, configured_kind(config.kinds, kind), seq);
    let yaml = frontmatter_text(doc.frontmatter)->Ok_0;
    let text = file_text(yaml, doc.body);
    law_created_subject_is_found(config, kind, seq);
    law_write_changes_one_file(disk, path, text);
    assert(raw@ == text);
    if let Some(d) = description {
        if d.len() > 0 && !blank_text(d) {
            let body = doc.body;
            assert forall|i: int| 0 <= i < body.len() - 1 && #[trigger] body[i] == '\r' implies body[i
                + 1] != '\n' by {
                assert(d[i] == '\r');
                if i < d.len() - 1 {
                    assert(d[i + 1] == body[i + 1]);
                }
            }
        }
    }
    law_written_subject_reads_back(path, doc, yaml, raw, decode, outcome);
}

/// A changed subject is what its file then holds, by every decoder that reads
/// its frontmatter text back: the frontmatter with the changes made, and the
/// body in its normal form, which without a comment is that of the body before.
/// No other file is touched.
pub proof fn law_updated_subject_is_read<F: FnOnce(String) -> Result<Frontmatter, String>>(
    path: Seq<char>,
    doc: MarkdownDoc,
    patch: PatchView,
    now: Timestamp,
    updated: Result<(Vec<FileStep>, Subject), BackendError>,
    disk: Disk,
    decode: F,
    read: Result<MarkdownDoc, ParseError>,
)
    requires
        rewritten(path, Ok(doc), patch, now, updated),
        updated is Ok,
        ({
            let new = updated_doc(doc@, patch, now);
            let after = after_steps(disk, steps_view(updated->Ok_0.0@));
            &&& reads_back(decode, frontmatter_text(new.frontmatter)->Ok_0, new.frontmatter)
            &&& parses_to(decode, after[path], read)
        }),
    ensures
        ({
            let new = updated_doc(doc@, patch, now);
            let after = after_steps(disk, steps_view(updated->Ok_0.0@));
            &&& read matches Ok(again) && again@ == (DocView {
                frontmatter: new.frontmatter,
                body: normal_body(new.body),
            })
            &&& patch.comment is None ==> read->Ok_0.body@ == normal_body(doc.body@)
            &&& blank_text(new.body) || !has_cr_ending(new.body) ==> updated->Ok_0.1@ == subject_of(
                read->Ok_0@,
            )
            &&& forall|other: Seq<char>|
                other != path && other != tmp_path(path) ==> (#[trigger] after.contains_key(other)
                    == disk.contains_key(other)) && after[other] == disk[other]
        }),
{
    let new = updated_doc(doc@, patch, now);
    let yaml = frontmatter_text(new.frontmatter)->Ok_0;
    law_write_changes_one_file(disk, path, file_text(yaml, new.body));
    law_rendered_parses_back(new, yaml, decode, read);
    if blank_text(new.body) || !has_cr_ending(new.body) {
        law_subject_survives_writing(new);
    }
}

/// The file of the first new subject of a kind is none of those that are
/// already there, and its number is larger than all of theirs; each further one
/// is one larger, gaps or not.
pub proof fn law_ids_are_sequential(
    backend: BackendView,
    kind: Seq<char>,
    names: Seq<Seq<char>>,
    later: Seq<Seq<char>>,
)
    requires
        can_allocate(backend, kind, names),
    ensures
        !backend.next.contains_key(upper_text(kind)) ==> !names.contains(
            file_name_text(upper_text(kind), sequence_of(backend, kind, names)),
        ) && (forall|i: int|
            0 <= i < names.len() ==> (#[trigger] sequence_in(names[i], upper_text(kind)) matches Some(
                seq,
            ) ==> seq < sequence_of(backend, kind, names))),
        sequence_of(backend, kind, names) < u32::MAX ==> sequence_of(
            after_allocation(backend, kind, names),
            kind,
            later,
        ) == sequence_of(backend, kind, names) + 1,
{
    if !backend.next.contains_key(upper_text(kind)) {
        law_first_id_is_new(names, upper_text(kind));
    }
}

/// Handing out a number for one kind leaves those of other kinds alone.
pub proof fn law_kinds_are_independent(
    backend: BackendView,
    kind: Seq<char>,
    names: Seq<Seq<char>>,
    other: Seq<char>,
    other_names: Seq<Seq<char>>,
)
    requires
        !same_ignoring_case(kind, other),
    ensures
        sequence_of(after_allocation(backend, kind, names), other, other_names) == sequence_of(
            backend,
            other,
            other_names,
        ),
{
    if upper_text(kind) == upper_text(other) {
        lemma_case_does_not_matter(kind);
        lemma_case_does_not_matter(other);
    }
}

/// A change makes the time of the change the time of the last update, and keeps
/// the id, the kind, the title and the time of creation.
pub proof fn law_update_keeps_identity(doc: DocView, patch: PatchView, now: Timestamp)
    ensures
        ({
            let new = updated_doc(doc, patch, now).frontmatter;
            &&& new.updated_at == now
            &&& new.id == doc.frontmatter.id
            &&& new.kind == doc.frontmatter.kind
            &&& new.title == doc.frontmatter.title
            &&& new.created_at == doc.frontmatter.created_at
        }),
        patch.comment is None ==> updated_doc(doc, patch, now).body == doc.body,
{
}

/// A new subject has the description that it was created with, without the line
/// endings at its end; a blank one is none.
pub proof fn law_description_is_kept(description: Seq<char>)
    ensures
        description_of(created_body(Some(description))) == (if blank_text(description) {
            None
        } else {
            Some(trim_newlines(description))
        }),
        description_of(created_body(None)) is None,
{
    let body = created_body(Some(description));
    lemma_trim_newlines_push(description);
    if description.len() > 0 {
        if blank_text(description) {
            assert(blank_text(body));
        } else {
            let at = choose|at: int|
                0 <= at < description.len() && !is_white(#[trigger] description[at]);
            assert(body[at] == description[at]);
        }
    }
}

} // verus!
