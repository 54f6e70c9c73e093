//! Which files hold subjects, and which subjects are listed.

use crate::backend::{created_path, MarkdownBackend};
use crate::config::{kind_path, ConfigView};
use crate::error::{failed_text, io_failure, BackendError, ErrorView};
use crate::filter::{accepts, filter_subjects, subjects_view};
use crate::id_gen::{
    file_name_text, law_file_name_reads_back, md, parse_sequence, sequence_in,
};
use crate::ids::{configured_kind, is_configured, lemma_configured_kind_is_the_kind};
use crate::paths::{join, join_path};
use crate::subject::{Subject, SubjectFilter, SubjectView};
use crate::text::{to_upper, upper_text};
use crate::time::Timestamp;
use crate::writer::tmp;
use vstd::prelude::*;

verus! {

/// What looking into a directory gave.
#[derive(Debug, PartialEq, Eq)]
pub enum DirListing {
    /// There is no such directory.
    Missing,
    /// It could not be read, and why.
    Failed(String),
    /// The names of its entries.
    Names(Vec<String>),
}

/// What a [`DirListing`] says.
pub enum ListingView {
    Missing,
    Failed(Seq<char>),
    Names(Seq<Seq<char>>),
}

impl View for DirListing {
    type V = ListingView;

    open spec fn view(&self) -> ListingView {
        match *self {
            DirListing::Missing => ListingView::Missing,
            DirListing::Failed(why) => ListingView::Failed(why@),
            DirListing::Names(names) => ListingView::Names(names.deep_view()),
        }
    }
}

/// The paths of the subject files of a kind, given the names in its directory:
/// those that are the kind in upper case, `-`, a number and `.md`.
pub open spec fn subject_files(
    config: ConfigView,
    kind: Seq<char>,
    names: Seq<Seq<char>>,
) -> Seq<Seq<char>> {
    names.filter(|name: Seq<char>| sequence_in(name, upper_text(kind)) is Some).map_values(
        |name: Seq<char>| join_path(kind_path(config, kind), name),
    )
}

/// The subject files of the first `n` kinds, given what looking into the
/// directory of each gave. A directory that is missing has none.
pub open spec fn walked(config: ConfigView, listings: Seq<DirListing>, n: nat) -> Result<
    Seq<Seq<char>>,
    ErrorView,
>
    decreases n,
{
    if n == 0 {
        Ok(seq![])
    } else {
        let kind = config.kinds[n - 1];
        match walked(config, listings, (n - 1) as nat) {
            Err(error) => Err(error),
            Ok(files) => match listings[n - 1]@ {
                ListingView::Missing => Ok(files),
                ListingView::Failed(why) => Err(
                    ErrorView::Other(
                        seq![failed_text("read dir "@, kind_path(config, kind), why)],
                    ),
                ),
                ListingView::Names(names) => Ok(files + subject_files(config, kind, names)),
            },
        }
    }
}

/// An error stays an error, however many kinds follow.
proof fn lemma_walked_fails(config: ConfigView, listings: Seq<DirListing>, n: nat, all: nat)
    requires
        n <= all,
        walked(config, listings, n) is Err,
    ensures
        walked(config, listings, all) == walked(config, listings, n),
    decreases all,
{
    if n < all {
        lemma_walked_fails(config, listings, n, (all - 1) as nat);
    }
}

/// The subjects among what reading files gave; files that could not be read are
/// passed over.
pub open spec fn readable(read: Seq<Result<Subject, BackendError>>) -> Seq<SubjectView>
    decreases read.len(),
{
    if read.len() == 0 {
        seq![]
    } else {
        match read.last() {
            Ok(subject) => readable(read.drop_last()).push(subject@),
            Err(_) => readable(read.drop_last()),
        }
    }
}

/// A page of subjects.
#[derive(Debug)]
pub struct SubjectList {
    pub subjects: Vec<Subject>,
    /// Where the next page starts; `None` on the last page.
    pub next_cursor: Option<String>,
    /// When the page was made.
    pub fetched_at: Timestamp,
}

/// The subjects among what reading files gave; files that could not be read are
/// passed over.
pub fn keep_readable(read: Vec<Result<Subject, BackendError>>) -> (subjects: Vec<Subject>)
    ensures
        subjects_view(subjects@) == readable(read@),
{
    let ghost input = read@;
    let mut subjects: Vec<Subject> = Vec::new();
    assert(subjects_view(subjects@) =~= readable(input.take(0)));
    for one in it: read
        invariant
            it.seq() == input,
            subjects_view(subjects@) == readable(input.take(it.index())),
    {
        let ghost before = subjects@;
        let ghost cut = input.take(it.index() + 1);
        assert(cut.drop_last() =~= input.take(it.index()));
        assert(cut.last() == one);
        if let Ok(subject) = one {
            subjects.push(subject);
            assert(subjects_view(subjects@) =~= subjects_view(before).push(subject@));
        }
    }
    assert(input.take(input.len() as int) =~= input);
    subjects
}

impl MarkdownBackend {
    /// The directories to look into for subjects: one for each configured kind,
    /// in their order.
    pub fn kind_dirs(&self) -> (dirs: Vec<String>)
        ensures
            dirs.deep_view() == self@.config.kinds.map_values(
                |kind: Seq<char>| kind_path(self@.config, kind),
            ),
    {
        let config = self.config();
        let ghost want = self@.config.kinds.map_values(
            |kind: Seq<char>| kind_path(self@.config, kind),
        );
        let mut dirs: Vec<String> = Vec::new();
        let mut i: usize = 0;
        while i < config.kinds.len()
            invariant
                i <= config.kinds.len(),
                config@ == self@.config,
                want == self@.config.kinds.map_values(
                    |kind: Seq<char>| kind_path(self@.config, kind),
                ),
                dirs.deep_view() == want.take(i as int),
            decreases config.kinds.len() - i,
        {
            let ghost before = dirs.deep_view();
            let dir = config.kind_dir(config.kinds[i].as_str());
            dirs.push(dir);
            assert(dirs.deep_view() =~= before.push(dir@));
            assert(want.take(i + 1) =~= want.take(i as int).push(dir@));
            i += 1;
        }
        assert(dirs.deep_view() =~= want);
        dirs
    }

    /// The paths of the subject files of `kind` among the names in its
    /// directory.
    fn files_of_kind(&self, kind: &str, names: &Vec<String>) -> (files: Vec<String>)
        ensures
            files.deep_view() == subject_files(self@.config, kind@, names.deep_view()),
    {
        let kind_upper = to_upper(kind);
        let dir = self.config().kind_dir(kind);
        let ghost all = names.deep_view();
        let ghost config = self@.config;
        let mut files: Vec<String> = Vec::new();
        let mut i: usize = 0;
        assert(subject_files(config, kind@, all.take(0)) =~= seq![]) by {
            reveal(Seq::filter);
        }
        while i < names.len()
            invariant
                i <= names.len(),
                all == names.deep_view(),
                kind_upper@ == upper_text(kind@),
                dir@ == kind_path(config, kind@),
                files.deep_view() == subject_files(config, kind@, all.take(i as int)),
            decreases names.len() - i,
        {
            let ghost before = files.deep_view();
            let ghost cut = all.take(i + 1);
            let ghost wanted = |name: Seq<char>| sequence_in(name, upper_text(kind@)) is Some;
            proof {
                assert(cut.drop_last() =~= all.take(i as int));
                assert(cut.last() == names[i as int]@);
                reveal(Seq::filter);
            }
            if parse_sequence(names[i].as_str(), kind_upper.as_str()).is_some() {
                let path = join(dir.as_str(), names[i].as_str());
                files.push(path);
                assert(files.deep_view() =~= before.push(path@));
                assert(cut.filter(wanted) == all.take(i as int).filter(wanted).push(cut.last()));
            }
            assert(files.deep_view() =~= subject_files(config, kind@, cut));
            i += 1;
        }
        assert(all.take(names.len() as int) =~= all);
        files
    }

    /// The paths of all subject files, given what looking into the directory of
    /// each configured kind gave, in the order of [`Self::kind_dirs`].
    pub fn walk_all(&self, listings: &Vec<DirListing>) -> (files: Result<
        Vec<String>,
        BackendError,
    >)
        requires
            listings.len() == self@.config.kinds.len(),
        ensures
            match files {
                Ok(paths) => walked(self@.config, listings@, listings@.len()) == Ok::<_, ErrorView>(
                    paths.deep_view(),
                ),
                Err(error) => walked(self@.config, listings@, listings@.len()) == Err::<
                    Seq<Seq<char>>,
                    _,
                >(error@),
            },
    {
        let config = self.config();
        let mut files: Vec<String> = Vec::new();
        let mut i: usize = 0;
        assert(files.deep_view() =~= seq![]);
        while i < listings.len()
            invariant
                i <= listings.len(),
                listings.len() == config.kinds.len(),
                config@ == self@.config,
                walked(config@, listings@, i as nat) == Ok::<_, ErrorView>(files.deep_view()),
            decreases listings.len() - i,
        {
            let ghost before = files.deep_view();
            assert(config@.kinds[i as int] == config.kinds[i as int]@);
            match &listings[i] {
                DirListing::Missing => {},
                DirListing::Failed(why) => {
                    let dir = config.kind_dir(config.kinds[i].as_str());
                    proof {
                        lemma_walked_fails(
                            config@,
                            listings@,
                            (i + 1) as nat,
                            listings@.len(),
                        );
                    }
                    return Err(io_failure("read dir ", dir.as_str(), why.as_str()));
                },
                DirListing::Names(names) => {
                    let mut more = self.files_of_kind(config.kinds[i].as_str(), names);
                    let ghost added = more.deep_view();
                    files.append(&mut more);
                    assert(files.deep_view() =~= before + added);
                },
            }
            i += 1;
        }
        Ok(files)
    }

    /// The page of subjects that `filter` asks for, given what reading all
    /// subject files gave. There is only one page; `now` is the time.
    pub fn list(
        &self,
        read: Vec<Result<Subject, BackendError>>,
        filter: &SubjectFilter,
        now: Timestamp,
    ) -> (page: SubjectList)
        ensures
            subjects_view(page.subjects@) == readable(read@).filter(
                |s: SubjectView| accepts(filter@, s),
            ),
            page.next_cursor is None,
            page.fetched_at == now,
    {
        SubjectList {
            subjects: filter_subjects(keep_readable(read), filter),
            next_cursor: None,
            fetched_at: now,
        }
    }
}

/// A new subject is listed: the directory of its configured kind is looked into,
/// and its file is one of the subject files there.
pub proof fn law_created_subject_is_listed(
    config: ConfigView,
    kind: Seq<char>,
    names: Seq<Seq<char>>,
    seq: u32,
)
    requires
        is_configured(config.kinds, kind),
        names.contains(file_name_text(upper_text(kind), seq)),
    ensures
        config.kinds.contains(configured_kind(config.kinds, kind)),
        subject_files(config, configured_kind(config.kinds, kind), names).contains(
            created_path(config, configured_kind(config.kinds, kind), seq),
        ),
{
    let configured = configured_kind(config.kinds, kind);
    lemma_configured_kind_is_the_kind(config.kinds, kind);
    let name = file_name_text(upper_text(configured), seq);
    let wanted = |n: Seq<char>| sequence_in(n, upper_text(configured)) is Some;
    law_file_name_reads_back(upper_text(configured), seq);
    let i = choose|i: int| 0 <= i < names.len() && names[i] == name;
    names.lemma_filter_contains(wanted, i);
    let kept = names.filter(wanted);
    let j = choose|j: int| 0 <= j < kept.len() && kept[j] == name;
    assert(subject_files(config, configured, names)[j] == created_path(config, configured, seq));
}

/// A staging file is never listed.
pub proof fn law_staging_files_are_not_listed(name: Seq<char>, kind_upper: Seq<char>)
    ensures
        sequence_in(name + tmp(), kind_upper) is None,
{
    let staging = name + tmp();
    assert(staging.last() == tmp()[3]);
    if md().is_suffix_of(staging) {
        assert(staging.last() == md()[2]);
    }
}

/// A file that cannot be read hides no other: without it the list is the same.
pub proof fn law_broken_files_are_passed_over(
    before: Seq<Result<Subject, BackendError>>,
    error: BackendError,
    after: Seq<Result<Subject, BackendError>>,
)
    ensures
        readable(before.push(Err(error)) + after) == readable(before + after),
    decreases after.len(),
{
    let with = before.push(Err(error)) + after;
    let without = before + after;
    if after.len() == 0 {
        assert(with.drop_last() =~= before);
        assert(without =~= before);
    } else {
        let init = after.drop_last();
        assert(with.drop_last() =~= before.push(Err(error)) + init);
        assert(without.drop_last() =~= before + init);
        law_broken_files_are_passed_over(before, error, init);
    }
}

} // verus!
