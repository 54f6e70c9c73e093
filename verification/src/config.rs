//! Configuration from environment variables.

use crate::lines::{split, split_text};
use crate::paths::{join, join_path};
use crate::subject::opt_text;
use crate::text::{trim_text, trimmed};
use vstd::prelude::*;

verus! {

/// The environment variable with the directory of subject files. Default:
/// `<cwd>/.animus/subjects`. A relative path is joined to the working directory.
pub const ENV_ROOT: &'static str = "ANIMUS_MARKDOWN_ROOT";

/// The environment variable with the subject kinds, separated by commas.
/// Default: `task`.
pub const ENV_KINDS: &'static str = "ANIMUS_MARKDOWN_KINDS";

/// The environment variable with the prefix of subject ids. Default:
/// `markdown:`.
pub const ENV_ID_PREFIX: &'static str = "ANIMUS_MARKDOWN_ID_PREFIX";

/// The default directory of subject files, below the working directory.
pub const DEFAULT_ROOT_REL: &'static str = ".animus/subjects";

/// The default subject kind.
pub const DEFAULT_KIND: &'static str = "task";

/// The default prefix of subject ids.
pub const DEFAULT_ID_PREFIX: &'static str = "markdown:";

/// What a backend needs to know.
#[derive(Debug, PartialEq, Eq)]
pub struct MarkdownConfig {
    /// The directory of subject files.
    pub root: String,
    /// The kinds of subjects. Each has a directory of its own below the root.
    pub kinds: Vec<String>,
    /// What subject ids start with.
    pub id_prefix: String,
}

/// What a [`MarkdownConfig`] holds.
#[verifier::ext_equal]
pub struct ConfigView {
    pub root: Seq<char>,
    pub kinds: Seq<Seq<char>>,
    pub id_prefix: Seq<char>,
}

impl View for MarkdownConfig {
    type V = ConfigView;

    open spec fn view(&self) -> ConfigView {
        ConfigView {
            root: self.root@,
            kinds: self.kinds.deep_view(),
            id_prefix: self.id_prefix@,
        }
    }
}

impl Clone for MarkdownConfig {
    fn clone(&self) -> (copy: Self)
        ensures
            copy@ == self@,
    {
        let copy = MarkdownConfig {
            root: self.root.clone(),
            kinds: self.kinds.clone(),
            id_prefix: self.id_prefix.clone(),
        };
        assert(copy@ =~= self@) by {
            assert(copy.kinds.deep_view() =~= self.kinds.deep_view());
        }
        copy
    }
}

/// The directory of subjects of a kind.
pub open spec fn kind_path(config: ConfigView, kind: Seq<char>) -> Seq<char> {
    join_path(config.root, kind)
}

/// The texts of a list that are not empty, without the white space around them.
pub open spec fn kinds_in(parts: Seq<Seq<char>>) -> Seq<Seq<char>> {
    parts.map_values(|part: Seq<char>| trim_text(part)).filter(|kind: Seq<char>| kind.len() > 0)
}

/// The value of a variable, or a default where it is unset or empty.
pub open spec fn value_or(value: Option<Seq<char>>, default: Seq<char>) -> Seq<char> {
    match value {
        Some(v) if v.len() > 0 => v,
        _ => default,
    }
}

/// The kinds that a variable names; the default kind where it names none.
pub open spec fn kinds_from(value: Option<Seq<char>>) -> Seq<Seq<char>> {
    let kinds = kinds_in(split_text(value_or(value, seq![]), ','));
    if kinds.len() > 0 {
        kinds
    } else {
        seq![DEFAULT_KIND@]
    }
}

/// The root directory that a variable names: an absolute path as it is, another
/// one below the working directory, where the default is too.
pub open spec fn root_from(
    root: Option<Seq<char>>,
    root_is_absolute: bool,
    here: Seq<char>,
) -> Seq<char> {
    match root {
        Some(r) if r.len() > 0 => if root_is_absolute {
            r
        } else {
            join_path(here, r)
        },
        _ => join_path(here, DEFAULT_ROOT_REL@),
    }
}

/// The configuration that the values of the three variables and the working
/// directory make. An unknown working directory is taken as `.`.
pub open spec fn config_from(
    root: Option<Seq<char>>,
    root_is_absolute: bool,
    kinds: Option<Seq<char>>,
    id_prefix: Option<Seq<char>>,
    cwd: Option<Seq<char>>,
) -> ConfigView {
    let here = match cwd {
        Some(dir) => dir,
        None => seq!['.'],
    };
    ConfigView {
        root: root_from(root, root_is_absolute, here),
        kinds: kinds_from(kinds),
        id_prefix: value_or(id_prefix, DEFAULT_ID_PREFIX@),
    }
}

/// The value of a variable, or a default where it is unset or empty.
fn or_default(value: Option<String>, default: &str) -> (out: String)
    ensures
        out@ == value_or(opt_text(value), default@),
{
    match value {
        Some(v) => {
            if v.as_str().unicode_len() > 0 {
                v
            } else {
                default.to_owned()
            }
        },
        None => default.to_owned(),
    }
}

/// The kinds in a list that is separated by commas.
fn split_kinds(raw: &str) -> (kinds: Vec<String>)
    ensures
        kinds.deep_view() == kinds_in(split_text(raw@, ',')),
{
    let parts = split(raw, ',');
    let ghost all = parts.deep_view();
    let ghost full = |kind: Seq<char>| kind.len() > 0;
    let mut kinds: Vec<String> = Vec::new();
    let mut i: usize = 0;
    assert(kinds_in(all.take(0)) =~= seq![]) by {
        reveal(Seq::filter);
    }
    while i < parts.len()
        invariant
            i <= parts.len(),
            all == parts.deep_view(),
            full == (|kind: Seq<char>| kind.len() > 0),
            kinds.deep_view() == kinds_in(all.take(i as int)),
        decreases parts.len() - i,
    {
        let ghost before = kinds.deep_view();
        let kind = trimmed(parts[i].as_str());
        proof {
            let cut = all.take(i + 1).map_values(|part: Seq<char>| trim_text(part));
            assert(cut.drop_last() =~= all.take(i as int).map_values(
                |part: Seq<char>| trim_text(part),
            ));
            assert(cut.last() == kind@);
            reveal(Seq::filter);
        }
        if kind.as_str().unicode_len() > 0 {
            kinds.push(kind);
            assert(kinds.deep_view() =~= before.push(kind@));
        }
        i += 1;
    }
    assert(all.take(parts.len() as int) =~= all);
    kinds
}

impl MarkdownConfig {
    /// The configuration that environment variables make: their values, `None`
    /// where a variable is unset, whether the system takes the root for an
    /// absolute path, and the working directory, where it is known. Nothing is
    /// created on disk.
    pub fn from_env(
        root: Option<String>,
        root_is_absolute: bool,
        kinds: Option<String>,
        id_prefix: Option<String>,
        cwd: Option<String>,
    ) -> (config: Self)
        ensures
            config@ == config_from(
                opt_text(root),
                root_is_absolute,
                opt_text(kinds),
                opt_text(id_prefix),
                opt_text(cwd),
            ),
    {
        proof {
            reveal_strlit(".");
            assert("."@ =~= seq!['.']);
            reveal_strlit("");
            assert(""@ =~= seq![]);
        }
        let here = match cwd {
            Some(dir) => dir,
            None => ".".to_owned(),
        };
        let root = match root {
            Some(dir) => {
                if dir.as_str().unicode_len() == 0 {
                    join(here.as_str(), DEFAULT_ROOT_REL)
                } else if root_is_absolute {
                    dir
                } else {
                    join(here.as_str(), dir.as_str())
                }
            },
            None => join(here.as_str(), DEFAULT_ROOT_REL),
        };
        let raw = or_default(kinds, "");
        let mut names = split_kinds(raw.as_str());
        if names.len() == 0 {
            names.push(DEFAULT_KIND.to_owned());
            assert(names.deep_view() =~= seq![DEFAULT_KIND@]);
        }
        MarkdownConfig {
            root,
            kinds: names,
            id_prefix: or_default(id_prefix, DEFAULT_ID_PREFIX),
        }
    }

    /// The configuration with these values.
    pub fn new(root: &str, kinds: Vec<String>, id_prefix: &str) -> (config: Self)
        ensures
            config@ == (ConfigView {
                root: root@,
                kinds: kinds.deep_view(),
                id_prefix: id_prefix@,
            }),
    {
        MarkdownConfig { root: root.to_owned(), kinds, id_prefix: id_prefix.to_owned() }
    }

    /// The directory of subjects of `kind`.
    pub fn kind_dir(&self, kind: &str) -> (dir: String)
        ensures
            dir@ == kind_path(self@, kind@),
    {
        join(self.root.as_str(), kind)
    }
}

/// Whatever the environment holds, there is a kind and a prefix, and no kind is
/// empty.
pub proof fn law_environment_always_configures(
    root: Option<Seq<char>>,
    root_is_absolute: bool,
    kinds: Option<Seq<char>>,
    id_prefix: Option<Seq<char>>,
    cwd: Option<Seq<char>>,
)
    ensures
        config_from(root, root_is_absolute, kinds, id_prefix, cwd).kinds.len() > 0,
        forall|i: int|
            0 <= i < config_from(root, root_is_absolute, kinds, id_prefix, cwd).kinds.len() ==> (
            #[trigger] config_from(root, root_is_absolute, kinds, id_prefix, cwd).kinds[i]).len() > 0,
        config_from(root, root_is_absolute, kinds, id_prefix, cwd).id_prefix.len() > 0,
{
    reveal_strlit("task");
    reveal_strlit("markdown:");
    let parts = split_text(value_or(kinds, seq![]), ',').map_values(
        |part: Seq<char>| trim_text(part),
    );
    let full = |kind: Seq<char>| kind.len() > 0;
    let named = parts.filter(full);
    assert forall|i: int| 0 <= i < named.len() implies #[trigger] named[i].len() > 0 by {
        assert(full(named[i])) by {
            broadcast use vstd::seq_lib::group_filter_ensures;

        }
    }
}

/// An absolute root is taken as it is, wherever the process runs.
pub proof fn law_absolute_root_is_kept(
    root: Seq<char>,
    root_is_absolute: bool,
    kinds: Option<Seq<char>>,
    id_prefix: Option<Seq<char>>,
    cwd: Option<Seq<char>>,
)
    requires
        root.len() > 0,
        root_is_absolute || root[0] == '/',
    ensures
        config_from(Some(root), root_is_absolute, kinds, id_prefix, cwd).root == root,
{
}

} // verus!
