//! Configuration.

use animus_subject_markdown::config::{
    MarkdownConfig, DEFAULT_ID_PREFIX, DEFAULT_KIND, DEFAULT_ROOT_REL, ENV_ID_PREFIX, ENV_KINDS,
    ENV_ROOT,
};

fn from_env(
    root: Option<&str>,
    kinds: Option<&str>,
    prefix: Option<&str>,
    cwd: Option<&str>,
) -> MarkdownConfig {
    let own = |s: Option<&str>| s.map(str::to_string);
    let absolute = root.is_some_and(|dir| dir.starts_with('/'));
    MarkdownConfig::from_env(own(root), absolute, own(kinds), own(prefix), own(cwd))
}

#[test]
fn new_builds_config() {
    let cfg = MarkdownConfig::new("/tmp/somewhere", vec!["task".into()], "markdown:");
    assert_eq!(cfg.root, "/tmp/somewhere");
    assert_eq!(cfg.kinds, vec!["task".to_string()]);
    assert_eq!(cfg.id_prefix, "markdown:");
    assert_eq!(cfg.kind_dir("task"), "/tmp/somewhere/task");
}

#[test]
fn names_of_variables_and_defaults() {
    assert_eq!(ENV_ROOT, "ANIMUS_MARKDOWN_ROOT");
    assert_eq!(ENV_KINDS, "ANIMUS_MARKDOWN_KINDS");
    assert_eq!(ENV_ID_PREFIX, "ANIMUS_MARKDOWN_ID_PREFIX");
    assert_eq!(DEFAULT_ROOT_REL, ".animus/subjects");
    assert_eq!(DEFAULT_KIND, "task");
    assert_eq!(DEFAULT_ID_PREFIX, "markdown:");
}

#[test]
fn every_variable_has_a_default() {
    let want = MarkdownConfig::new("/work/.animus/subjects", vec!["task".into()], "markdown:");
    assert_eq!(from_env(None, None, None, Some("/work")), want);
    assert_eq!(from_env(Some(""), Some(""), Some(""), Some("/work")), want);
    assert_eq!(from_env(None, Some(" , ,"), None, Some("/work")), want);
    assert_eq!(from_env(None, None, None, None).root, "./.animus/subjects");
}

#[test]
fn kinds_are_split_and_trimmed() {
    let cfg = from_env(None, Some(" task, issue ,,epic"), None, Some("/work"));
    assert_eq!(cfg.kinds, vec!["task", "issue", "epic"]);
}

#[test]
fn relative_roots_are_joined_to_the_working_directory() {
    assert_eq!(from_env(Some("notes/subjects"), None, None, Some("/work")).root, "/work/notes/subjects");
    assert_eq!(from_env(Some("/abs"), None, None, Some("/work")).root, "/abs");
    assert_eq!(from_env(Some("/abs"), None, Some("tasks:"), None).id_prefix, "tasks:");
}

#[test]
fn what_the_system_takes_for_absolute_is_kept() {
    let env = |root: &str, absolute: bool| {
        MarkdownConfig::from_env(Some(root.to_string()), absolute, None, None, Some("C:/work".into()))
    };
    assert_eq!(env("D:/notes", true).root, "D:/notes");
    assert_eq!(env("D:/notes", false).root, "C:/work/D:/notes");
    assert_eq!(env("notes", false).root, "C:/work/notes");
    assert_eq!(env("/abs", false).root, "/abs");
    assert_eq!(env("", true).root, "C:/work/.animus/subjects");
}

#[test]
fn clones_are_equal() {
    let cfg = from_env(Some("/abs"), Some("a,b"), Some("x:"), None);
    assert_eq!(cfg.clone(), cfg);
}
