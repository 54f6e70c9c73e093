//! Requests to a backend, with a disk in memory.

use std::collections::BTreeMap;

use animus_subject_markdown::backend::{describe, rewrite, MarkdownBackend};
use animus_subject_markdown::config::MarkdownConfig;
use animus_subject_markdown::error::{
    empty_kind_message, failed_message, foreign_id_message, malformed_id_message,
    unknown_kind_message, BackendError,
};
use animus_subject_markdown::fields::FieldMap;
use animus_subject_markdown::filter::matches_filter;
use animus_subject_markdown::ids::split_native;
use animus_subject_markdown::json::JsonValue;
use animus_subject_markdown::listing::{keep_readable, DirListing, SubjectList};
use animus_subject_markdown::mapping::subject_from_doc;
use animus_subject_markdown::parser::{
    parse, Frontmatter, MarkdownDoc, MissingDelimiter, ParseError,
};
use animus_subject_markdown::patch::apply_patch;
use animus_subject_markdown::report::{probe_outcome, HealthStatus, RootProbe};
use animus_subject_markdown::subject::{
    Attachment, Subject, SubjectFilter, SubjectId, SubjectPatch, SubjectStatus,
};
use animus_subject_markdown::time::Timestamp;
use animus_subject_markdown::watcher::{classify, translate, ChangeKind, RawChange};
use animus_subject_markdown::writer::{render, tmp_path_for, FileStep};

const NOON: Timestamp = Timestamp { secs: 1779105600, nanos: 0 };
const LATER: Timestamp = Timestamp { secs: 1779111000, nanos: 250_000_000 };

const TASK_1: &str = "---
id: markdown:TASK-0001
kind: task
title: Fix the login bug
status: in-progress
priority: 3
assignee: alice@example.com
labels:
- auth
- p1
parent_id: null
created_at: 2026-05-18T12:00:00Z
updated_at: 2026-05-18T13:30:00Z
native_status: In Progress
dispatch_label: code-review
status_metadata: {}
attachments: []
custom_fields:
  cycle: 2026-Q2-cycle-1
---
# Fix the login bug

Description goes here.
";

const TASK_42: &str = "---
id: markdown:TASK-0042
kind: task
title: Write the report
status: ready
priority: null
assignee: null
labels: []
parent_id: markdown:TASK-0001
created_at: 2026-05-18T12:00:00Z
updated_at: 2026-05-18T12:00:00Z
native_status: null
dispatch_label: null
status_metadata: {}
attachments:
- kind: link
  url: https://example.com
custom_fields: {}
---
A body.

With a list:
- one
- two
";

fn json(value: &serde_yaml::Value) -> JsonValue {
    JsonValue::from_json(&serde_json::to_string(value).unwrap()).unwrap()
}

fn other(text: &str) -> JsonValue {
    JsonValue::from_json(text).unwrap()
}

fn attachment(value: &serde_yaml::Value) -> Attachment {
    let mut rest = Vec::new();
    for (k, v) in value.as_mapping().unwrap() {
        if k.as_str() != Some("kind") {
            rest.push((k.as_str().unwrap().to_string(), json(v)));
        }
    }
    Attachment::new(value.get("kind").unwrap().as_str().unwrap(), rest).unwrap()
}

/// Reads frontmatter with serde_yaml, field by field.
fn decode(text: String) -> Result<Frontmatter, String> {
    let all: serde_yaml::Value = serde_yaml::from_str(&text).map_err(|e| e.to_string())?;
    let must = |name: &str| -> Result<String, String> {
        match all.get(name).and_then(|v| v.as_str()) {
            Some(s) => Ok(s.to_string()),
            None => Err(format!("missing field `{name}`")),
        }
    };
    let time = |name: &str| -> Result<Timestamp, String> {
        let at = chrono::DateTime::parse_from_rfc3339(&must(name)?).map_err(|e| e.to_string())?;
        Ok(Timestamp { secs: at.timestamp(), nanos: at.timestamp_subsec_nanos() })
    };
    let may = |name: &str| all.get(name).and_then(|v| v.as_str()).map(str::to_string);
    let status = match must("status")?.as_str() {
        "ready" => SubjectStatus::Ready,
        "in-progress" => SubjectStatus::InProgress,
        "blocked" => SubjectStatus::Blocked,
        "done" => SubjectStatus::Done,
        "cancelled" => SubjectStatus::Cancelled,
        other => return Err(format!("unknown status {other}")),
    };
    let mut fm = Frontmatter::new(
        &must("id")?,
        &must("kind")?,
        &must("title")?,
        status,
        time("created_at")?,
        time("updated_at")?,
    );
    fm.priority = all.get("priority").and_then(|v| v.as_u64()).map(|p| p as u8);
    fm.assignee = may("assignee");
    fm.parent_id = may("parent_id");
    fm.native_status = may("native_status");
    fm.dispatch_label = may("dispatch_label");
    if let Some(labels) = all.get("labels").and_then(|v| v.as_sequence()) {
        fm.labels = labels.iter().map(|l| l.as_str().unwrap().to_string()).collect();
    }
    if let Some(value) = all.get("status_metadata") {
        fm.status_metadata = json(value);
    }
    if let Some(list) = all.get("attachments").and_then(|v| v.as_sequence()) {
        fm.attachments = list.iter().map(attachment).collect();
    }
    if let Some(map) = all.get("custom_fields").and_then(|v| v.as_mapping()) {
        for (k, v) in map {
            fm.custom_fields.insert(k.as_str().unwrap().to_string(), json(v));
        }
    }
    Ok(fm)
}

fn backend(kinds: &[&str]) -> MarkdownBackend {
    MarkdownBackend::new(MarkdownConfig::new(
        "/subjects",
        kinds.iter().map(|k| k.to_string()).collect(),
        "markdown:",
    ))
}

/// A disk in memory: files by their paths.
struct Disk {
    files: BTreeMap<String, String>,
}

impl Disk {
    fn with(files: &[(&str, &str)]) -> Disk {
        Disk {
            files: files.iter().map(|(p, t)| (p.to_string(), t.to_string())).collect(),
        }
    }

    fn take(&mut self, steps: &[FileStep]) {
        for step in steps {
            match step {
                FileStep::CreateDirs(_) => {}
                FileStep::Write(path, text) => {
                    self.files.insert(path.clone(), text.clone());
                }
                FileStep::Rename(from, to) => {
                    let text = self.files.remove(from).unwrap();
                    self.files.insert(to.clone(), text);
                }
                FileStep::Remove(path) => {
                    self.files.remove(path);
                }
            }
        }
    }

    fn find(&self, path: &str) -> Option<Result<String, String>> {
        self.files.get(path).map(|text| Ok(text.clone()))
    }

    fn names(&self, dir: &str) -> DirListing {
        let names: Vec<String> = self
            .files
            .keys()
            .filter_map(|path| path.strip_prefix(&format!("{dir}/")))
            .map(str::to_string)
            .collect();
        if names.is_empty() {
            DirListing::Missing
        } else {
            DirListing::Names(names)
        }
    }

    fn get(&self, backend: &MarkdownBackend, id: &str) -> Result<Subject, BackendError> {
        let id = SubjectId::new(id);
        let found = backend.path_for(&id).ok().and_then(|path| self.find(&path));
        backend.get(&id, found, decode)
    }

    fn update(
        &mut self,
        backend: &MarkdownBackend,
        id: &str,
        patch: &SubjectPatch,
    ) -> Result<Subject, BackendError> {
        let id = SubjectId::new(id);
        let found = backend.path_for(&id).ok().and_then(|path| self.find(&path));
        let (steps, subject) = backend.update(&id, patch, found, LATER, decode)?;
        self.take(&steps);
        Ok(subject)
    }

    fn create(
        &mut self,
        backend: &mut MarkdownBackend,
        kind: &str,
        title: &str,
        description: Option<&str>,
    ) -> Result<Subject, BackendError> {
        let names = match self.names(&backend.listing_dir(kind)) {
            DirListing::Names(names) if backend.needs_listing(kind) => names,
            _ => Vec::new(),
        };
        let description = description.map(str::to_string);
        let (steps, subject) = backend.create_subject(kind, title, description, &names, NOON)?;
        self.take(&steps);
        Ok(subject)
    }

    fn list(
        &self,
        backend: &MarkdownBackend,
        filter: &SubjectFilter,
    ) -> Result<SubjectList, BackendError> {
        let listings: Vec<DirListing> =
            backend.kind_dirs().iter().map(|dir| self.names(dir)).collect();
        let files = backend.walk_all(&listings)?;
        let read = files
            .iter()
            .map(|path| backend.read_subject_at(path, self.find(path).unwrap(), decode))
            .collect();
        Ok(backend.list(read, filter, LATER))
    }
}

#[test]
fn split_native_extracts_kind_and_seq() {
    let (kind, seq) = split_native("TASK-0001").unwrap();
    assert_eq!(kind, "TASK");
    assert_eq!(seq, 1);
}

#[test]
fn split_native_rejects_bad_ids() {
    assert!(split_native("TASK").is_err());
    assert!(split_native("-0001").is_err());
    assert!(split_native("TASK-abc").is_err());
}

#[test]
fn split_native_takes_the_last_dash() {
    assert_eq!(split_native("SUB-TASK-12").unwrap(), ("SUB-TASK".to_string(), 12));
    assert_eq!(split_native("TASK--1").unwrap(), ("TASK-".to_string(), 1));
    let invalid = |m: &str| BackendError::InvalidRequest(m.to_string());
    assert_eq!(split_native("TASK-").unwrap_err(), invalid("malformed id \"TASK-\""));
    assert_eq!(split_native("").unwrap_err(), invalid("malformed id \"\""));
    assert_eq!(split_native("a\"b").unwrap_err(), invalid("malformed id \"a\\\"b\""));
    assert_eq!(split_native("-7").unwrap_err(), invalid("malformed id \"-7\" (empty kind)"));
    assert_eq!(
        split_native("TASK-4294967296").unwrap_err(),
        invalid("malformed id \"TASK-4294967296\"")
    );
}

#[test]
fn messages_are_put_together() {
    assert_eq!(
        foreign_id_message("\"x\"", "markdown:"),
        "subject id \"x\" is not a markdown id (expected `markdown:` prefix)"
    );
    assert_eq!(malformed_id_message("<x>"), "malformed id <x>");
    assert_eq!(empty_kind_message("<x>"), "malformed id <x> (empty kind)");
    assert_eq!(unknown_kind_message("<x>", &vec![]), "kind <x> not in configured kinds []");
    assert_eq!(
        unknown_kind_message("<x>", &vec!["<a>".to_string(), "<b>".to_string()]),
        "kind <x> not in configured kinds [<a>, <b>]"
    );
    assert_eq!(failed_message("read ", "p", "why"), "read p: why");
}

#[test]
fn paths_follow_the_configured_spelling_of_kinds() {
    let b = backend(&["Task", "task", "Issue"]);
    let path = |id: &str| b.path_for(&SubjectId::new(id)).unwrap();
    assert_eq!(path("markdown:TASK-0001"), "/subjects/Task/TASK-0001.md");
    assert_eq!(path("markdown:issue-7"), "/subjects/Issue/issue-7.md");
    assert_eq!(path("markdown:OTHER-0003"), "/subjects/other/OTHER-0003.md");
    assert_eq!(b.native_id(&SubjectId::new("markdown:X")).unwrap(), "X");
}

#[test]
fn subjects_do_not_share_files() {
    let b = backend(&["task"]);
    let path = |id: &str| b.path_for(&SubjectId::new(id)).unwrap();
    assert_ne!(path("markdown:TASK-1"), path("markdown:TASK-0001"));
    assert_ne!(path("markdown:TASK-0001"), path("markdown:task-0001"));
}

#[test]
fn get_rejects_malformed_id() {
    let b = backend(&["task"]);
    let err = Disk::with(&[]).get(&b, "notmarkdown:WHATEVER").unwrap_err();
    assert!(matches!(err, BackendError::InvalidRequest(_)));
    assert_eq!(
        err,
        BackendError::InvalidRequest(
            "subject id \"notmarkdown:WHATEVER\" is not a markdown id (expected `markdown:` prefix)"
                .to_string()
        )
    );
}

#[test]
fn get_returns_not_found_for_missing_file() {
    let b = backend(&["task"]);
    let err = Disk::with(&[]).get(&b, "markdown:TASK-9999").unwrap_err();
    assert!(matches!(err, BackendError::NotFound(_)));
    assert_eq!(err, BackendError::NotFound("markdown:TASK-9999".to_string()));
    let patch = SubjectPatch::default();
    assert_eq!(Disk::with(&[]).update(&b, "markdown:TASK-9999", &patch).unwrap_err(), err);
}

#[test]
fn files_that_cannot_be_read_say_why() {
    let b = backend(&["task"]);
    let id = SubjectId::new("markdown:TASK-0001");
    let other = |m: &[&str]| BackendError::Other(m.iter().map(|s| s.to_string()).collect());
    let path = "/subjects/task/TASK-0001.md";
    let failed: Option<Result<String, String>> = Some(Err("denied".to_string()));
    assert_eq!(
        b.get(&id, failed.clone(), decode).unwrap_err(),
        other(&["read /subjects/task/TASK-0001.md: denied"])
    );
    assert_eq!(
        b.update(&id, &SubjectPatch::default(), failed, NOON, decode).unwrap_err(),
        other(&["read /subjects/task/TASK-0001.md: denied"])
    );
    let broken = Some(Ok("no frontmatter".to_string()));
    let want = other(&[
        "parse /subjects/task/TASK-0001.md",
        "missing opening `---` frontmatter delimiter",
    ]);
    assert_eq!(b.get(&id, broken.clone(), decode).unwrap_err(), want);
    assert_eq!(
        b.update(&id, &SubjectPatch::default(), broken, NOON, decode).unwrap_err(),
        want
    );
    assert_eq!(
        describe(path, Err(ParseError::Frontmatter("bad".to_string()))).unwrap_err(),
        other(&[
            "parse /subjects/task/TASK-0001.md",
            "failed to parse YAML frontmatter",
            "bad",
        ])
    );
    let closing = ParseError::Delimiter(MissingDelimiter::Closing);
    assert_eq!(
        rewrite(path, Err(closing), &SubjectPatch::default(), NOON).unwrap_err(),
        other(&[
            "parse /subjects/task/TASK-0001.md",
            "missing closing `---` frontmatter delimiter",
        ])
    );
}

#[test]
fn subjects_show_what_their_file_holds() {
    let disk = Disk::with(&[
        ("/subjects/task/TASK-0001.md", TASK_1),
        ("/subjects/task/TASK-0042.md", TASK_42),
    ]);
    let b = backend(&["task"]);
    let one = disk.get(&b, "markdown:TASK-0001").unwrap();
    assert_eq!(one.id.as_str(), "markdown:TASK-0001");
    assert_eq!(one.kind, "task");
    assert_eq!(one.title, "Fix the login bug");
    assert_eq!(
        one.description.as_deref(),
        Some("# Fix the login bug\n\nDescription goes here.")
    );
    assert_eq!(one.status, SubjectStatus::InProgress);
    assert_eq!(one.priority, Some(3));
    assert_eq!(one.assignee.as_deref(), Some("alice@example.com"));
    assert_eq!(one.labels, vec!["auth", "p1"]);
    assert_eq!(one.parent, None);
    assert!(one.children.is_empty());
    assert_eq!(one.url, None);
    assert_eq!(one.created_at, NOON);
    assert_eq!(one.updated_at, Timestamp { secs: 1779111000, nanos: 0 });
    assert_eq!(one.native_status.as_deref(), Some("In Progress"));
    assert_eq!(one.status_metadata, JsonValue::empty_object());
    assert_eq!(one.custom.get("cycle"), Some(&JsonValue::Text("2026-Q2-cycle-1".into())));
    assert_eq!(one.custom.get("dispatch_label"), Some(&JsonValue::Text("code-review".into())));
    let two = disk.get(&b, "markdown:TASK-0042").unwrap();
    assert_eq!(two.parent, Some(SubjectId::new("markdown:TASK-0001")));
    assert_eq!(two.attachments.len(), 1);
    assert_eq!(two.custom.get("dispatch_label"), None);
}

#[test]
fn a_custom_field_stands_before_the_dispatch_label() {
    let mut doc = parse(TASK_1, decode).unwrap();
    doc.frontmatter
        .custom_fields
        .insert("dispatch_label".into(), JsonValue::Text("own".into()));
    let subject = subject_from_doc(doc);
    assert_eq!(subject.custom.get("dispatch_label"), Some(&JsonValue::Text("own".into())));
}

#[test]
fn blank_bodies_have_no_description() {
    for (body, want) in [
        ("", None),
        ("\n", None),
        (" \t\r\n\u{a0}", None),
        ("x", Some("x")),
        ("\nx\n\n", Some("\nx")),
    ] {
        let mut doc = parse(TASK_42, decode).unwrap();
        doc.body = body.to_string();
        assert_eq!(subject_from_doc(doc).description.as_deref(), want);
    }
}

#[test]
fn body_preserved_through_update() {
    let mut disk = Disk::with(&[("/subjects/task/TASK-0001.md", TASK_1)]);
    let b = backend(&["task"]);
    let before = disk.get(&b, "markdown:TASK-0001").unwrap();
    let patch = SubjectPatch { status: Some(SubjectStatus::Done), ..SubjectPatch::default() };
    let updated = disk.update(&b, "markdown:TASK-0001", &patch).unwrap();
    assert_eq!(updated.status, SubjectStatus::Done);
    assert_eq!(updated.description, before.description);
    assert_eq!(updated.updated_at, LATER);
    assert_eq!(disk.get(&b, "markdown:TASK-0001").unwrap(), updated);
    let want = TASK_1
        .replace("status: in-progress", "status: done")
        .replace("updated_at: 2026-05-18T13:30:00Z", "updated_at: 2026-05-18T13:30:00.250Z");
    assert_eq!(disk.files["/subjects/task/TASK-0001.md"], want);
}

#[test]
fn update_merges_frontmatter_without_touching_body() {
    let mut disk = Disk::with(&[("/subjects/task/TASK-0042.md", TASK_42)]);
    let b = backend(&["task"]);
    let body_before = parse(TASK_42, decode).unwrap().body;
    let patch = SubjectPatch { labels_add: vec!["q2".into()], ..SubjectPatch::default() };
    let updated = disk.update(&b, "markdown:TASK-0042", &patch).unwrap();
    assert!(updated.labels.contains(&"q2".to_string()));
    let after = &disk.files["/subjects/task/TASK-0042.md"];
    assert_eq!(parse(after, decode).unwrap().body, body_before);
    assert_eq!(disk.files.len(), 1);
}

#[test]
fn update_appends_to_body_when_requested() {
    let mut disk = Disk::with(&[("/subjects/task/TASK-0042.md", TASK_42)]);
    let b = backend(&["task"]);
    let patch = SubjectPatch {
        comment: Some("Triaged by alice \u{2014} ready for impl.".into()),
        ..SubjectPatch::default()
    };
    disk.update(&b, "markdown:TASK-0042", &patch).unwrap();
    let after = &disk.files["/subjects/task/TASK-0042.md"];
    assert!(after.contains("> Triaged by alice"));
    assert!(after.ends_with("- two\n\n> Triaged by alice \u{2014} ready for impl.\n"));
}

#[test]
fn patches_change_what_they_name() {
    let mut doc = parse(TASK_1, decode).unwrap();
    doc.frontmatter
        .custom_fields
        .insert("gone".into(), other("1"));
    let mut custom = FieldMap::new();
    custom.insert("gone".into(), JsonValue::Null);
    custom.insert("never".into(), JsonValue::Null);
    custom.insert("cycle".into(), other("[1]"));
    custom.insert("new".into(), JsonValue::Text("x".into()));
    let patch = SubjectPatch {
        status: Some(SubjectStatus::Blocked),
        assignee: Some(None),
        labels_add: vec!["b".into(), "auth".into(), "b".into(), "p1".into()],
        labels_remove: vec!["p1".into(), "nothing".into()],
        custom,
        comment: None,
    };
    apply_patch(&mut doc, &patch);
    let fm = &doc.frontmatter;
    assert_eq!(fm.status, SubjectStatus::Blocked);
    assert_eq!(fm.assignee, None);
    assert_eq!(fm.labels, vec!["auth", "b", "p1"]);
    assert_eq!(fm.custom_fields.get("gone"), None);
    assert_eq!(fm.custom_fields.get("never"), None);
    assert_eq!(fm.custom_fields.get("cycle"), Some(&other("[1]")));
    assert_eq!(fm.custom_fields.get("new"), Some(&JsonValue::Text("x".into())));
    assert_eq!(fm.title, "Fix the login bug");
    let reassign = SubjectPatch { assignee: Some(Some("bob".into())), ..SubjectPatch::default() };
    apply_patch(&mut doc, &reassign);
    assert_eq!(doc.frontmatter.assignee.as_deref(), Some("bob"));
}

#[test]
fn the_empty_patch_changes_nothing() {
    let doc = parse(TASK_1, decode).unwrap();
    let mut same = doc.clone();
    apply_patch(&mut same, &SubjectPatch::default());
    assert_eq!(same, doc);
}

#[test]
fn comments_become_block_quotes() {
    for (body, comment, want) in [
        ("", "c", "\n> c\n"),
        ("b", "c", "b\n\n> c\n"),
        ("b\n", "c", "b\n\n> c\n"),
        ("b\n", "one\ntwo\r\nthree\n", "b\n\n> one\n> two\n> three\n"),
        ("b\n", "", "b\n\n> \n"),
        ("b\n", "x\n\ny", "b\n\n> x\n> \n> y\n"),
    ] {
        let mut doc = parse(TASK_42, decode).unwrap();
        doc.body = body.to_string();
        let patch = SubjectPatch { comment: Some(comment.into()), ..SubjectPatch::default() };
        apply_patch(&mut doc, &patch);
        assert_eq!(doc.body, want);
    }
}

#[test]
fn list_walks_subdirs_by_kind() {
    let issue = TASK_1
        .replace("markdown:TASK-0001", "markdown:ISSUE-0001")
        .replace("kind: task", "kind: issue");
    let disk = Disk::with(&[
        ("/subjects/task/TASK-0001.md", TASK_1),
        ("/subjects/issue/ISSUE-0001.md", &issue),
    ]);
    let b = backend(&["task", "issue"]);
    let page = disk.list(&b, &SubjectFilter::default()).unwrap();
    assert_eq!(page.subjects.len(), 2);
    let ids: Vec<&str> = page.subjects.iter().map(|s| s.id.as_str()).collect();
    assert_eq!(ids, vec!["markdown:TASK-0001", "markdown:ISSUE-0001"]);
    assert_eq!(page.next_cursor, None);
    assert_eq!(page.fetched_at, LATER);
}

#[test]
fn list_filters_by_status() {
    let disk = Disk::with(&[
        ("/subjects/task/TASK-0001.md", TASK_1),
        ("/subjects/task/TASK-0042.md", TASK_42),
    ]);
    let b = backend(&["task"]);
    let filter = SubjectFilter { status: vec![SubjectStatus::Ready], ..SubjectFilter::default() };
    let page = disk.list(&b, &filter).unwrap();
    assert_eq!(page.subjects.len(), 1);
    assert_eq!(page.subjects[0].id.as_str(), "markdown:TASK-0042");
}

#[test]
fn list_passes_over_what_is_no_subject() {
    let disk = Disk::with(&[
        ("/subjects/task/README.md", TASK_1),
        ("/subjects/task/TASK-0001.md", "broken"),
        ("/subjects/task/TASK-0002.md.tmp", TASK_1),
        ("/subjects/task/TASK-0042.md", TASK_42),
        ("/subjects/task/ISSUE-0001.md", TASK_1),
    ]);
    let b = backend(&["task", "issue"]);
    let page = disk.list(&b, &SubjectFilter::default()).unwrap();
    let ids: Vec<&str> = page.subjects.iter().map(|s| s.id.as_str()).collect();
    assert_eq!(ids, vec!["markdown:TASK-0042"]);
}

#[test]
fn directories_that_cannot_be_read_fail_the_list() {
    let b = backend(&["task", "issue", "epic"]);
    let names = || DirListing::Names(vec!["TASK-0001.md".to_string(), "x".to_string()]);
    assert_eq!(
        b.walk_all(&vec![names(), DirListing::Missing, DirListing::Missing]).unwrap(),
        vec!["/subjects/task/TASK-0001.md"]
    );
    assert_eq!(
        b.walk_all(&vec![names(), DirListing::Failed("no".into()), DirListing::Failed("x".into())])
            .unwrap_err(),
        BackendError::Other(vec!["read dir /subjects/issue: no".to_string()])
    );
    assert_eq!(b.kind_dirs(), vec!["/subjects/task", "/subjects/issue", "/subjects/epic"]);
}

#[test]
fn unreadable_files_hide_no_others() {
    let subject = || subject_from_doc(parse(TASK_1, decode).unwrap());
    let error = || BackendError::NotFound("x".to_string());
    let kept = keep_readable(vec![Err(error()), Ok(subject()), Err(error()), Ok(subject())]);
    assert_eq!(kept, vec![subject(), subject()]);
}

#[test]
fn filters_ask_for_each_thing() {
    let one = subject_from_doc(parse(TASK_1, decode).unwrap());
    let two = subject_from_doc(parse(TASK_42, decode).unwrap());
    let none = SubjectFilter::default;
    let own = |l: &[&str]| -> Vec<String> { l.iter().map(|s| s.to_string()).collect() };
    let cases: Vec<(SubjectFilter, bool, bool)> = vec![
        (none(), true, true),
        (SubjectFilter { kind: own(&["task"]), ..none() }, true, true),
        (SubjectFilter { kind: own(&["TASK"]), ..none() }, false, false),
        (SubjectFilter { assignee: own(&["alice@example.com"]), ..none() }, true, false),
        (SubjectFilter { assignee: own(&["bob"]), ..none() }, false, false),
        (SubjectFilter { labels_any: own(&["x", "p1"]), ..none() }, true, false),
        (SubjectFilter { labels_any: own(&["x"]), ..none() }, false, false),
        (SubjectFilter { labels_all: own(&["auth", "p1"]), ..none() }, true, false),
        (SubjectFilter { labels_all: own(&["auth", "x"]), ..none() }, false, false),
        (SubjectFilter { updated_since: Some(NOON), ..none() }, true, true),
        (
            SubjectFilter { updated_since: Some(Timestamp { secs: NOON.secs, nanos: 1 }), ..none() },
            true,
            false,
        ),
        (SubjectFilter { native_status: Some("In Progress".into()), ..none() }, true, false),
        (SubjectFilter { dispatch_label: Some("code-review".into()), ..none() }, true, false),
        (SubjectFilter { dispatch_label: Some("other".into()), ..none() }, false, false),
        (SubjectFilter { has_attachment_kind: Some("link".into()), ..none() }, false, true),
        (SubjectFilter { has_attachment_kind: Some("file".into()), ..none() }, false, false),
        (
            SubjectFilter {
                status: vec![SubjectStatus::Done, SubjectStatus::InProgress],
                ..none()
            },
            true,
            false,
        ),
    ];
    for (i, (filter, first, second)) in cases.iter().enumerate() {
        assert_eq!(matches_filter(&one, filter), *first, "filter {i}");
        assert_eq!(matches_filter(&two, filter), *second, "filter {i}");
    }
}

#[test]
fn id_generation_is_sequential() {
    let mut disk = Disk::with(&[]);
    let mut b = backend(&["task"]);
    let first = disk.create(&mut b, "task", "First", None).unwrap();
    let second = disk.create(&mut b, "task", "Second", None).unwrap();
    let third = disk.create(&mut b, "task", "Third", None).unwrap();
    assert_eq!(first.id.as_str(), "markdown:TASK-0001");
    assert_eq!(second.id.as_str(), "markdown:TASK-0002");
    assert_eq!(third.id.as_str(), "markdown:TASK-0003");
    assert_eq!(disk.get(&b, "markdown:TASK-0002").unwrap(), second);
    assert_eq!(disk.list(&b, &SubjectFilter::default()).unwrap().subjects.len(), 3);
}

#[test]
fn kinds_count_on_their_own() {
    let mut disk = Disk::with(&[("/subjects/task/TASK-0009.md", TASK_1)]);
    let mut b = backend(&["task", "issue"]);
    assert!(b.needs_listing("task"));
    assert_eq!(disk.create(&mut b, "task", "a", None).unwrap().id.as_str(), "markdown:TASK-0010");
    assert!(!b.needs_listing("task"));
    assert!(!b.needs_listing("TASK"));
    assert!(b.needs_listing("issue"));
    assert_eq!(disk.create(&mut b, "issue", "b", None).unwrap().id.as_str(), "markdown:ISSUE-0001");
    assert_eq!(disk.create(&mut b, "task", "c", None).unwrap().id.as_str(), "markdown:TASK-0011");
}

#[test]
fn kinds_are_created_in_their_configured_directory() {
    let mut disk = Disk::with(&[("/subjects/task/TASK-0002.md", TASK_1)]);
    let mut b = backend(&["task"]);
    assert_eq!(b.listing_dir("TASK"), "/subjects/task");
    assert_eq!(b.listing_dir("other"), "/subjects/other");
    let new = disk.create(&mut b, "TASK", "T", None).unwrap();
    assert_eq!(new.id.as_str(), "markdown:TASK-0003");
    assert_eq!(b.path_for(&new.id).unwrap(), "/subjects/task/TASK-0003.md");
    assert!(disk.files.contains_key("/subjects/task/TASK-0003.md"));
    assert_eq!(disk.get(&b, "markdown:TASK-0003").unwrap(), new);
    assert!(disk
        .list(&b, &SubjectFilter::default())
        .unwrap()
        .subjects
        .contains(&new));
    let next = disk.create(&mut b, "task", "T", None).unwrap();
    assert_eq!(next.id.as_str(), "markdown:TASK-0004");
}

#[test]
fn attachments_have_one_kind() {
    let member = |name: &str| (name.to_string(), JsonValue::Null);
    assert!(Attachment::new("link", vec![member("kind")]).is_none());
    assert!(Attachment::new("link", vec![member("a"), member("b"), member("a")]).is_none());
    let good = Attachment::new("link", vec![member("b"), member("a")]).unwrap();
    assert_eq!(good.kind(), "link");
    assert_eq!(*good.rest(), vec![member("b"), member("a")]);
    assert_eq!(good.clone(), good);
}

#[test]
fn created_files_have_their_empty_form() {
    let mut b = backend(&["task"]);
    let (steps, subject) = b
        .create_subject("task", "Hello", Some("Some text\nmore".into()), &vec![], NOON)
        .unwrap();
    assert_eq!(subject.description.as_deref(), Some("Some text\nmore"));
    assert_eq!(subject.status, SubjectStatus::Ready);
    assert_eq!(
        steps,
        vec![
            FileStep::CreateDirs("/subjects/task".into()),
            FileStep::Write(
                "/subjects/task/TASK-0001.md.tmp".into(),
                "---\nid: markdown:TASK-0001\nkind: task\ntitle: Hello\nstatus: ready\npriority: null\nassignee: null\nlabels: []\nparent_id: null\ncreated_at: 2026-05-18T12:00:00Z\nupdated_at: 2026-05-18T12:00:00Z\nnative_status: null\ndispatch_label: null\nstatus_metadata: {}\nattachments: []\ncustom_fields: {}\n---\nSome text\nmore\n".into()
            ),
            FileStep::Rename(
                "/subjects/task/TASK-0001.md.tmp".into(),
                "/subjects/task/TASK-0001.md".into()
            ),
        ]
    );
    let (_, empty) = b.create_subject("task", "x", Some("".into()), &vec![], NOON).unwrap();
    assert_eq!(empty.description, None);
}

#[test]
fn unknown_kinds_are_refused() {
    let mut b = backend(&["task", "issue"]);
    assert_eq!(
        b.create_subject("ep\"ic", "x", None, &vec![], NOON).unwrap_err(),
        BackendError::InvalidRequest(
            "kind \"ep\\\"ic\" not in configured kinds [\"task\", \"issue\"]".to_string()
        )
    );
    assert!(b.needs_listing("ep\"ic"));
    assert!(b.has_kind("TASK"));
    assert!(!b.has_kind("epic"));
}

#[test]
fn what_cannot_be_rendered_is_not_written() {
    let mut b = backend(&["task"]);
    let never = Timestamp { secs: i64::MAX, nanos: 0 };
    assert_eq!(
        b.create_subject("task", "x", None, &vec![], never).unwrap_err(),
        BackendError::Other(vec!["serialize frontmatter".to_string()])
    );
    // The number is used up all the same.
    let (_, next) = b.create_subject("task", "x", None, &vec![], NOON).unwrap();
    assert_eq!(next.id.as_str(), "markdown:TASK-0002");
}

#[test]
fn schema_advertises_supports_create_true() {
    let schema = backend(&["task"]).schema();
    assert!(schema.supports_create);
    assert!(schema.supports_watch);
    assert!(!schema.supports_pagination);
    assert_eq!(schema.kinds, vec!["task".to_string()]);
    assert_eq!(schema.status_values.len(), 5);
    assert!(schema.native_status_values.is_empty());
    assert!(schema.status_dispatch_hints.is_empty());
    assert!(schema.custom_fields.is_empty());
}

#[test]
fn health_unhealthy_when_root_dir_not_writable() {
    let b = backend(&["task"]);
    let probe = "/subjects/.animus-write-probe".to_string();
    let steps = b.probe_steps(false);
    assert_eq!(
        steps,
        vec![
            FileStep::CreateDirs("/subjects".into()),
            FileStep::Write(probe.clone(), "ok".into()),
            FileStep::Remove(probe.clone()),
        ]
    );
    assert_eq!(
        b.probe_steps(true),
        vec![FileStep::Write(probe.clone(), "ok".into()), FileStep::Remove(probe)]
    );
    let failed = |at: usize| probe_outcome(&steps, Some((at, "denied".to_string())));
    assert_eq!(failed(0), RootProbe::CannotCreate("denied".into()));
    assert_eq!(failed(1), RootProbe::CannotWrite("denied".into()));
    assert_eq!(failed(2), RootProbe::Writable);
    assert_eq!(probe_outcome(&steps, None), RootProbe::Writable);
    let mut disk = Disk::with(&[("/subjects/task/TASK-0001.md", TASK_1)]);
    disk.take(&steps);
    assert_eq!(disk.files.len(), 1);
    let bad = b.health(&RootProbe::CannotWrite("denied".into()));
    assert_eq!(bad.status, HealthStatus::Unhealthy);
    assert_eq!(bad.last_error.as_deref(), Some("root /subjects not writable: denied"));
    let none = b.health(&RootProbe::CannotCreate("denied".into()));
    assert_eq!(none.status, HealthStatus::Unhealthy);
    assert_eq!(none.last_error.as_deref(), Some("cannot create root /subjects: denied"));
    let good = b.health(&RootProbe::Writable);
    assert_eq!(good.status, HealthStatus::Healthy);
    assert_eq!(good.last_error, None);
    assert_eq!(good.uptime_ms, None);
    assert_eq!(good.memory_usage_bytes, None);
}

#[test]
fn watch_emits_event_on_external_edit() {
    let b = backend(&["task"]);
    let paths = vec![
        "/subjects/task/TASK-0001.md".to_string(),
        "/subjects/task/TASK-0001.md.tmp".to_string(),
        "/subjects/notes/TASK-0001.md".to_string(),
    ];
    let targets = b.changed_files(RawChange::Create, &paths);
    assert_eq!(
        targets,
        vec![("/subjects/task/TASK-0001.md".to_string(), ChangeKind::Created)]
    );
    let read = b.read_subject_at(&targets[0].0, Ok(TASK_1.to_string()), decode);
    let event = translate(targets[0].1, read).unwrap();
    assert_eq!(event.id.as_str(), "markdown:TASK-0001");
    assert_eq!(event.change_kind, ChangeKind::Created);
    assert_eq!(event.subject.title, "Fix the login bug");
    assert_eq!(event.previous_native_status, None);
    assert_eq!(event.previous_dispatch_label, None);
    assert!(b.changed_files(RawChange::Other, &paths).is_empty());
    let gone = b.read_subject_at(&targets[0].0, Err("gone".to_string()), decode);
    assert!(translate(ChangeKind::Deleted, gone).is_none());
}

#[test]
fn changes_are_classified() {
    assert_eq!(classify(RawChange::Create), Some(ChangeKind::Created));
    assert_eq!(classify(RawChange::ModifyData), Some(ChangeKind::Updated));
    assert_eq!(classify(RawChange::ModifyAny), Some(ChangeKind::Updated));
    assert_eq!(classify(RawChange::RenameTo), Some(ChangeKind::Created));
    assert_eq!(classify(RawChange::RenameFrom), Some(ChangeKind::Deleted));
    assert_eq!(classify(RawChange::RenameOther), Some(ChangeKind::Updated));
    assert_eq!(classify(RawChange::Remove), Some(ChangeKind::Deleted));
    assert_eq!(classify(RawChange::Other), None);
}

#[test]
fn managed_paths_lie_in_the_directory_of_a_kind() {
    let b = backend(&["task", "issue"]);
    assert!(b.is_managed_path("/subjects/task/TASK-0001.md"));
    assert!(b.is_managed_path("issue/ISSUE-0001.md"));
    assert!(b.is_managed_path("/subjects/TASK/TASK-0001.md"));
    assert!(b.is_managed_path("/subjects/task/notes.md"));
    assert!(!b.is_managed_path("/subjects/other/TASK-0001.md"));
    assert!(!b.is_managed_path("TASK-0001.md"));
    assert!(!b.is_managed_path("/TASK-0001.md"));
    assert!(!b.is_managed_path("/subjects/task/TASK-0001.md.tmp"));
    assert!(!b.is_managed_path("/subjects/task/TASK-0001.txt"));
    assert!(!b.is_managed_path("/subjects/task/.."));
    assert!(!b.is_managed_path(&tmp_path_for("/subjects/task/TASK-0001.md")));
}

#[test]
fn what_is_written_reads_back() {
    let doc = MarkdownDoc {
        frontmatter: Frontmatter::new(
            "markdown:TASK-0007",
            "task",
            "Title: with a colon",
            SubjectStatus::Cancelled,
            NOON,
            LATER,
        ),
        body: "\nBody\n\n\n".to_string(),
    };
    let text = render(&doc).unwrap();
    let b = backend(&["task"]);
    let read = b.read_subject_at("p", Ok(text), decode).unwrap();
    assert_eq!(read, subject_from_doc(doc));
}
