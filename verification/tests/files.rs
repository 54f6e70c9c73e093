//! Subject files, parsed and rendered.

use animus_subject_markdown::fields::FieldMap;
use animus_subject_markdown::json::JsonValue;
use animus_subject_markdown::nesting::nests_within;
use animus_subject_markdown::parser::{
    parse, split_document, Frontmatter, MarkdownDoc, MissingDelimiter, ParseError,
};
use animus_subject_markdown::subject::{Attachment, SubjectStatus};
use animus_subject_markdown::time::Timestamp;
use animus_subject_markdown::writer::{
    normalize_body, render, render_and_write, render_frontmatter, tmp_path_for, write_atomic,
    FileStep, RenderError, MAX_LEVELS,
};

const EXAMPLE: &str = "---
id: markdown:TASK-0001
kind: task
title: Fix the login bug
status: in-progress
priority: 3
assignee: alice@example.com
labels:
- auth
- p1
parent_id: null
created_at: 2026-05-18T12:00:00Z
updated_at: 2026-05-18T13:30:00Z
native_status: In Progress
dispatch_label: code-review
status_metadata: {}
attachments: []
custom_fields:
  cycle: 2026-Q2-cycle-1
---
# Fix the login bug

Description goes here. The body is freeform Markdown. Workflow phases
can render it, agents can read it, humans can edit it in their IDE.

## Acceptance criteria
- [ ] Reproduces in staging
- [ ] Fix doesn't break SSO flow
- [ ] Test added

## Notes
Linked to ENG-123 in Linear.
";

fn time(text: &str) -> Result<Timestamp, String> {
    let at = chrono::DateTime::parse_from_rfc3339(text).map_err(|e| e.to_string())?;
    Ok(Timestamp {
        secs: at.timestamp(),
        nanos: at.timestamp_subsec_nanos(),
    })
}

fn json(value: &serde_yaml::Value) -> JsonValue {
    JsonValue::from_json(&serde_json::to_string(value).unwrap()).unwrap()
}

fn other(text: &str) -> JsonValue {
    JsonValue::from_json(text).unwrap()
}

fn attachment(value: &serde_yaml::Value) -> Attachment {
    let mut rest = Vec::new();
    for (k, v) in value.as_mapping().unwrap() {
        if k.as_str() != Some("kind") {
            rest.push((k.as_str().unwrap().to_string(), json(v)));
        }
    }
    Attachment::new(value.get("kind").unwrap().as_str().unwrap(), rest).unwrap()
}

fn status(name: &str) -> Result<SubjectStatus, String> {
    for status in [
        SubjectStatus::Ready,
        SubjectStatus::InProgress,
        SubjectStatus::Blocked,
        SubjectStatus::Done,
        SubjectStatus::Cancelled,
    ] {
        if status.as_str() == name {
            return Ok(status);
        }
    }
    Err(format!("unknown status {name}"))
}

/// Reads frontmatter with serde_yaml, field by field.
fn decode(text: String) -> Result<Frontmatter, String> {
    let all: serde_yaml::Value = serde_yaml::from_str(&text).map_err(|e| e.to_string())?;
    let must = |name: &str| -> Result<String, String> {
        match all.get(name).and_then(|v| v.as_str()) {
            Some(s) => Ok(s.to_string()),
            None => Err(format!("missing field `{name}`")),
        }
    };
    let may = |name: &str| all.get(name).and_then(|v| v.as_str()).map(str::to_string);
    let mut fm = Frontmatter::new(
        &must("id")?,
        &must("kind")?,
        &must("title")?,
        status(&must("status")?)?,
        time(&must("created_at")?)?,
        time(&must("updated_at")?)?,
    );
    fm.priority = all.get("priority").and_then(|v| v.as_u64()).map(|p| p as u8);
    fm.assignee = may("assignee");
    fm.parent_id = may("parent_id");
    fm.native_status = may("native_status");
    fm.dispatch_label = may("dispatch_label");
    if let Some(labels) = all.get("labels").and_then(|v| v.as_sequence()) {
        fm.labels = labels.iter().map(|l| l.as_str().unwrap().to_string()).collect();
    }
    if let Some(value) = all.get("status_metadata") {
        fm.status_metadata = json(value);
    }
    if let Some(list) = all.get("attachments").and_then(|v| v.as_sequence()) {
        fm.attachments = list.iter().map(attachment).collect();
    }
    if let Some(map) = all.get("custom_fields").and_then(|v| v.as_mapping()) {
        for (k, v) in map {
            fm.custom_fields.insert(k.as_str().unwrap().to_string(), json(v));
        }
    }
    Ok(fm)
}

fn sample() -> Frontmatter {
    let mut fm = Frontmatter::new(
        "markdown:TASK-0001",
        "task",
        "Fix the login bug",
        SubjectStatus::InProgress,
        time("2026-05-18T12:00:00Z").unwrap(),
        time("2026-05-18T13:30:00Z").unwrap(),
    );
    fm.priority = Some(3);
    fm.assignee = Some("alice@example.com".into());
    fm.labels = vec!["auth".into(), "p1".into()];
    fm.native_status = Some("In Progress".into());
    fm.dispatch_label = Some("code-review".into());
    fm.custom_fields
        .insert("cycle".into(), JsonValue::Text("2026-Q2-cycle-1".into()));
    fm
}

fn sample_doc() -> MarkdownDoc {
    MarkdownDoc {
        frontmatter: Frontmatter::new(
            "markdown:TASK-0001",
            "task",
            "Hello",
            SubjectStatus::Ready,
            time("2026-05-18T12:00:00Z").unwrap(),
            time("2026-05-18T12:00:00Z").unwrap(),
        ),
        body: "body\n".into(),
    }
}

#[test]
fn parse_basic_doc() {
    let raw = "---\nid: markdown:TASK-0001\nkind: task\ntitle: Hello\nstatus: ready\ncreated_at: 2026-05-18T12:00:00Z\nupdated_at: 2026-05-18T12:00:00Z\n---\nbody here\n";
    let doc = parse(raw, decode).unwrap();
    assert_eq!(doc.frontmatter.id, "markdown:TASK-0001");
    assert_eq!(doc.frontmatter.title, "Hello");
    assert_eq!(doc.frontmatter.status, SubjectStatus::Ready);
    assert_eq!(doc.body, "body here\n");
}

#[test]
fn parse_rejects_missing_opening_delim() {
    let raw = "id: foo\n---\nbody\n";
    assert!(parse(raw, decode).is_err());
    assert_eq!(
        parse(raw, decode).unwrap_err(),
        ParseError::Delimiter(MissingDelimiter::Opening)
    );
}

#[test]
fn parse_rejects_missing_closing_delim() {
    let raw = "---\nid: x\nkind: task\ntitle: x\nstatus: ready\ncreated_at: 2026-05-18T12:00:00Z\nupdated_at: 2026-05-18T12:00:00Z\nbody-without-delim";
    assert!(parse(raw, decode).is_err());
    assert_eq!(
        parse(raw, decode).unwrap_err(),
        ParseError::Delimiter(MissingDelimiter::Closing)
    );
}

#[test]
fn parse_reports_what_the_decoder_says() {
    let refuse = |text: String| -> Result<Frontmatter, String> { Err(format!("no: {text}")) };
    let error = parse("---\nx: 1\n---\n", refuse).unwrap_err();
    assert_eq!(error, ParseError::Frontmatter("no: x: 1\n".into()));
    assert_eq!(error.messages(), vec!["failed to parse YAML frontmatter", "no: x: 1\n"]);
    assert_eq!(
        ParseError::Delimiter(MissingDelimiter::Opening).messages(),
        vec!["missing opening `---` frontmatter delimiter"]
    );
    assert_eq!(
        ParseError::Delimiter(MissingDelimiter::Closing).messages(),
        vec!["missing closing `---` frontmatter delimiter"]
    );
}

#[test]
fn parse_accepts_crlf_line_endings() {
    let raw = "---\r\nid: markdown:TASK-0001\r\nkind: task\r\ntitle: Hi\r\nstatus: ready\r\ncreated_at: 2026-05-18T12:00:00Z\r\nupdated_at: 2026-05-18T12:00:00Z\r\n---\r\nbody\r\n";
    let doc = parse(raw, decode).unwrap();
    assert_eq!(doc.frontmatter.id, "markdown:TASK-0001");
    assert_eq!(doc.body, "body\n");
}

#[test]
fn parse_ignores_a_byte_order_mark() {
    let marked = format!("\u{feff}{EXAMPLE}");
    assert_eq!(parse(&marked, decode), parse(EXAMPLE, decode));
}

#[test]
fn parse_round_trips_sample() {
    let fm = sample();
    let yaml = render_frontmatter(&fm).unwrap();
    let raw = format!("---\n{yaml}---\nbody!\n");
    let doc = parse(&raw, decode).unwrap();
    assert_eq!(doc.frontmatter, fm);
    assert_eq!(doc.body, "body!\n");
}

#[test]
fn the_first_line_of_three_dashes_closes_the_frontmatter() {
    let parts = |s: &str| split_document(s);
    let ok = |y: &str, b: &str| Ok((y.to_string(), b.to_string()));
    assert_eq!(parts("---\na: 1\n---\nb\n---\nc\n"), ok("a: 1\n", "b\n---\nc\n"));
    assert_eq!(parts("---\na: ---\nb: 1\n\n\n---"), ok("a: ---\nb: 1\n\n\n", ""));
    assert_eq!(parts("---\n---\n"), ok("", ""));
    assert_eq!(parts("---\n----\n---\nx"), ok("----\n", "x"));
    assert_eq!(parts("---\n ---\n---\nx"), ok(" ---\n", "x"));
    assert_eq!(parts("---\nx"), Err(MissingDelimiter::Closing));
    assert_eq!(parts("---\n----\n"), Err(MissingDelimiter::Closing));
    assert_eq!(parts("---"), Err(MissingDelimiter::Opening));
    assert_eq!(parts(""), Err(MissingDelimiter::Opening));
    assert_eq!(parts(" ---\n---\n"), Err(MissingDelimiter::Opening));
}

#[test]
fn parse_frontmatter_round_trips() {
    let doc = parse(EXAMPLE, decode).expect("example must parse");
    let rendered = render(&doc).expect("must render");
    assert_eq!(rendered, EXAMPLE);
}

#[test]
fn render_round_trips_through_parse() {
    let doc = sample_doc();
    let rendered = render(&doc).unwrap();
    let parsed = parse(&rendered, decode).unwrap();
    assert_eq!(parsed, doc);
}

#[test]
fn render_is_byte_identical_for_same_input() {
    let doc = sample_doc();
    let a = render(&doc).unwrap();
    let b = render(&doc).unwrap();
    assert_eq!(a, b, "render must be deterministic");
}

#[test]
fn create_writes_deterministic_file_format() {
    let doc = sample_doc();
    let a = render(&doc).unwrap();
    let b = render(&doc).unwrap();
    assert_eq!(a, b);
    assert!(a.ends_with('\n'), "file must end with newline");
    assert!(!a.contains("\r\n"), "no CRLF line endings allowed");
}

#[test]
fn dump() {
    let doc = MarkdownDoc {
        frontmatter: sample(),
        body: "# Fix the login bug\n\nDescription goes here.\n".into(),
    };
    println!("---BEGIN RENDER---");
    println!("{}", render(&doc).unwrap());
    println!("---END RENDER---");
}

#[test]
fn empty_fields_are_written_out() {
    assert_eq!(
        render(&sample_doc()).unwrap(),
        "---\nid: markdown:TASK-0001\nkind: task\ntitle: Hello\nstatus: ready\npriority: null\nassignee: null\nlabels: []\nparent_id: null\ncreated_at: 2026-05-18T12:00:00Z\nupdated_at: 2026-05-18T12:00:00Z\nnative_status: null\ndispatch_label: null\nstatus_metadata: {}\nattachments: []\ncustom_fields: {}\n---\nbody\n"
    );
}

#[test]
fn order_of_setting_custom_fields_does_not_show() {
    let mut a = sample_doc();
    let mut b = sample_doc();
    let one = other("{\"x\":[1,2.5,true,null]}");
    a.frontmatter.custom_fields.insert("zeta".into(), one.clone());
    a.frontmatter.custom_fields.insert("alpha".into(), JsonValue::Text("v".into()));
    b.frontmatter.custom_fields.insert("alpha".into(), JsonValue::Text("v".into()));
    b.frontmatter.custom_fields.insert("zeta".into(), one);
    assert_eq!(render(&a), render(&b));
    assert!(render(&a).unwrap().contains(
        "custom_fields:\n  alpha: v\n  zeta:\n    x:\n    - 1\n    - 2.5\n    - true\n    - null\n---\n"
    ));
}

#[test]
fn a_change_of_status_changes_one_line() {
    let doc = parse(EXAMPLE, decode).unwrap();
    let mut done = doc.clone();
    done.frontmatter.status = SubjectStatus::Done;
    let before = render(&doc).unwrap();
    let after = render(&done).unwrap();
    let changed: Vec<(&str, &str)> =
        before.lines().zip(after.lines()).filter(|(a, b)| a != b).collect();
    assert_eq!(changed, vec![("status: in-progress", "status: done")]);
    assert_eq!(before.lines().count(), after.lines().count());
}

#[test]
fn awkward_texts_survive() {
    let texts = [
        "---",
        "--- x",
        "a\n---\nb",
        "---\n",
        "\n---\n",
        "a\r\nb\rc",
        "...",
        "- x",
        "# not a comment",
        "key: value",
        " leading and trailing ",
        "",
        "null",
        "true",
        "1.0",
        "2026-05-18",
        "\u{e4}\u{1f600}\u{2028}\u{85}",
        "tab\there",
        "\u{0}\u{7}\u{1b}",
        "quote \" ' back \\ slash",
        "a\n",
        "a\n\n\n",
        "\n",
        "\n\n",
        " a\n",
        "a\n b\n",
        "a \n",
        "a\r",
        "\r\n",
        "{}",
        "[]",
        "!tag",
        "&anchor",
        "*alias",
        "%dir",
        "@at",
        "`tick",
        "| x",
        "> x",
        "? x",
    ];
    for text in texts {
        let mut doc = sample_doc();
        doc.frontmatter.title = text.to_string();
        doc.frontmatter.assignee = Some(text.to_string());
        doc.frontmatter.labels = vec![text.to_string(), text.to_string()];
        doc.frontmatter
            .custom_fields
            .insert(text.to_string(), JsonValue::Text(text.to_string()));
        let rendered = render(&doc).unwrap();
        assert!(!rendered.contains('\r'), "{text:?}");
        let (yaml, body) = split_document(&rendered).unwrap();
        assert_eq!(yaml, render_frontmatter(&doc.frontmatter).unwrap());
        assert_eq!(body, "body\n");
        assert_eq!(parse(&rendered, decode).unwrap(), doc, "{text:?}");
    }
}

#[test]
fn attachments_and_metadata_survive() {
    let mut doc = sample_doc();
    doc.frontmatter.attachments = vec![Attachment::new(
        "link",
        vec![
            ("url".into(), JsonValue::Text("https://example.com".into())),
            ("name".into(), JsonValue::Text("docs".into())),
        ],
    )
    .unwrap()];
    doc.frontmatter.status_metadata = other("{\"a\":1}");
    doc.frontmatter.parent_id = Some("markdown:TASK-0000".into());
    let rendered = render(&doc).unwrap();
    assert!(rendered.contains("attachments:\n- kind: link\n  url: https://example.com\n  name: docs\n"));
    assert!(rendered.contains("status_metadata:\n  a: 1\n"));
    assert_eq!(parse(&rendered, decode).unwrap(), doc);
}

#[test]
fn what_is_no_json_or_no_time_is_not_rendered() {
    assert_eq!(JsonValue::from_json("{oops"), None);
    assert_eq!(JsonValue::from_json("1,2"), None);
    let mut timeless = sample_doc();
    timeless.frontmatter.updated_at = Timestamp { secs: i64::MAX, nanos: 0 };
    assert_eq!(render(&timeless), Err(RenderError::Timestamp));
    assert_eq!(render_and_write("x.md", &timeless), Err(RenderError::Timestamp));
    let mut early = sample_doc();
    early.frontmatter.created_at = Timestamp { secs: 0, nanos: 3_000_000_000 };
    assert_eq!(render_frontmatter(&early.frontmatter), Err(RenderError::Timestamp));
}

fn nest(levels: usize) -> JsonValue {
    let mut value = JsonValue::array_of(&vec![]);
    for _ in 1..levels {
        value = JsonValue::array_of(&vec![value]);
    }
    value
}

#[test]
fn deep_values_are_rendered() {
    let mut doc = sample_doc();
    doc.frontmatter.status_metadata = nest(MAX_LEVELS - 1);
    doc.frontmatter.custom_fields.insert("deep".into(), nest(300));
    doc.frontmatter.attachments =
        vec![Attachment::new("link", vec![("deep".into(), nest(300))]).unwrap()];
    let rendered = render(&doc).unwrap();
    assert!(rendered.contains("status_metadata:\n- - - -"));
    assert!(rendered.contains("deep:\n  - - - -") && rendered.contains("- []\n"));
    doc.frontmatter.status_metadata = nest(MAX_LEVELS);
    assert_eq!(render(&doc), Err(RenderError::Depth));
}

#[test]
fn brackets_in_strings_do_not_count() {
    assert!(nests_within("[{\"a\":[]}]", 3));
    assert!(!nests_within("[{\"a\":[]}]", 2));
    assert!(nests_within("\"[[[[\\\"[[[[\"", 0));
    let mut doc = sample_doc();
    doc.frontmatter.title = "[".repeat(5000);
    assert_eq!(parse(&render(&doc).unwrap(), decode).unwrap(), doc);
}

#[test]
fn numbers_keep_every_digit() {
    let mut doc = sample_doc();
    for (i, text) in ["31.245270191439438", "0.1", "1e300", "5e-324", "18446744073709551615", "-7"]
        .iter()
        .enumerate()
    {
        doc.frontmatter.custom_fields.insert(format!("n{i}"), other(text));
    }
    let rendered = render(&doc).unwrap();
    assert!(rendered.contains("n0: 31.245270191439438\n"));
    assert!(rendered.contains("n4: 18446744073709551615\n"));
    assert_eq!(parse(&rendered, decode).unwrap(), doc);
}

#[test]
fn a_last_value_keeps_its_final_newlines() {
    for text in ["a\n", "a\n\n", "\n", "a\nb\n"] {
        let mut doc = sample_doc();
        doc.frontmatter
            .custom_fields
            .insert("note".into(), JsonValue::Text(text.into()));
        let rendered = render(&doc).unwrap();
        assert_eq!(parse(&rendered, decode).unwrap(), doc, "{text:?}");
    }
}

#[test]
fn normalize_body_yields_single_trailing_newline() {
    assert_eq!(normalize_body("hi"), "hi\n");
    assert_eq!(normalize_body("hi\n"), "hi\n");
    assert_eq!(normalize_body("hi\n\n\n"), "hi\n");
    assert_eq!(normalize_body(""), "\n");
    assert_eq!(normalize_body("hi\r\nworld\r\n"), "hi\nworld\n");
}

#[test]
fn normalizing_twice_changes_nothing() {
    for body in [
        "", "a", "a\n\n", "a\r\nb", "\n\n", "a\rb\n", "a\n\nb\n", "a\r", "a\r\r\n", "a\r\r\r\nb\r\n\r",
        "\r", "\n\r\n", "hi\r",
    ] {
        let once = normalize_body(body);
        assert_eq!(normalize_body(&once), once);
        assert!(!once.contains("\r\n"));
        assert!(once.ends_with('\n') && !once.ends_with("\n\n"));
    }
    for body in ["a\r\nb\r\n", "a\r\n\r\n", "\r\n", "a\r\r\nb"] {
        assert_eq!(normalize_body(&body.replace("\r\n", "\n")), normalize_body(body));
    }
    assert_eq!(normalize_body("hi\r"), "hi\n");
    assert_eq!(normalize_body("a\r\r\n"), "a\n");
    assert_eq!(normalize_body("a\r\r\nb\rc\n\r\n"), "a\nb\rc\n");
}

/// A disk in memory. Each step is taken in full.
fn take(disk: &mut std::collections::BTreeMap<String, String>, step: &FileStep) {
    match step {
        FileStep::CreateDirs(_) => {}
        FileStep::Write(path, text) => {
            disk.insert(path.clone(), text.clone());
        }
        FileStep::Rename(from, to) => {
            let text = disk.remove(from).unwrap();
            disk.insert(to.clone(), text);
        }
        FileStep::Remove(path) => {
            disk.remove(path);
        }
    }
}

#[test]
fn write_atomic_creates_parent_and_writes_contents() {
    let steps = write_atomic("/root/nested/sub/file.md", "hello\n");
    assert_eq!(
        steps,
        vec![
            FileStep::CreateDirs("/root/nested/sub".into()),
            FileStep::Write("/root/nested/sub/file.md.tmp".into(), "hello\n".into()),
            FileStep::Rename(
                "/root/nested/sub/file.md.tmp".into(),
                "/root/nested/sub/file.md".into()
            ),
        ]
    );
    let mut disk = std::collections::BTreeMap::new();
    disk.insert("/root/nested/sub/file.md".to_string(), "old\n".to_string());
    for step in &steps {
        let now = disk["/root/nested/sub/file.md"].clone();
        assert!(now == "old\n" || now == "hello\n");
        take(&mut disk, step);
    }
    assert_eq!(disk["/root/nested/sub/file.md"], "hello\n");
    assert_eq!(disk.len(), 1);
}

#[test]
fn failed_steps_say_what_failed() {
    let steps = write_atomic("d/f.md", "x");
    assert_eq!(steps[0].failure(), "creating parent dir d");
    assert_eq!(steps[1].failure(), "writing tmp file d/f.md.tmp");
    assert_eq!(steps[2].failure(), "renaming d/f.md.tmp -> d/f.md");
    assert_eq!(FileStep::Remove("x".into()).failure(), "removing x");
}

#[test]
fn staging_files_stand_beside_their_target() {
    assert_eq!(tmp_path_for("a/b.md"), "a/b.md.tmp");
    assert_eq!(tmp_path_for("b.md"), "b.md.tmp");
    assert_eq!(tmp_path_for("/b.md"), "/b.md.tmp");
    assert_eq!(tmp_path_for("a/b/"), "a/b.tmp");
    assert_eq!(tmp_path_for("a/.."), "a/.tmp");
    assert_eq!(tmp_path_for("/"), ".tmp");
    assert_eq!(tmp_path_for(""), ".tmp");
}

#[test]
fn paths_without_a_directory_need_none() {
    assert_eq!(
        write_atomic("", "x"),
        vec![
            FileStep::Write(".tmp".into(), "x".into()),
            FileStep::Rename(".tmp".into(), "".into()),
        ]
    );
}

#[test]
fn clones_hold_the_same() {
    let doc = parse(EXAMPLE, decode).unwrap();
    assert_eq!(doc.clone(), doc);
    assert_eq!(FieldMap::new().clone(), FieldMap::new());
}
