# animus-subject-markdown

Subjects (tasks, issues) kept as Markdown files: one file per subject, with its
structured fields in a YAML frontmatter block and a freeform body below it. The
files live in a repository like everything else, so they can be searched,
compared and reviewed.

```markdown
---
id: markdown:TASK-0001
kind: task
title: Fix the login bug
status: in-progress
priority: 3
assignee: alice@example.com
labels:
- auth
- p1
parent_id: null
created_at: 2026-05-18T12:00:00Z
updated_at: 2026-05-18T13:30:00Z
native_status: In Progress
dispatch_label: code-review
status_metadata: {}
attachments: []
custom_fields:
  cycle: 2026-Q2-cycle-1
---
# Fix the login bug

The body is freeform Markdown.
```

## Layout

- `src/` is the library, verified with Verus. It decides: how a file is taken
  apart and put together, which file a subject lives in, which id comes next,
  what a request comes to given what is on disk, and which steps write a file.
- `app/` is ordinary Rust around it: the disk, the clock, the environment, the
  file watcher, and serde for frontmatter.
- `tests/` runs the library, with a disk in memory.

## What is proved

- A file that was written is read back: it splits into the frontmatter text and
  the body that it was made of. With a decoder that reads that frontmatter text
  back, the document and the subject that it describes are the same, a new
  subject is what a request for its id gives, and a changed one is what its file
  then holds. The decoder itself is not verified: it is serde's.
- Equal content gives equal bytes, whatever the order in which custom fields
  were set. The fields stand in a fixed order, and a change of status touches
  no other field. Lines end in `\n`, never in `\r\n`, and one `\n` ends a file.
- However far a write gets, the file holds its old contents or all of the new
  ones, and no other file but the staging file is touched.
- Ids are handed out in sequence, past the largest number that is there; gaps
  are not filled. The file of a new subject, whose kind is not empty, is where
  its id is looked for, and is listed. It is noticed by the watcher where its
  kind is a plain directory name. Staging files are neither listed nor noticed.
- A change of a subject keeps its identity, and without a comment its body.

## Limits

- Paths are UTF-8 text with `/` between their components. `app/` brings the
  paths of a system that separates otherwise into this form, and says whether
  the system takes the root for an absolute path.
- A frontmatter that is nested deeper than 1024 levels is not rendered: making
  its YAML text takes stack for every level. serde_yaml reads no more than 128
  levels back.
- Past the largest sequence number, a `u32`, counting starts over at zero. A
  directory that holds it already gets no new subject.

## What is trusted

The text of timestamps (chrono), JSON texts (serde_json), the YAML text of a
frontmatter (serde_yaml), how a text is shown in a message, and
`String::push`. Each stands behind one item of the library whose comment says
what is claimed of it.

## Configuration

| Variable                    | Default                  | Meaning                          |
| --------------------------- | ------------------------ | -------------------------------- |
| `ANIMUS_MARKDOWN_ROOT`      | `<cwd>/.animus/subjects` | Directory of the subject files   |
| `ANIMUS_MARKDOWN_KINDS`     | `task`                   | Subject kinds, comma-separated   |
| `ANIMUS_MARKDOWN_ID_PREFIX` | `markdown:`              | What subject ids start with      |
