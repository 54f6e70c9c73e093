//! Subjects kept as Markdown files: one file per task, structured fields in a
//! YAML frontmatter block, freeform Markdown below it.

pub mod backend;
pub mod config;
pub mod decimal;
pub mod error;
pub mod fields;
pub mod filter;
pub mod id_gen;
pub mod ids;
pub mod json;
pub mod laws;
pub mod lines;
pub mod listing;
pub mod mapping;
pub mod nesting;
pub mod parser;
pub mod patch;
pub mod paths;
pub mod report;
pub mod subject;
pub mod text;
pub mod time;
pub mod watcher;
pub mod writer;
