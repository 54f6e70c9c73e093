//! What the operations of the library are for, as laws.
//!
//! Each law says of all inputs what a result must be, or how two results
//! relate, in terms of the inputs alone.

pub mod backend;
pub mod files;
pub mod frontmatter;
pub mod ids;
pub mod json;
pub mod nesting;
pub mod requests;
pub mod subjects;
pub mod text;
