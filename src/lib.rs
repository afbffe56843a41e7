//! Canonical JSON formatting: parse a document, order its keys (and, on
//! request, its string arrays) and print it again with a chosen indentation
//! unit and newline convention.

pub mod lines;
pub mod text;
pub mod tree;
pub mod json;
pub mod codec;
pub mod render;
pub mod sort;
pub mod lemmas;
pub mod laws;
pub mod files;
pub mod batch;
pub mod report;

pub use batch::{count_results, plan_write, sort_contents, SortResult};
pub use files::{collect_sortables, Candidate};
pub use json::{sort_json_value, Json, Member};
pub use lines::LineEnding;
pub use report::relative_label;
pub use sort::{sort_json_string, JsonError};
