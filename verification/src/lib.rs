//! Content loading for a small blog: file-name rules, markdown pages,
//! grouping of page parts by file stem and ordering by creation time.
pub mod file_name;
pub mod content;
pub mod renderable;
pub mod rendering;
pub mod ordering;
pub mod pages;
pub mod text;
pub mod single_page;
