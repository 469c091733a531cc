//! A small directory lister: command-line options, the pipeline that filters,
//! orders and groups directory entries, and the text that shows them.

pub mod listing;
pub mod options;
pub mod text;
