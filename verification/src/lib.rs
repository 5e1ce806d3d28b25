//! Verified core of the stellar notes compiler: argument rules, file
//! queries, compile planning and the small text formats it reads.

pub mod args;
pub mod documents;
pub mod folders;
pub mod git_diff;
pub mod interaction;
pub mod items;
pub mod plan;
pub mod query;
pub mod stats;
pub mod text;
