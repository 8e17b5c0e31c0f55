//! Verified core of the Sirno design-lake tooling.

pub mod text;
pub mod sorted;
pub mod address;
pub mod structural;
pub mod entry;
pub mod frontmatter;
pub mod yaml;
pub mod render;
pub mod meta;
pub mod check;
pub mod artifact;
pub mod config;
pub mod query;
pub mod table;
pub mod tide;
pub mod report;
pub mod context;
pub mod output;
pub mod path;
pub mod project;
pub mod charm;
pub mod digest;
pub mod anchor;
pub mod seed;
pub mod skills;
pub mod relocate;
pub mod search;
