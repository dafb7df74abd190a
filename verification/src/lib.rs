//! Content model and page logic of a bilingual (English/French) personal site.

pub mod content;
pub mod date;
pub mod profile;
pub mod pages;
pub mod home;
pub mod text;
pub mod frontmatter;
pub mod yaml;
pub mod ordering;
pub mod markdown;
pub mod entry;
pub mod collection;
