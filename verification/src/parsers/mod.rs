//! Parsers for the wiki markup, from character-level building blocks up to
//! whole pages.

pub mod blocks;
pub mod comments;
pub mod inline;
pub mod links;
pub mod nesting;
pub mod numbers;
pub mod page;
pub mod scanning;
pub mod utils;
