//! A parser for vimwiki markup that yields a located, typed syntax tree, and a
//! navigable tree over it.
//!
//! Every executable function here carries a contract that Verus proves,
//! but for three small functions whose contracts are taken on trust, since
//! their bodies call code that Verus does not read: `text::collect_chars`
//! (std), `elements::date::parse_calendar_date` (`chrono`) and
//! `elements::uri::parse_uri_text` (`uriparse`). Text is handled as a
//! sequence of `char`s; offsets, lines and columns count characters.

pub mod region;
pub mod span;
pub mod error;
pub mod located;
pub mod text;
pub mod tree;
pub mod elements;
pub mod parsers;
pub mod lang;
pub mod data;
