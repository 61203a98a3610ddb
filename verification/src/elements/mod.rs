//! The elements of a page: what the parsers yield.
//!
//! Text inside an element is either borrowed or owned. `to_borrowed` gives
//! an element whose text borrows from the element it was made from;
//! `into_owned` gives one that holds copies. The view of an element, which
//! contracts speak of, is the same whichever way its text is held.

pub mod blocks;
pub mod code;
pub mod comments;
pub mod date;
pub mod inline;
pub mod links;
pub mod metadata;
pub mod page;
pub mod uri;
