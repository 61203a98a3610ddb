//! Blocks of preformatted text.

use crate::elements::metadata::Metadata;
use crate::text::{
    borrow_text, borrow_texts, clone_text, clone_texts, own_text, own_texts, text_eq, text_str,
    texts_borrowed, texts_eq, texts_owned, texts_view,
};
use std::borrow::Cow;
use vstd::prelude::*;

verus! {

/// A block of lines taken as they stand, with the language they are written
/// in, if it was named, and the metadata of the opening fence.
#[derive(Debug, PartialEq, Eq)]
pub struct CodeBlock<'a> {
    pub lang: Option<Cow<'a, str>>,
    pub metadata: Metadata<'a>,
    pub lines: Vec<Cow<'a, str>>,
}

/// What a `CodeBlock` holds.
pub struct CodeBlockView {
    pub lang: Option<Seq<char>>,
    pub metadata: Map<Seq<char>, Seq<char>>,
    pub lines: Seq<Seq<char>>,
}

/// The text of an optional string.
pub open spec fn opt_text_view<'a>(o: Option<Cow<'a, str>>) -> Option<Seq<char>> {
    match o {
        Some(s) => Some(s@),
        None => None,
    }
}

pub fn borrow_opt_text<'b, 'a>(o: &'b Option<Cow<'a, str>>) -> (r: Option<Cow<'b, str>>)
    ensures
        opt_text_view(r) == opt_text_view(*o),
        r matches Some(c) ==> c is Borrowed,
{
    match o {
        Some(c) => Some(borrow_text(c)),
        None => None,
    }
}

pub fn own_opt_text<'a>(o: &Option<Cow<'a, str>>) -> (r: Option<Cow<'static, str>>)
    ensures
        opt_text_view(r) == opt_text_view(*o),
        r matches Some(c) ==> c is Owned,
{
    match o {
        Some(c) => Some(own_text(clone_text(c))),
        None => None,
    }
}

pub fn opt_text_eq<'a, 'b>(a: &Option<Cow<'a, str>>, b: &Option<Cow<'b, str>>) -> (r: bool)
    ensures
        r == (opt_text_view(*a) == opt_text_view(*b)),
{
    match (a, b) {
        (Some(x), Some(y)) => text_eq(text_str(x), text_str(y)),
        (None, None) => true,
        _ => false,
    }
}

impl<'a> View for CodeBlock<'a> {
    type V = CodeBlockView;

    open spec fn view(&self) -> CodeBlockView {
        CodeBlockView {
            lang: opt_text_view(self.lang),
            metadata: self.metadata@,
            lines: texts_view(self.lines@),
        }
    }
}

impl<'a> CodeBlock<'a> {
    pub fn new(lang: Option<Cow<'a, str>>, metadata: Metadata<'a>, lines: Vec<Cow<'a, str>>) -> (r:
        CodeBlock<'a>)
        ensures
            r.lang == lang,
            r.metadata == metadata,
            r.lines == lines,
    {
        CodeBlock { lang, metadata, lines }
    }

    /// A block of the given lines, with no language and no metadata.
    pub fn from_lines(lines: Vec<Cow<'a, str>>) -> (r: CodeBlock<'a>)
        ensures
            r@ == (CodeBlockView {
                lang: None,
                metadata: Map::empty(),
                lines: texts_view(lines@),
            }),
    {
        CodeBlock { lang: None, metadata: Metadata::new(), lines }
    }

    /// Whether all text of the block is borrowed: the language tag, each
    /// key and value of the metadata, and each line.
    pub open spec fn text_borrowed(&self) -> bool {
        &&& self.lang matches Some(c) ==> c is Borrowed
        &&& self.metadata.text_borrowed()
        &&& texts_borrowed(self.lines@)
    }

    /// Whether all text of the block is owned: the language tag, each key
    /// and value of the metadata, and each line.
    pub open spec fn text_owned(&self) -> bool {
        &&& self.lang matches Some(c) ==> c is Owned
        &&& self.metadata.text_owned()
        &&& texts_owned(self.lines@)
    }

    /// The same block with its text borrowed from this one.
    pub fn to_borrowed<'b>(&'b self) -> (r: CodeBlock<'b>)
        ensures
            r@ == self@,
            r.text_borrowed(),
            r.metadata.spec_entries() == self.metadata.spec_entries(),
    {
        CodeBlock {
            lang: borrow_opt_text(&self.lang),
            metadata: self.metadata.to_borrowed(),
            lines: borrow_texts(&self.lines),
        }
    }

    /// A copy of the block that owns its text.
    pub fn owned_copy(&self) -> (r: CodeBlock<'static>)
        ensures
            r@ == self@,
            r.text_owned(),
            r.metadata.spec_entries() == self.metadata.spec_entries(),
    {
        CodeBlock {
            lang: own_opt_text(&self.lang),
            metadata: self.metadata.owned_copy(),
            lines: own_texts(clone_texts(&self.lines)),
        }
    }

    /// The same block, owning its text.
    pub fn into_owned(self) -> (r: CodeBlock<'static>)
        ensures
            r@ == self@,
            r.text_owned(),
            r.metadata.spec_entries() == self.metadata.spec_entries(),
    {
        self.owned_copy()
    }

    /// Whether the two blocks hold the same language, metadata and lines.
    pub fn strict_eq(&self, other: &CodeBlock<'_>) -> (r: bool)
        ensures
            r == (self@ == other@),
    {
        let a = opt_text_eq(&self.lang, &other.lang);
        let b = self.metadata.same_as(&other.metadata);
        let c = texts_eq(&self.lines, &other.lines);
        a && b && c
    }
}

impl<'a> Clone for CodeBlock<'a> {
    fn clone(&self) -> (r: Self)
        ensures
            r@ == self@,
    {
        self.owned_copy()
    }
}

} // verus!
