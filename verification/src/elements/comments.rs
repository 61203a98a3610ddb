//! Comments: text that is in the source and not on the page.

use crate::text::{borrow_text, borrow_texts, clone_text, clone_texts, own_text, own_texts, texts_view};
use std::borrow::Cow;
use vstd::prelude::*;

verus! {

/// A comment that runs to the end of its line: `%% text`.
#[derive(Debug, PartialEq, Eq)]
pub struct LineComment<'a> {
    pub line: Cow<'a, str>,
}

impl<'a> View for LineComment<'a> {
    type V = Seq<char>;

    open spec fn view(&self) -> Seq<char> {
        self.line@
    }
}

impl<'a> LineComment<'a> {
    pub fn new(line: Cow<'a, str>) -> (r: LineComment<'a>)
        ensures
            r.line == line,
    {
        LineComment { line }
    }

    pub fn to_borrowed<'b>(&'b self) -> (r: LineComment<'b>)
        ensures
            r@ == self@,
    {
        LineComment { line: borrow_text(&self.line) }
    }

    pub fn owned_copy(&self) -> (r: LineComment<'static>)
        ensures
            r@ == self@,
    {
        LineComment { line: own_text(clone_text(&self.line)) }
    }

    pub fn into_owned(self) -> (r: LineComment<'static>)
        ensures
            r@ == self@,
    {
        LineComment { line: own_text(self.line) }
    }
}

/// A comment between `%%+` and `+%%`, line by line.
#[derive(Debug, PartialEq, Eq)]
pub struct MultiLineComment<'a> {
    pub lines: Vec<Cow<'a, str>>,
}

impl<'a> View for MultiLineComment<'a> {
    type V = Seq<Seq<char>>;

    open spec fn view(&self) -> Seq<Seq<char>> {
        texts_view(self.lines@)
    }
}

impl<'a> MultiLineComment<'a> {
    pub fn new(lines: Vec<Cow<'a, str>>) -> (r: MultiLineComment<'a>)
        ensures
            r.lines == lines,
    {
        MultiLineComment { lines }
    }

    pub fn to_borrowed<'b>(&'b self) -> (r: MultiLineComment<'b>)
        ensures
            r@ == self@,
    {
        MultiLineComment { lines: borrow_texts(&self.lines) }
    }

    pub fn owned_copy(&self) -> (r: MultiLineComment<'static>)
        ensures
            r@ == self@,
    {
        MultiLineComment { lines: own_texts(clone_texts(&self.lines)) }
    }

    pub fn into_owned(self) -> (r: MultiLineComment<'static>)
        ensures
            r@ == self@,
    {
        MultiLineComment { lines: own_texts(self.lines) }
    }
}

/// A comment of either kind.
#[derive(Debug, PartialEq, Eq)]
pub enum Comment<'a> {
    Line(LineComment<'a>),
    MultiLine(MultiLineComment<'a>),
}

/// What a `Comment` holds.
pub enum CommentView {
    Line(Seq<char>),
    MultiLine(Seq<Seq<char>>),
}

impl<'a> View for Comment<'a> {
    type V = CommentView;

    open spec fn view(&self) -> CommentView {
        match self {
            Comment::Line(c) => CommentView::Line(c@),
            Comment::MultiLine(c) => CommentView::MultiLine(c@),
        }
    }
}

impl<'a> Comment<'a> {
    pub fn to_borrowed<'b>(&'b self) -> (r: Comment<'b>)
        ensures
            r@ == self@,
    {
        match self {
            Comment::Line(c) => Comment::Line(c.to_borrowed()),
            Comment::MultiLine(c) => Comment::MultiLine(c.to_borrowed()),
        }
    }

    pub fn owned_copy(&self) -> (r: Comment<'static>)
        ensures
            r@ == self@,
    {
        match self {
            Comment::Line(c) => Comment::Line(c.owned_copy()),
            Comment::MultiLine(c) => Comment::MultiLine(c.owned_copy()),
        }
    }

    pub fn into_owned(self) -> (r: Comment<'static>)
        ensures
            r@ == self@,
    {
        self.owned_copy()
    }
}

} // verus!
