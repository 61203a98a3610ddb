//! Parse failures.

use crate::region::{column_at, line_at};
use crate::span::Span;
use vstd::prelude::*;

verus! {

/// Why a parse did not yield a value.
#[derive(Clone, Copy, Debug, PartialEq, Eq, Structural)]
pub enum ErrorKind {
    /// The input does not have the shape that the parser looks for. An
    /// enclosing alternation recovers from it by trying the next parser.
    Mismatch,
    /// A repeated parser matched without consuming input, so repeating it
    /// would never end.
    NoProgress,
    /// The text is written in a dialect that the library does not parse.
    Unsupported,
    /// The text has more characters than can be addressed.
    TooLarge,
}

/// A parse failure: what went wrong, where in the source, and the labels of
/// the parsers that were at work there, innermost first.
#[derive(Clone, Debug, PartialEq, Eq)]
pub struct LangParserError {
    pub kind: ErrorKind,
    pub message: &'static str,
    pub offset: usize,
    pub line: usize,
    pub column: usize,
    pub contexts: Vec<&'static str>,
}

impl LangParserError {
    /// A mismatch at the position of `input`, with no labels yet.
    pub fn from_ctx(input: &Span, message: &'static str) -> (e: LangParserError)
        ensures
            e.kind == ErrorKind::Mismatch,
            e.message == message,
            e.met_at(*input),
            e.contexts@.len() == 0,
    {
        LangParserError {
            kind: ErrorKind::Mismatch,
            message,
            offset: input.start,
            line: input.line,
            column: input.column,
            contexts: Vec::new(),
        }
    }

    /// An error of the given kind at the position of `input`, with no labels
    /// yet.
    pub fn of_kind(kind: ErrorKind, input: &Span, message: &'static str) -> (e: LangParserError)
        ensures
            e.kind == kind,
            e.message == message,
            e.met_at(*input),
            e.contexts@.len() == 0,
    {
        LangParserError {
            kind,
            message,
            offset: input.start,
            line: input.line,
            column: input.column,
            contexts: Vec::new(),
        }
    }

    /// The failure reported for a dialect that is not parsed.
    pub fn unsupported() -> (e: LangParserError)
        ensures
            e.kind == ErrorKind::Unsupported,
            e.offset == 0,
            e.line == 1,
            e.column == 1,
            e.contexts@.len() == 0,
    {
        LangParserError {
            kind: ErrorKind::Unsupported,
            message: "Unsupported!",
            offset: 0,
            line: 1,
            column: 1,
            contexts: Vec::new(),
        }
    }

    /// The failure reported for a text too long to address.
    pub fn too_large() -> (e: LangParserError)
        ensures
            e.kind == ErrorKind::TooLarge,
            e.offset == 0,
            e.line == 1,
            e.column == 1,
            e.contexts@.len() == 0,
    {
        LangParserError {
            kind: ErrorKind::TooLarge,
            message: "Input too large",
            offset: 0,
            line: 1,
            column: 1,
            contexts: Vec::new(),
        }
    }

    /// Whether this error is `inner` with `label` added as its outermost
    /// label, and nothing else changed.
    pub open spec fn adds_label(&self, inner: LangParserError, label: &'static str) -> bool {
        &&& self.kind == inner.kind
        &&& self.message == inner.message
        &&& self.offset == inner.offset
        &&& self.line == inner.line
        &&& self.column == inner.column
        &&& self.contexts@ == inner.contexts@.push(label)
    }

    /// Whether the error was met where `input` begins.
    pub open spec fn met_at(&self, input: Span) -> bool {
        &&& self.offset == input.start
        &&& self.line == input.line
        &&& self.column == input.column
    }

    /// Whether the error was met within `input`: at one of its characters or
    /// at its end, with the line and the column of that place.
    pub open spec fn met_within(&self, input: Span) -> bool {
        &&& input.start <= self.offset <= input.end
        &&& self.line == line_at(input.src@, self.offset as int)
        &&& self.column == column_at(input.src@, self.offset as int)
    }

    /// Whether an alternation may go on to its next parser after this error.
    pub open spec fn spec_is_recoverable(&self) -> bool {
        self.kind == ErrorKind::Mismatch
    }

    pub fn is_recoverable(&self) -> (r: bool)
        ensures
            r == self.spec_is_recoverable(),
    {
        self.kind == ErrorKind::Mismatch
    }

    pub fn kind(&self) -> (r: ErrorKind)
        ensures
            r == self.kind,
    {
        self.kind
    }

    pub fn message(&self) -> (r: &'static str)
        ensures
            r == self.message,
    {
        self.message
    }

    /// The error with `label` added as its outermost label.
    pub fn with_context(self, label: &'static str) -> (e: LangParserError)
        ensures
            e.adds_label(self, label),
    {
        let mut e = self;
        e.contexts.push(label);
        e
    }
}

} // verus!
