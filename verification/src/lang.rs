//! Parsing text of a given dialect into elements.

use crate::elements::blocks::{
    BlockElement, Blockquote, DefinitionList, Divider, Header, List, MathBlock, Paragraph,
    Placeholder, Table,
};
use crate::elements::code::CodeBlock;
use crate::elements::comments::{Comment, LineComment, MultiLineComment};
use crate::elements::inline::{
    DecoratedText, InlineElement, InlineElementContainer, Keyword, MathInline, Tags, Text,
};
use crate::elements::links::{
    DiaryLink, ExternalFileLink, InterWikiLink, Link, RawLink, TransclusionLink, WikiLink,
};
use crate::elements::page::Page;
use crate::error::{ErrorKind, LangParserError};
use crate::located::Located;
use crate::parsers::utils::spec_located;
use crate::span::Span;
use crate::text::to_chars;
use std::convert::TryFrom;
use vstd::prelude::*;
use vstd::std_specs::convert::TryFromSpecImpl;

verus! {

/// A text with the dialect it is written in.
#[derive(Clone, Copy, Debug, PartialEq, Eq)]
pub enum RawStr<'a> {
    Vimwiki(&'a str),
    Markdown(&'a str),
    Mediawiki(&'a str),
}

impl<'a> RawStr<'a> {
    /// The text, whatever its dialect.
    pub fn as_str(&self) -> (r: &'a str)
        ensures
            r@ == self.spec_text(),
    {
        match self {
            RawStr::Vimwiki(s) => s,
            RawStr::Markdown(s) => s,
            RawStr::Mediawiki(s) => s,
        }
    }

    /// The text, whatever its dialect.
    pub open spec fn spec_text(&self) -> Seq<char> {
        match self {
            RawStr::Vimwiki(s) => s@,
            RawStr::Markdown(s) => s@,
            RawStr::Mediawiki(s) => s@,
        }
    }
}

/// `input` is a span over the whole of `text`.
pub open spec fn spans_text(input: Span, text: Seq<char>) -> bool {
    &&& input.wf()
    &&& input.src@ == text
    &&& input.start == 0
    &&& input.end == text.len()
}

/// Whether `r` is what parsing the raw text gives: for text in the
/// dialect of vimwiki, the value that `grammar` gives on a span over the
/// text, or a mismatch where it gives none; for text in another dialect,
/// the failure that says so. A text too long to address is rejected.
pub open spec fn raw_parse_agrees<T: View>(
    r: Result<T, LangParserError>,
    raw: RawStr,
    grammar: spec_fn(Span) -> Option<(T::V, int)>,
) -> bool {
    match raw {
        RawStr::Vimwiki(text) => match r {
            Ok(v) => exists|input: Span| #[trigger]
                spans_text(input, text@) && grammar(input) is Some && grammar(input).unwrap().0
                    == v@,
            Err(e) => if text@.len() >= usize::MAX {
                e.kind == ErrorKind::TooLarge
            } else {
                e.kind == ErrorKind::Mismatch && exists|input: Span| #[trigger]
                    spans_text(input, text@) && grammar(input) is None && e.met_within(input)
            },
        },
        _ => r matches Err(e) && e.kind == ErrorKind::Unsupported,
    }
}

impl<'a> TryFromSpecImpl<RawStr<'a>> for Located<Page<'static>> {
    open spec fn obeys_try_from_spec() -> bool {
        false
    }

    open spec fn try_from_spec(raw: RawStr<'a>) -> Result<Self, LangParserError> {
        arbitrary()
    }
}

impl<'a> TryFrom<RawStr<'a>> for Located<Page<'static>> {
    type Error = LangParserError;

    fn try_from(raw: RawStr<'a>) -> (r: Result<Self, LangParserError>)
        ensures
            raw_parse_agrees(r, raw, |s: Span| Some((Located { value: crate::parsers::page::spec_page(s).0, region: s.region_of(crate::parsers::page::spec_page(s).1) }, crate::parsers::page::spec_page(s).1))),
    {
        match raw {
            RawStr::Vimwiki(text) => {
                let chars = to_chars(text);
                if chars.len() == usize::MAX {
                    return Err(LangParserError::too_large());
                }
                let input = Span::new(chars.as_slice());
                assert(spans_text(input, text@));
                match crate::parsers::page::page(input) {
                    Ok((_, v)) => Ok(v),
                    Err(e) => Err(e),
                }
            },
            _ => Err(LangParserError::unsupported()),
        }
    }
}

impl<'a> TryFromSpecImpl<RawStr<'a>> for Located<BlockElement<'static>> {
    open spec fn obeys_try_from_spec() -> bool {
        false
    }

    open spec fn try_from_spec(raw: RawStr<'a>) -> Result<Self, LangParserError> {
        arbitrary()
    }
}

impl<'a> TryFrom<RawStr<'a>> for Located<BlockElement<'static>> {
    type Error = LangParserError;

    fn try_from(raw: RawStr<'a>) -> (r: Result<Self, LangParserError>)
        ensures
            raw_parse_agrees(r, raw, |s: Span| crate::parsers::blocks::spec_block_component(s)),
    {
        match raw {
            RawStr::Vimwiki(text) => {
                let chars = to_chars(text);
                if chars.len() == usize::MAX {
                    return Err(LangParserError::too_large());
                }
                let input = Span::new(chars.as_slice());
                assert(spans_text(input, text@));
                match crate::parsers::blocks::block_component(input) {
                    Ok((_, v)) => Ok(v),
                    Err(e) => Err(e),
                }
            },
            _ => Err(LangParserError::unsupported()),
        }
    }
}

impl<'a> TryFromSpecImpl<RawStr<'a>> for Located<InlineElementContainer<'static>> {
    open spec fn obeys_try_from_spec() -> bool {
        false
    }

    open spec fn try_from_spec(raw: RawStr<'a>) -> Result<Self, LangParserError> {
        arbitrary()
    }
}

impl<'a> TryFrom<RawStr<'a>> for Located<InlineElementContainer<'static>> {
    type Error = LangParserError;

    fn try_from(raw: RawStr<'a>) -> (r: Result<Self, LangParserError>)
        ensures
            raw_parse_agrees(r, raw, |s: Span| spec_located(s, crate::parsers::inline::spec_inline_container(s))),
    {
        match raw {
            RawStr::Vimwiki(text) => {
                let chars = to_chars(text);
                if chars.len() == usize::MAX {
                    return Err(LangParserError::too_large());
                }
                let input = Span::new(chars.as_slice());
                assert(spans_text(input, text@));
                match crate::parsers::inline::inline_element_container(input) {
                    Ok((_, v)) => Ok(v),
                    Err(e) => Err(e),
                }
            },
            _ => Err(LangParserError::unsupported()),
        }
    }
}

impl<'a> TryFromSpecImpl<RawStr<'a>> for Located<InlineElement<'static>> {
    open spec fn obeys_try_from_spec() -> bool {
        false
    }

    open spec fn try_from_spec(raw: RawStr<'a>) -> Result<Self, LangParserError> {
        arbitrary()
    }
}

impl<'a> TryFrom<RawStr<'a>> for Located<InlineElement<'static>> {
    type Error = LangParserError;

    fn try_from(raw: RawStr<'a>) -> (r: Result<Self, LangParserError>)
        ensures
            raw_parse_agrees(r, raw, |s: Span| spec_located(s, crate::parsers::inline::spec_inline_element(s))),
    {
        match raw {
            RawStr::Vimwiki(text) => {
                let chars = to_chars(text);
                if chars.len() == usize::MAX {
                    return Err(LangParserError::too_large());
                }
                let input = Span::new(chars.as_slice());
                assert(spans_text(input, text@));
                match crate::parsers::inline::inline_element(input) {
                    Ok((_, v)) => Ok(v),
                    Err(e) => Err(e),
                }
            },
            _ => Err(LangParserError::unsupported()),
        }
    }
}

impl<'a> TryFromSpecImpl<RawStr<'a>> for Located<Blockquote<'static>> {
    open spec fn obeys_try_from_spec() -> bool {
        false
    }

    open spec fn try_from_spec(raw: RawStr<'a>) -> Result<Self, LangParserError> {
        arbitrary()
    }
}

impl<'a> TryFrom<RawStr<'a>> for Located<Blockquote<'static>> {
    type Error = LangParserError;

    fn try_from(raw: RawStr<'a>) -> (r: Result<Self, LangParserError>)
        ensures
            raw_parse_agrees(r, raw, |s: Span| spec_located(s, crate::parsers::blocks::blockquotes::spec_blockquote(s))),
    {
        match raw {
            RawStr::Vimwiki(text) => {
                let chars = to_chars(text);
                if chars.len() == usize::MAX {
                    return Err(LangParserError::too_large());
                }
                let input = Span::new(chars.as_slice());
                assert(spans_text(input, text@));
                match crate::parsers::blocks::blockquotes::blockquote(input) {
                    Ok((_, v)) => Ok(v),
                    Err(e) => Err(e),
                }
            },
            _ => Err(LangParserError::unsupported()),
        }
    }
}

impl<'a> TryFromSpecImpl<RawStr<'a>> for Located<Comment<'static>> {
    open spec fn obeys_try_from_spec() -> bool {
        false
    }

    open spec fn try_from_spec(raw: RawStr<'a>) -> Result<Self, LangParserError> {
        arbitrary()
    }
}

impl<'a> TryFrom<RawStr<'a>> for Located<Comment<'static>> {
    type Error = LangParserError;

    fn try_from(raw: RawStr<'a>) -> (r: Result<Self, LangParserError>)
        ensures
            raw_parse_agrees(r, raw, |s: Span| spec_located(s, crate::parsers::comments::spec_comment(s@))),
    {
        match raw {
            RawStr::Vimwiki(text) => {
                let chars = to_chars(text);
                if chars.len() == usize::MAX {
                    return Err(LangParserError::too_large());
                }
                let input = Span::new(chars.as_slice());
                assert(spans_text(input, text@));
                match crate::parsers::comments::comment(input) {
                    Ok((_, v)) => Ok(v),
                    Err(e) => Err(e),
                }
            },
            _ => Err(LangParserError::unsupported()),
        }
    }
}

impl<'a> TryFromSpecImpl<RawStr<'a>> for Located<LineComment<'static>> {
    open spec fn obeys_try_from_spec() -> bool {
        false
    }

    open spec fn try_from_spec(raw: RawStr<'a>) -> Result<Self, LangParserError> {
        arbitrary()
    }
}

impl<'a> TryFrom<RawStr<'a>> for Located<LineComment<'static>> {
    type Error = LangParserError;

    fn try_from(raw: RawStr<'a>) -> (r: Result<Self, LangParserError>)
        ensures
            raw_parse_agrees(r, raw, |s: Span| spec_located(s, crate::parsers::comments::spec_line_comment(s@))),
    {
        match raw {
            RawStr::Vimwiki(text) => {
                let chars = to_chars(text);
                if chars.len() == usize::MAX {
                    return Err(LangParserError::too_large());
                }
                let input = Span::new(chars.as_slice());
                assert(spans_text(input, text@));
                match crate::parsers::comments::line_comment(input) {
                    Ok((_, v)) => Ok(v),
                    Err(e) => Err(e),
                }
            },
            _ => Err(LangParserError::unsupported()),
        }
    }
}

impl<'a> TryFromSpecImpl<RawStr<'a>> for Located<MultiLineComment<'static>> {
    open spec fn obeys_try_from_spec() -> bool {
        false
    }

    open spec fn try_from_spec(raw: RawStr<'a>) -> Result<Self, LangParserError> {
        arbitrary()
    }
}

impl<'a> TryFrom<RawStr<'a>> for Located<MultiLineComment<'static>> {
    type Error = LangParserError;

    fn try_from(raw: RawStr<'a>) -> (r: Result<Self, LangParserError>)
        ensures
            raw_parse_agrees(r, raw, |s: Span| spec_located(s, crate::parsers::comments::spec_multi_line_comment(s@))),
    {
        match raw {
            RawStr::Vimwiki(text) => {
                let chars = to_chars(text);
                if chars.len() == usize::MAX {
                    return Err(LangParserError::too_large());
                }
                let input = Span::new(chars.as_slice());
                assert(spans_text(input, text@));
                match crate::parsers::comments::multi_line_comment(input) {
                    Ok((_, v)) => Ok(v),
                    Err(e) => Err(e),
                }
            },
            _ => Err(LangParserError::unsupported()),
        }
    }
}

impl<'a> TryFromSpecImpl<RawStr<'a>> for Located<DefinitionList<'static>> {
    open spec fn obeys_try_from_spec() -> bool {
        false
    }

    open spec fn try_from_spec(raw: RawStr<'a>) -> Result<Self, LangParserError> {
        arbitrary()
    }
}

impl<'a> TryFrom<RawStr<'a>> for Located<DefinitionList<'static>> {
    type Error = LangParserError;

    fn try_from(raw: RawStr<'a>) -> (r: Result<Self, LangParserError>)
        ensures
            raw_parse_agrees(r, raw, |s: Span| spec_located(s, crate::parsers::blocks::definitions::spec_definition_list(s))),
    {
        match raw {
            RawStr::Vimwiki(text) => {
                let chars = to_chars(text);
                if chars.len() == usize::MAX {
                    return Err(LangParserError::too_large());
                }
                let input = Span::new(chars.as_slice());
                assert(spans_text(input, text@));
                match crate::parsers::blocks::definitions::definition_list(input) {
                    Ok((_, v)) => Ok(v),
                    Err(e) => Err(e),
                }
            },
            _ => Err(LangParserError::unsupported()),
        }
    }
}

impl<'a> TryFromSpecImpl<RawStr<'a>> for Located<Divider> {
    open spec fn obeys_try_from_spec() -> bool {
        false
    }

    open spec fn try_from_spec(raw: RawStr<'a>) -> Result<Self, LangParserError> {
        arbitrary()
    }
}

impl<'a> TryFrom<RawStr<'a>> for Located<Divider> {
    type Error = LangParserError;

    fn try_from(raw: RawStr<'a>) -> (r: Result<Self, LangParserError>)
        ensures
            raw_parse_agrees(r, raw, |s: Span| spec_located(s, crate::parsers::blocks::dividers::spec_divider(s))),
    {
        match raw {
            RawStr::Vimwiki(text) => {
                let chars = to_chars(text);
                if chars.len() == usize::MAX {
                    return Err(LangParserError::too_large());
                }
                let input = Span::new(chars.as_slice());
                assert(spans_text(input, text@));
                match crate::parsers::blocks::dividers::divider(input) {
                    Ok((_, v)) => Ok(v),
                    Err(e) => Err(e),
                }
            },
            _ => Err(LangParserError::unsupported()),
        }
    }
}

impl<'a> TryFromSpecImpl<RawStr<'a>> for Located<Header<'static>> {
    open spec fn obeys_try_from_spec() -> bool {
        false
    }

    open spec fn try_from_spec(raw: RawStr<'a>) -> Result<Self, LangParserError> {
        arbitrary()
    }
}

impl<'a> TryFrom<RawStr<'a>> for Located<Header<'static>> {
    type Error = LangParserError;

    fn try_from(raw: RawStr<'a>) -> (r: Result<Self, LangParserError>)
        ensures
            raw_parse_agrees(r, raw, |s: Span| spec_located(s, crate::parsers::blocks::headers::spec_header(s))),
    {
        match raw {
            RawStr::Vimwiki(text) => {
                let chars = to_chars(text);
                if chars.len() == usize::MAX {
                    return Err(LangParserError::too_large());
                }
                let input = Span::new(chars.as_slice());
                assert(spans_text(input, text@));
                match crate::parsers::blocks::headers::header(input) {
                    Ok((_, v)) => Ok(v),
                    Err(e) => Err(e),
                }
            },
            _ => Err(LangParserError::unsupported()),
        }
    }
}

impl<'a> TryFromSpecImpl<RawStr<'a>> for Located<Link<'static>> {
    open spec fn obeys_try_from_spec() -> bool {
        false
    }

    open spec fn try_from_spec(raw: RawStr<'a>) -> Result<Self, LangParserError> {
        arbitrary()
    }
}

impl<'a> TryFrom<RawStr<'a>> for Located<Link<'static>> {
    type Error = LangParserError;

    fn try_from(raw: RawStr<'a>) -> (r: Result<Self, LangParserError>)
        ensures
            raw_parse_agrees(r, raw, |s: Span| spec_located(s, crate::parsers::links::spec_link(s@))),
    {
        match raw {
            RawStr::Vimwiki(text) => {
                let chars = to_chars(text);
                if chars.len() == usize::MAX {
                    return Err(LangParserError::too_large());
                }
                let input = Span::new(chars.as_slice());
                assert(spans_text(input, text@));
                match crate::parsers::links::link(input) {
                    Ok((_, v)) => Ok(v),
                    Err(e) => Err(e),
                }
            },
            _ => Err(LangParserError::unsupported()),
        }
    }
}

impl<'a> TryFromSpecImpl<RawStr<'a>> for Located<DiaryLink<'static>> {
    open spec fn obeys_try_from_spec() -> bool {
        false
    }

    open spec fn try_from_spec(raw: RawStr<'a>) -> Result<Self, LangParserError> {
        arbitrary()
    }
}

impl<'a> TryFrom<RawStr<'a>> for Located<DiaryLink<'static>> {
    type Error = LangParserError;

    fn try_from(raw: RawStr<'a>) -> (r: Result<Self, LangParserError>)
        ensures
            raw_parse_agrees(r, raw, |s: Span| spec_located(s, crate::parsers::links::diary::spec_diary_link(s@))),
    {
        match raw {
            RawStr::Vimwiki(text) => {
                let chars = to_chars(text);
                if chars.len() == usize::MAX {
                    return Err(LangParserError::too_large());
                }
                let input = Span::new(chars.as_slice());
                assert(spans_text(input, text@));
                match crate::parsers::links::diary::diary_link(input) {
                    Ok((_, v)) => Ok(v),
                    Err(e) => Err(e),
                }
            },
            _ => Err(LangParserError::unsupported()),
        }
    }
}

impl<'a> TryFromSpecImpl<RawStr<'a>> for Located<ExternalFileLink<'static>> {
    open spec fn obeys_try_from_spec() -> bool {
        false
    }

    open spec fn try_from_spec(raw: RawStr<'a>) -> Result<Self, LangParserError> {
        arbitrary()
    }
}

impl<'a> TryFrom<RawStr<'a>> for Located<ExternalFileLink<'static>> {
    type Error = LangParserError;

    fn try_from(raw: RawStr<'a>) -> (r: Result<Self, LangParserError>)
        ensures
            raw_parse_agrees(r, raw, |s: Span| spec_located(s, crate::parsers::links::external::spec_external_file_link(s@))),
    {
        match raw {
            RawStr::Vimwiki(text) => {
                let chars = to_chars(text);
                if chars.len() == usize::MAX {
                    return Err(LangParserError::too_large());
                }
                let input = Span::new(chars.as_slice());
                assert(spans_text(input, text@));
                match crate::parsers::links::external::external_file_link(input) {
                    Ok((_, v)) => Ok(v),
                    Err(e) => Err(e),
                }
            },
            _ => Err(LangParserError::unsupported()),
        }
    }
}

impl<'a> TryFromSpecImpl<RawStr<'a>> for Located<RawLink> {
    open spec fn obeys_try_from_spec() -> bool {
        false
    }

    open spec fn try_from_spec(raw: RawStr<'a>) -> Result<Self, LangParserError> {
        arbitrary()
    }
}

impl<'a> TryFrom<RawStr<'a>> for Located<RawLink> {
    type Error = LangParserError;

    fn try_from(raw: RawStr<'a>) -> (r: Result<Self, LangParserError>)
        ensures
            raw_parse_agrees(r, raw, |s: Span| spec_located(s, crate::parsers::links::raw::spec_raw_link(s@))),
    {
        match raw {
            RawStr::Vimwiki(text) => {
                let chars = to_chars(text);
                if chars.len() == usize::MAX {
                    return Err(LangParserError::too_large());
                }
                let input = Span::new(chars.as_slice());
                assert(spans_text(input, text@));
                match crate::parsers::links::raw::raw_link(input) {
                    Ok((_, v)) => Ok(v),
                    Err(e) => Err(e),
                }
            },
            _ => Err(LangParserError::unsupported()),
        }
    }
}

impl<'a> TryFromSpecImpl<RawStr<'a>> for Located<TransclusionLink<'static>> {
    open spec fn obeys_try_from_spec() -> bool {
        false
    }

    open spec fn try_from_spec(raw: RawStr<'a>) -> Result<Self, LangParserError> {
        arbitrary()
    }
}

impl<'a> TryFrom<RawStr<'a>> for Located<TransclusionLink<'static>> {
    type Error = LangParserError;

    fn try_from(raw: RawStr<'a>) -> (r: Result<Self, LangParserError>)
        ensures
            raw_parse_agrees(r, raw, |s: Span| spec_located(s, crate::parsers::links::transclusion::spec_transclusion_link(s@))),
    {
        match raw {
            RawStr::Vimwiki(text) => {
                let chars = to_chars(text);
                if chars.len() == usize::MAX {
                    return Err(LangParserError::too_large());
                }
                let input = Span::new(chars.as_slice());
                assert(spans_text(input, text@));
                match crate::parsers::links::transclusion::transclusion_link(input) {
                    Ok((_, v)) => Ok(v),
                    Err(e) => Err(e),
                }
            },
            _ => Err(LangParserError::unsupported()),
        }
    }
}

impl<'a> TryFromSpecImpl<RawStr<'a>> for Located<WikiLink<'static>> {
    open spec fn obeys_try_from_spec() -> bool {
        false
    }

    open spec fn try_from_spec(raw: RawStr<'a>) -> Result<Self, LangParserError> {
        arbitrary()
    }
}

impl<'a> TryFrom<RawStr<'a>> for Located<WikiLink<'static>> {
    type Error = LangParserError;

    fn try_from(raw: RawStr<'a>) -> (r: Result<Self, LangParserError>)
        ensures
            raw_parse_agrees(r, raw, |s: Span| spec_located(s, crate::parsers::links::wiki::spec_wiki_link(s@))),
    {
        match raw {
            RawStr::Vimwiki(text) => {
                let chars = to_chars(text);
                if chars.len() == usize::MAX {
                    return Err(LangParserError::too_large());
                }
                let input = Span::new(chars.as_slice());
                assert(spans_text(input, text@));
                match crate::parsers::links::wiki::wiki_link(input) {
                    Ok((_, v)) => Ok(v),
                    Err(e) => Err(e),
                }
            },
            _ => Err(LangParserError::unsupported()),
        }
    }
}

impl<'a> TryFromSpecImpl<RawStr<'a>> for Located<InterWikiLink<'static>> {
    open spec fn obeys_try_from_spec() -> bool {
        false
    }

    open spec fn try_from_spec(raw: RawStr<'a>) -> Result<Self, LangParserError> {
        arbitrary()
    }
}

impl<'a> TryFrom<RawStr<'a>> for Located<InterWikiLink<'static>> {
    type Error = LangParserError;

    fn try_from(raw: RawStr<'a>) -> (r: Result<Self, LangParserError>)
        ensures
            raw_parse_agrees(r, raw, |s: Span| spec_located(s, crate::parsers::links::interwiki::spec_inter_wiki_link(s@))),
    {
        match raw {
            RawStr::Vimwiki(text) => {
                let chars = to_chars(text);
                if chars.len() == usize::MAX {
                    return Err(LangParserError::too_large());
                }
                let input = Span::new(chars.as_slice());
                assert(spans_text(input, text@));
                match crate::parsers::links::interwiki::inter_wiki_link(input) {
                    Ok((_, v)) => Ok(v),
                    Err(e) => Err(e),
                }
            },
            _ => Err(LangParserError::unsupported()),
        }
    }
}

impl<'a> TryFromSpecImpl<RawStr<'a>> for Located<List<'static>> {
    open spec fn obeys_try_from_spec() -> bool {
        false
    }

    open spec fn try_from_spec(raw: RawStr<'a>) -> Result<Self, LangParserError> {
        arbitrary()
    }
}

impl<'a> TryFrom<RawStr<'a>> for Located<List<'static>> {
    type Error = LangParserError;

    fn try_from(raw: RawStr<'a>) -> (r: Result<Self, LangParserError>)
        ensures
            raw_parse_agrees(r, raw, |s: Span| spec_located(s, crate::parsers::blocks::lists::spec_list(s))),
    {
        match raw {
            RawStr::Vimwiki(text) => {
                let chars = to_chars(text);
                if chars.len() == usize::MAX {
                    return Err(LangParserError::too_large());
                }
                let input = Span::new(chars.as_slice());
                assert(spans_text(input, text@));
                match crate::parsers::blocks::lists::list(input) {
                    Ok((_, v)) => Ok(v),
                    Err(e) => Err(e),
                }
            },
            _ => Err(LangParserError::unsupported()),
        }
    }
}

impl<'a> TryFromSpecImpl<RawStr<'a>> for Located<MathInline<'static>> {
    open spec fn obeys_try_from_spec() -> bool {
        false
    }

    open spec fn try_from_spec(raw: RawStr<'a>) -> Result<Self, LangParserError> {
        arbitrary()
    }
}

impl<'a> TryFrom<RawStr<'a>> for Located<MathInline<'static>> {
    type Error = LangParserError;

    fn try_from(raw: RawStr<'a>) -> (r: Result<Self, LangParserError>)
        ensures
            raw_parse_agrees(r, raw, |s: Span| spec_located(s, crate::parsers::inline::spec_math_inline(s@))),
    {
        match raw {
            RawStr::Vimwiki(text) => {
                let chars = to_chars(text);
                if chars.len() == usize::MAX {
                    return Err(LangParserError::too_large());
                }
                let input = Span::new(chars.as_slice());
                assert(spans_text(input, text@));
                match crate::parsers::inline::math_inline(input) {
                    Ok((_, v)) => Ok(v),
                    Err(e) => Err(e),
                }
            },
            _ => Err(LangParserError::unsupported()),
        }
    }
}

impl<'a> TryFromSpecImpl<RawStr<'a>> for Located<MathBlock<'static>> {
    open spec fn obeys_try_from_spec() -> bool {
        false
    }

    open spec fn try_from_spec(raw: RawStr<'a>) -> Result<Self, LangParserError> {
        arbitrary()
    }
}

impl<'a> TryFrom<RawStr<'a>> for Located<MathBlock<'static>> {
    type Error = LangParserError;

    fn try_from(raw: RawStr<'a>) -> (r: Result<Self, LangParserError>)
        ensures
            raw_parse_agrees(r, raw, |s: Span| spec_located(s, crate::parsers::blocks::math::spec_math_block(s))),
    {
        match raw {
            RawStr::Vimwiki(text) => {
                let chars = to_chars(text);
                if chars.len() == usize::MAX {
                    return Err(LangParserError::too_large());
                }
                let input = Span::new(chars.as_slice());
                assert(spans_text(input, text@));
                match crate::parsers::blocks::math::math_block(input) {
                    Ok((_, v)) => Ok(v),
                    Err(e) => Err(e),
                }
            },
            _ => Err(LangParserError::unsupported()),
        }
    }
}

impl<'a> TryFromSpecImpl<RawStr<'a>> for Located<Paragraph<'static>> {
    open spec fn obeys_try_from_spec() -> bool {
        false
    }

    open spec fn try_from_spec(raw: RawStr<'a>) -> Result<Self, LangParserError> {
        arbitrary()
    }
}

impl<'a> TryFrom<RawStr<'a>> for Located<Paragraph<'static>> {
    type Error = LangParserError;

    fn try_from(raw: RawStr<'a>) -> (r: Result<Self, LangParserError>)
        ensures
            raw_parse_agrees(r, raw, |s: Span| spec_located(s, crate::parsers::blocks::paragraphs::spec_paragraph(s))),
    {
        match raw {
            RawStr::Vimwiki(text) => {
                let chars = to_chars(text);
                if chars.len() == usize::MAX {
                    return Err(LangParserError::too_large());
                }
                let input = Span::new(chars.as_slice());
                assert(spans_text(input, text@));
                match crate::parsers::blocks::paragraphs::paragraph(input) {
                    Ok((_, v)) => Ok(v),
                    Err(e) => Err(e),
                }
            },
            _ => Err(LangParserError::unsupported()),
        }
    }
}

impl<'a> TryFromSpecImpl<RawStr<'a>> for Located<Placeholder<'static>> {
    open spec fn obeys_try_from_spec() -> bool {
        false
    }

    open spec fn try_from_spec(raw: RawStr<'a>) -> Result<Self, LangParserError> {
        arbitrary()
    }
}

impl<'a> TryFrom<RawStr<'a>> for Located<Placeholder<'static>> {
    type Error = LangParserError;

    fn try_from(raw: RawStr<'a>) -> (r: Result<Self, LangParserError>)
        ensures
            raw_parse_agrees(r, raw, |s: Span| spec_located(s, crate::parsers::blocks::placeholders::spec_placeholder(s))),
    {
        match raw {
            RawStr::Vimwiki(text) => {
                let chars = to_chars(text);
                if chars.len() == usize::MAX {
                    return Err(LangParserError::too_large());
                }
                let input = Span::new(chars.as_slice());
                assert(spans_text(input, text@));
                match crate::parsers::blocks::placeholders::placeholder(input) {
                    Ok((_, v)) => Ok(v),
                    Err(e) => Err(e),
                }
            },
            _ => Err(LangParserError::unsupported()),
        }
    }
}

impl<'a> TryFromSpecImpl<RawStr<'a>> for Located<CodeBlock<'static>> {
    open spec fn obeys_try_from_spec() -> bool {
        false
    }

    open spec fn try_from_spec(raw: RawStr<'a>) -> Result<Self, LangParserError> {
        arbitrary()
    }
}

impl<'a> TryFrom<RawStr<'a>> for Located<CodeBlock<'static>> {
    type Error = LangParserError;

    fn try_from(raw: RawStr<'a>) -> (r: Result<Self, LangParserError>)
        ensures
            raw_parse_agrees(r, raw, |s: Span| spec_located(s, crate::parsers::blocks::code::spec_code_block(s))),
    {
        match raw {
            RawStr::Vimwiki(text) => {
                let chars = to_chars(text);
                if chars.len() == usize::MAX {
                    return Err(LangParserError::too_large());
                }
                let input = Span::new(chars.as_slice());
                assert(spans_text(input, text@));
                match crate::parsers::blocks::code::code_block(input) {
                    Ok((_, v)) => Ok(v),
                    Err(e) => Err(e),
                }
            },
            _ => Err(LangParserError::unsupported()),
        }
    }
}

impl<'a> TryFromSpecImpl<RawStr<'a>> for Located<Table<'static>> {
    open spec fn obeys_try_from_spec() -> bool {
        false
    }

    open spec fn try_from_spec(raw: RawStr<'a>) -> Result<Self, LangParserError> {
        arbitrary()
    }
}

impl<'a> TryFrom<RawStr<'a>> for Located<Table<'static>> {
    type Error = LangParserError;

    fn try_from(raw: RawStr<'a>) -> (r: Result<Self, LangParserError>)
        ensures
            raw_parse_agrees(r, raw, |s: Span| spec_located(s, crate::parsers::blocks::tables::spec_table(s))),
    {
        match raw {
            RawStr::Vimwiki(text) => {
                let chars = to_chars(text);
                if chars.len() == usize::MAX {
                    return Err(LangParserError::too_large());
                }
                let input = Span::new(chars.as_slice());
                assert(spans_text(input, text@));
                match crate::parsers::blocks::tables::table(input) {
                    Ok((_, v)) => Ok(v),
                    Err(e) => Err(e),
                }
            },
            _ => Err(LangParserError::unsupported()),
        }
    }
}

impl<'a> TryFromSpecImpl<RawStr<'a>> for Located<Tags<'static>> {
    open spec fn obeys_try_from_spec() -> bool {
        false
    }

    open spec fn try_from_spec(raw: RawStr<'a>) -> Result<Self, LangParserError> {
        arbitrary()
    }
}

impl<'a> TryFrom<RawStr<'a>> for Located<Tags<'static>> {
    type Error = LangParserError;

    fn try_from(raw: RawStr<'a>) -> (r: Result<Self, LangParserError>)
        ensures
            raw_parse_agrees(r, raw, |s: Span| spec_located(s, crate::parsers::inline::spec_tags(s@))),
    {
        match raw {
            RawStr::Vimwiki(text) => {
                let chars = to_chars(text);
                if chars.len() == usize::MAX {
                    return Err(LangParserError::too_large());
                }
                let input = Span::new(chars.as_slice());
                assert(spans_text(input, text@));
                match crate::parsers::inline::tags(input) {
                    Ok((_, v)) => Ok(v),
                    Err(e) => Err(e),
                }
            },
            _ => Err(LangParserError::unsupported()),
        }
    }
}

impl<'a> TryFromSpecImpl<RawStr<'a>> for Located<Text<'static>> {
    open spec fn obeys_try_from_spec() -> bool {
        false
    }

    open spec fn try_from_spec(raw: RawStr<'a>) -> Result<Self, LangParserError> {
        arbitrary()
    }
}

impl<'a> TryFrom<RawStr<'a>> for Located<Text<'static>> {
    type Error = LangParserError;

    fn try_from(raw: RawStr<'a>) -> (r: Result<Self, LangParserError>)
        ensures
            raw_parse_agrees(r, raw, |s: Span| spec_located(s, crate::parsers::inline::spec_text(s))),
    {
        match raw {
            RawStr::Vimwiki(text) => {
                let chars = to_chars(text);
                if chars.len() == usize::MAX {
                    return Err(LangParserError::too_large());
                }
                let input = Span::new(chars.as_slice());
                assert(spans_text(input, text@));
                match crate::parsers::inline::text(input) {
                    Ok((_, v)) => Ok(v),
                    Err(e) => Err(e),
                }
            },
            _ => Err(LangParserError::unsupported()),
        }
    }
}

impl<'a> TryFromSpecImpl<RawStr<'a>> for Located<DecoratedText<'static>> {
    open spec fn obeys_try_from_spec() -> bool {
        false
    }

    open spec fn try_from_spec(raw: RawStr<'a>) -> Result<Self, LangParserError> {
        arbitrary()
    }
}

impl<'a> TryFrom<RawStr<'a>> for Located<DecoratedText<'static>> {
    type Error = LangParserError;

    fn try_from(raw: RawStr<'a>) -> (r: Result<Self, LangParserError>)
        ensures
            raw_parse_agrees(r, raw, |s: Span| spec_located(s, crate::parsers::inline::spec_decorated(s))),
    {
        match raw {
            RawStr::Vimwiki(text) => {
                let chars = to_chars(text);
                if chars.len() == usize::MAX {
                    return Err(LangParserError::too_large());
                }
                let input = Span::new(chars.as_slice());
                assert(spans_text(input, text@));
                match crate::parsers::inline::decorated(input) {
                    Ok((_, v)) => Ok(v),
                    Err(e) => Err(e),
                }
            },
            _ => Err(LangParserError::unsupported()),
        }
    }
}

impl<'a> TryFromSpecImpl<RawStr<'a>> for Located<Keyword> {
    open spec fn obeys_try_from_spec() -> bool {
        false
    }

    open spec fn try_from_spec(raw: RawStr<'a>) -> Result<Self, LangParserError> {
        arbitrary()
    }
}

impl<'a> TryFrom<RawStr<'a>> for Located<Keyword> {
    type Error = LangParserError;

    fn try_from(raw: RawStr<'a>) -> (r: Result<Self, LangParserError>)
        ensures
            raw_parse_agrees(r, raw, |s: Span| spec_located(s, crate::parsers::inline::spec_keyword(s@))),
    {
        match raw {
            RawStr::Vimwiki(text) => {
                let chars = to_chars(text);
                if chars.len() == usize::MAX {
                    return Err(LangParserError::too_large());
                }
                let input = Span::new(chars.as_slice());
                assert(spans_text(input, text@));
                match crate::parsers::inline::keyword(input) {
                    Ok((_, v)) => Ok(v),
                    Err(e) => Err(e),
                }
            },
            _ => Err(LangParserError::unsupported()),
        }
    }
}

} // verus!
