//! Parsers for the elements that stand on lines of their own.

pub mod blockquotes;
pub mod code;
pub mod definitions;
pub mod dividers;
pub mod headers;
pub mod lists;
pub mod math;
pub mod paragraphs;
pub mod placeholders;
pub mod render;
pub mod tables;

use crate::elements::blocks::{BlockElement, BlockElementView};
use crate::error::LangParserError;
use crate::elements::page::{element_nested, ElementView};
use crate::located::Located;
use crate::parsers::nesting::lemma_block_nested;
use crate::parsers::blocks::blockquotes::{blockquote_bare, spec_blockquote};
use crate::parsers::blocks::code::{code_block_bare, spec_code_block};
use crate::parsers::blocks::definitions::{definition_list_bare, spec_definition_list};
use crate::parsers::blocks::dividers::{divider_bare, spec_divider};
use crate::parsers::blocks::headers::{header_bare, spec_header};
use crate::parsers::blocks::lists::{list_bare, spec_list};
use crate::parsers::blocks::math::{math_block_bare, spec_math_block};
use crate::parsers::blocks::paragraphs::{paragraph_bare, spec_paragraph};
use crate::parsers::blocks::placeholders::{placeholder_bare, spec_placeholder};
use crate::parsers::blocks::tables::{spec_table, table_bare};
use crate::parsers::utils::{
    blank_line, context, le, non_blank_line, parse_agrees, spec_blank_line, spec_located,
    spec_non_blank_line, IResult,
};
use crate::span::Span;
use std::borrow::Cow;
use vstd::prelude::*;

verus! {

/// What `block_component` yields, before it is located: the first that
/// matches of a header, a definition list, a list, a table, a code block,
/// a math block, a blank line, a blockquote, a divider, a placeholder, a
/// paragraph, and a line taken as it stands.
pub open spec fn spec_block_component_bare(input: Span) -> Option<(BlockElementView, int)> {
    if let Some((x, n)) = spec_header(input) {
        Some((BlockElementView::Header(x), n))
    } else if let Some((x, n)) = spec_definition_list(input) {
        Some((BlockElementView::DefinitionList(x), n))
    } else if let Some((x, n)) = spec_list(input) {
        Some((BlockElementView::List(x), n))
    } else if let Some((x, n)) = spec_table(input) {
        Some((BlockElementView::Table(x), n))
    } else if let Some((x, n)) = spec_code_block(input) {
        Some((BlockElementView::CodeBlock(x), n))
    } else if let Some((x, n)) = spec_math_block(input) {
        Some((BlockElementView::Math(x), n))
    } else if let Some((_, n)) = spec_blank_line(input) {
        Some((BlockElementView::BlankLine, n))
    } else if let Some((x, n)) = spec_blockquote(input) {
        Some((BlockElementView::Blockquote(x), n))
    } else if let Some((_, n)) = spec_divider(input) {
        Some((BlockElementView::Divider, n))
    } else if let Some((x, n)) = spec_placeholder(input) {
        Some((BlockElementView::Placeholder(x), n))
    } else if let Some((x, n)) = spec_paragraph(input) {
        Some((BlockElementView::Paragraph(x), n))
    } else if let Some((x, n)) = spec_non_blank_line(input) {
        Some((BlockElementView::NonBlankLine(x), n))
    } else {
        None
    }
}

/// What `block_component` yields: a block element with the region that it
/// covers, which is all that was consumed for it.
pub open spec fn spec_block_component(input: Span) -> Option<(Located<BlockElementView>, int)> {
    spec_located(input, spec_block_component_bare(input))
}

/// At the start of a line that the input does not end on, there is always
/// a block element: at the least, the line is blank or it is not.
pub proof fn lemma_block_component_total(input: Span)
    requires
        input.wf(),
        input.spec_at_line_start(),
        input@.len() > 0,
    ensures
        spec_block_component_bare(input) is Some,
{
}

/// Parses a block element, before it is located.
pub fn block_component_bare<'a>(input: Span<'a>) -> (r: IResult<'a, BlockElement<'static>>)
    requires
        input.wf(),
    ensures
        parse_agrees(r, input, spec_block_component_bare(input)),
        r matches Ok((rest, _)) ==> rest.start > input.start && rest.at_boundary(),
{
    if let Ok((rest, x)) = header_bare(input) {
        return Ok((rest, BlockElement::Header(x)));
    }
    if let Ok((rest, x)) = definition_list_bare(input) {
        return Ok((rest, BlockElement::DefinitionList(x)));
    }
    if let Ok((rest, x)) = list_bare(input) {
        return Ok((rest, BlockElement::List(x)));
    }
    if let Ok((rest, x)) = table_bare(input) {
        return Ok((rest, BlockElement::Table(x)));
    }
    if let Ok((rest, x)) = code_block_bare(input) {
        return Ok((rest, BlockElement::CodeBlock(x)));
    }
    if let Ok((rest, x)) = math_block_bare(input) {
        return Ok((rest, BlockElement::Math(x)));
    }
    if let Ok((rest, _)) = blank_line(input) {
        return Ok((rest, BlockElement::BlankLine));
    }
    if let Ok((rest, x)) = blockquote_bare(input) {
        return Ok((rest, BlockElement::Blockquote(x)));
    }
    if let Ok((rest, x)) = divider_bare(input) {
        return Ok((rest, BlockElement::Divider(x)));
    }
    if let Ok((rest, x)) = placeholder_bare(input) {
        return Ok((rest, BlockElement::Placeholder(x)));
    }
    if let Ok((rest, x)) = paragraph_bare(input) {
        return Ok((rest, BlockElement::Paragraph(x)));
    }
    match non_blank_line(input) {
        Ok((rest, x)) => Ok((rest, BlockElement::NonBlankLine(Cow::Owned(x)))),
        Err(_) => Err(LangParserError::from_ctx(&input, "No block element")),
    }
}

/// Parses a block element. The kinds are tried in a fixed order, since
/// several begin alike: a header, a definition list, a list, a table, a
/// code block, a math block, a blank line, a blockquote, a divider, a
/// placeholder, a paragraph; a line that is none of them is taken as it
/// stands.
pub fn block_component<'a>(input: Span<'a>) -> (r: IResult<'a, Located<BlockElement<'static>>>)
    requires
        input.wf(),
    ensures
        parse_agrees(r, input, spec_block_component(input)),
        r matches Ok((rest, _)) ==> rest.start > input.start && rest.at_boundary(),
        input.spec_at_line_start() && input@.len() > 0 ==> r is Ok,
        r matches Ok((_, b)) ==> element_nested(
            Located { value: ElementView::Block(b@.value), region: b@.region },
        ),
{
    proof {
        if input.spec_at_line_start() && input@.len() > 0 {
            lemma_block_component_total(input);
        }
        if spec_block_component_bare(input) is Some {
            lemma_block_nested(input);
        }
    }
    context("Block Element", le(&input, block_component_bare(input)))
}

} // verus!
