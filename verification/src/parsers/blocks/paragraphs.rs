//! Paragraphs: lines of inline content that are nothing else.

use crate::elements::blocks::Paragraph;
use crate::elements::inline::{
    inline_views, InlineElement, InlineElementContainer, InlineElementView,
};
use crate::error::LangParserError;
use crate::located::Located;
use crate::parsers::blocks::blockquotes::{blockquote_bare, spec_blockquote};
use crate::parsers::blocks::code::{code_block_bare, spec_code_block};
use crate::parsers::blocks::definitions::{definition_list_bare, spec_definition_list};
use crate::parsers::blocks::dividers::{divider_bare, spec_divider};
use crate::parsers::blocks::headers::{header_bare, spec_header};
use crate::parsers::blocks::lists::{list_bare, spec_list};
use crate::parsers::blocks::math::{math_block_bare, spec_math_block};
use crate::parsers::blocks::placeholders::{placeholder_bare, spec_placeholder};
use crate::parsers::blocks::tables::{spec_table, table_bare};
use crate::parsers::inline::{inline_element_container_bare, spec_inline_container};
use crate::parsers::scanning::{at_end_of_line, leading_spaces, line_ending_len, tail};
use crate::parsers::utils::{
    blank_line, context, le, parse_agrees, skip_eol, spec_blank_line, spec_located, IResult,
};
use crate::span::Span;
use vstd::prelude::*;

verus! {

/// Whether a line of a paragraph may begin at `input`: no header,
/// definition list, list, table, code block, math block, blank line,
/// blockquote, divider or placeholder begins there.
pub open spec fn spec_continue_paragraph(input: Span) -> bool {
    &&& spec_header(input) is None
    &&& spec_definition_list(input) is None
    &&& spec_list(input) is None
    &&& spec_table(input) is None
    &&& spec_code_block(input) is None
    &&& spec_math_block(input) is None
    &&& spec_blank_line(input) is None
    &&& spec_blockquote(input) is None
    &&& spec_divider(input) is None
    &&& spec_placeholder(input) is None
}

/// The line of a paragraph at the front of `input`: inline elements, at
/// least one, that run to the end of the line.
pub open spec fn spec_paragraph_line(input: Span) -> Option<
    (Seq<Located<InlineElementView>>, int),
> {
    match spec_inline_container(input) {
        Some((items, n)) => {
            let after = tail(input@, n);
            if spec_continue_paragraph(input) && at_end_of_line(after) {
                Some((items, n + line_ending_len(after)))
            } else {
                None
            }
        },
        None => None,
    }
}

/// The inline elements of the lines of a paragraph at the front of `input`,
/// in order.
pub open spec fn spec_paragraph_lines(input: Span) -> (Seq<Located<InlineElementView>>, int)
    decreases input.spec_len(),
{
    match spec_paragraph_line(input) {
        Some((items, n)) => if 0 < n <= input.spec_len() {
            let more = spec_paragraph_lines(input.skip(n));
            (items + more.0, n + more.1)
        } else {
            (Seq::empty(), 0)
        },
        None => (Seq::empty(), 0),
    }
}

/// What `paragraph` yields, before it is located: the inline elements of
/// its lines, of which the first begins at the start of a line and is not
/// indented.
pub open spec fn spec_paragraph(input: Span) -> Option<(Seq<Located<InlineElementView>>, int)> {
    let r = spec_paragraph_lines(input);
    if input.spec_at_line_start() && leading_spaces(input@) == 0 && r.1 > 0 {
        Some(r)
    } else {
        None
    }
}

/// Tells whether a line of a paragraph may begin at the input.
pub fn continue_paragraph<'a>(input: Span<'a>) -> (r: bool)
    requires
        input.wf(),
    ensures
        r == spec_continue_paragraph(input),
{
    header_bare(input).is_err() && definition_list_bare(input).is_err() && list_bare(
        input,
    ).is_err() && table_bare(input).is_err() && code_block_bare(input).is_err()
        && math_block_bare(input).is_err() && blank_line(input).is_err() && blockquote_bare(
        input,
    ).is_err() && divider_bare(input).is_err() && placeholder_bare(input).is_err()
}

/// Parses one line of a paragraph.
pub fn paragraph_line<'a>(input: Span<'a>) -> (r: Option<
    (Span<'a>, Vec<Located<InlineElement<'static>>>),
>)
    requires
        input.wf(),
    ensures
        match r {
            Some((rest, items)) => {
                &&& spec_paragraph_line(input) == Some(
                    (inline_views(items@), rest.start - input.start),
                )
                &&& input.leads_to(rest)
                &&& rest.wf()
                &&& rest.start > input.start
                &&& rest.at_boundary()
            },
            None => spec_paragraph_line(input) is None,
        },
{
    if !continue_paragraph(input) {
        return None;
    }
    match inline_element_container_bare(input) {
        Ok((after, container)) => {
            proof {
                input.lemma_skip(after.start - input.start);
            }
            match skip_eol(after) {
                Some(rest) => {
                    proof {
                        input.lemma_leads_to_trans(after, rest);
                    }
                    Some((rest, container.elements))
                },
                None => None,
            }
        },
        Err(_) => None,
    }
}

/// Parses a paragraph, before it is located.
pub fn paragraph_bare<'a>(input: Span<'a>) -> (r: IResult<'a, Paragraph<'static>>)
    requires
        input.wf(),
    ensures
        parse_agrees(r, input, spec_paragraph(input)),
        r matches Ok((rest, _)) ==> rest.start > input.start && rest.at_boundary(),
{
    proof {
        assert(tail(input@, 0) =~= input@);
    }
    if !input.at_line_start() {
        return Err(LangParserError::from_ctx(&input, "Not at beginning of line"));
    }
    if input.spaces_at(0) > 0 {
        return Err(LangParserError::from_ctx(&input, "Paragraph is indented"));
    }
    let mut out: Vec<Located<InlineElement<'static>>> = Vec::new();
    let mut cur = input;
    let mut done = false;
    proof {
        input.lemma_skip(0);
        assert(inline_views(out@) =~= Seq::empty());
        assert(Seq::<Located<InlineElementView>>::empty() + spec_paragraph_lines(input).0
            =~= spec_paragraph_lines(input).0);
    }
    while !done
        invariant
            input.wf(),
            cur.wf(),
            input.leads_to(cur),
            spec_paragraph_lines(input).0 == inline_views(out@) + spec_paragraph_lines(cur).0,
            spec_paragraph_lines(input).1 == (cur.start - input.start) + spec_paragraph_lines(
                cur,
            ).1,
            done ==> spec_paragraph_lines(cur).1 == 0 && spec_paragraph_lines(cur).0.len() == 0,
            cur.start > input.start ==> cur.at_boundary(),
        decreases cur.spec_len() + (if done { 0int } else { 1int }),
    {
        match paragraph_line(cur) {
            Some((next, items)) => {
                let ghost before = out@;
                let ghost added = items@;
                let mut items = items;
                out.append(&mut items);
                proof {
                    input.lemma_leads_to_trans(cur, next);
                    let more = spec_paragraph_lines(next);
                    assert(inline_views(out@) =~= inline_views(before) + inline_views(added));
                    assert(inline_views(before) + (inline_views(added) + more.0) =~= (
                    inline_views(before) + inline_views(added)) + more.0);
                }
                cur = next;
            },
            None => {
                done = true;
            },
        }
    }
    proof {
        assert(inline_views(out@) + Seq::<Located<InlineElementView>>::empty() =~= inline_views(
            out@,
        ));
    }
    if cur.start_offset() > input.start_offset() {
        Ok((cur, Paragraph::new(InlineElementContainer::new(out))))
    } else {
        Err(LangParserError::from_ctx(&input, "Not a paragraph"))
    }
}

/// Parses a paragraph: lines of inline content, one after the other, up to
/// the first line that is blank or begins another block element. The first
/// line is not indented; what begins a later line, spaces too, is part of
/// the text.
pub fn paragraph<'a>(input: Span<'a>) -> (r: IResult<'a, Located<Paragraph<'static>>>)
    requires
        input.wf(),
    ensures
        parse_agrees(r, input, spec_located(input, spec_paragraph(input))),
{
    context("Paragraph", le(&input, paragraph_bare(input)))
}

} // verus!
