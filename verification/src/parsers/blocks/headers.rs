//! Headings: `= text =`.

use crate::elements::blocks::{Header, HeaderView};
use crate::error::LangParserError;
use crate::located::Located;
use crate::parsers::scanning::{
    leading_count, leading_spaces, line_ending_len, line_until_len, strs_view, tail,
    trailing_count, trailing_spaces, trimmed,
};
use crate::parsers::utils::{
    context, le, parse_agrees, skip_eol, skip_spaces, spec_located, take_until, IResult,
};
use crate::span::Span;
use std::borrow::Cow;
use vstd::prelude::*;

verus! {

/// What `header` yields, before it is located. The line may begin with
/// spaces, which make the header centered. Then come from one to six `=`,
/// whose number is the level, the text, and as many `=` again; spaces may
/// follow. The text is what stands between the two runs of `=`, without the
/// spaces at its ends; it is not empty.
pub open spec fn spec_header(input: Span) -> Option<(HeaderView, int)> {
    let s0 = input@;
    let a = leading_spaces(s0);
    let s1 = tail(s0, a);
    let l = line_until_len(s1, Seq::empty());
    let line = s1.subrange(0, l);
    let core = line.subrange(0, l - trailing_spaces(line));
    let level = leading_count(core, '=');
    let close = trailing_count(core, '=');
    let body = tail(core, level);
    let text = trimmed(body.subrange(0, body.len() - close));
    if input.spec_at_line_start() && 1 <= level <= 6 && close == level && close <= body.len()
        && text.len() > 0 {
        Some(
            (
                HeaderView { level: level as usize, text, centered: a > 0 },
                a + l + line_ending_len(tail(s1, l)),
            ),
        )
    } else {
        None
    }
}

/// Parses a header, before it is located.
pub fn header_bare<'a>(input: Span<'a>) -> (r: IResult<'a, Header<'static>>)
    requires
        input.wf(),
    ensures
        parse_agrees(r, input, spec_header(input)),
        r matches Ok((rest, _)) ==> rest.start > input.start && rest.at_boundary(),
{
    if !input.at_line_start() {
        return Err(LangParserError::from_ctx(&input, "Not at beginning of line"));
    }
    let s1 = skip_spaces(input);
    let none: [&str; 0] = [];
    proof {
        assert(strs_view(none@) =~= Seq::empty());
    }
    let (after, line) = take_until(s1, none.as_slice());
    let core = line.drop_last(line.trailing_space_count());
    proof {
        assert(tail(core@, 0) =~= core@);
    }
    let level = core.count_char_at(0, '=');
    let close = core.trailing_char_count('=');
    proof {
        let s0 = input@;
        let a = leading_spaces(s0);
        let l = line_until_len(s1@, Seq::empty());
        assert(s1@ == tail(s0, a));
        assert(line@ == s1@.subrange(0, l));
        assert(line@.len() == l);
        assert(core@ == line@.subrange(0, l - trailing_spaces(line@)));
        assert(level == leading_count(core@, '='));
        assert(close == trailing_count(core@, '='));
    }
    if level < 1 || level > 6 || close != level {
        return Err(LangParserError::from_ctx(&input, "Not a header"));
    }
    let body = core.advance(level);
    if close > body.len() {
        return Err(LangParserError::from_ctx(&input, "Not a header"));
    }
    let text = body.drop_last(close).trim();
    proof {
        assert(body@ == tail(core@, level as int));
        assert(text@ == trimmed(body@.subrange(0, body@.len() - close)));
        crate::parsers::scanning::lemma_line_until_stops(s1@, Seq::empty());
    }
    if text.len() == 0 {
        return Err(LangParserError::from_ctx(&input, "Header without text"));
    }
    match skip_eol(after) {
        Some(rest) => {
            proof {
                input.lemma_leads_to_trans(s1, after);
                input.lemma_leads_to_trans(after, rest);
            }
            Ok(
                (
                    rest,
                    Header::new(
                        level,
                        Cow::Owned(text.to_text()),
                        s1.start_offset() > input.start_offset(),
                    ),
                ),
            )
        },
        None => Err(LangParserError::from_ctx(&input, "Not a header")),
    }
}

/// Parses a header: a line `= text =` with one to six `=` on each side, as
/// many on the right as on the left.
pub fn header<'a>(input: Span<'a>) -> (r: IResult<'a, Located<Header<'static>>>)
    requires
        input.wf(),
    ensures
        parse_agrees(r, input, spec_located(input, spec_header(input))),
{
    context("Header", le(&input, header_bare(input)))
}

} // verus!
