//! Horizontal rules.

use crate::elements::blocks::Divider;
use crate::error::LangParserError;
use crate::located::Located;
use crate::parsers::scanning::{at_end_of_line, leading_count, line_ending_len, tail};
use crate::parsers::utils::{context, le, parse_agrees, skip_eol, spec_located, IResult};
use crate::span::Span;
use vstd::prelude::*;

verus! {

impl View for Divider {
    type V = Divider;

    open spec fn view(&self) -> Divider {
        *self
    }
}

/// What `divider` yields, before it is located: a line of four or more `-`
/// and nothing else.
pub open spec fn spec_divider(input: Span) -> Option<(Divider, int)> {
    let n = leading_count(input@, '-');
    let after = tail(input@, n);
    if input.spec_at_line_start() && n >= 4 && at_end_of_line(after) {
        Some((Divider {  }, n + line_ending_len(after)))
    } else {
        None
    }
}

/// Parses a divider, before it is located.
pub fn divider_bare<'a>(input: Span<'a>) -> (r: IResult<'a, Divider>)
    requires
        input.wf(),
    ensures
        parse_agrees(r, input, spec_divider(input)),
        r matches Ok((rest, _)) ==> rest.start > input.start && rest.at_boundary(),
{
    proof {
        assert(tail(input@, 0) =~= input@);
    }
    if !input.at_line_start() {
        return Err(LangParserError::from_ctx(&input, "Not at beginning of line"));
    }
    let n = input.count_char_at(0, '-');
    if n < 4 {
        return Err(LangParserError::from_ctx(&input, "Too few hyphens"));
    }
    let after = input.advance(n);
    match skip_eol(after) {
        Some(rest) => {
            proof {
                input.lemma_leads_to_trans(after, rest);
            }
            Ok((rest, Divider {  }))
        },
        None => Err(LangParserError::from_ctx(&input, "Divider not alone")),
    }
}

/// Parses a divider: a line of four or more `-` and nothing else.
pub fn divider<'a>(input: Span<'a>) -> (r: IResult<'a, Located<Divider>>)
    requires
        input.wf(),
    ensures
        parse_agrees(r, input, spec_located(input, spec_divider(input))),
{
    context("Divider", le(&input, divider_bare(input)))
}

} // verus!
