//! Blocks of formulas, between `{{$` and `}}$`.

use crate::elements::blocks::{MathBlock, MathBlockView};
use crate::elements::code::opt_text_view;
use crate::error::LangParserError;
use crate::located::Located;
use crate::parsers::blocks::code::{fenced_body, got, spec_fenced_body, used};
use crate::parsers::scanning::{at_end_of_line, leading_spaces, line_ending_len, tail};
use crate::parsers::utils::{
    context, le, parse_agrees, skip_eol, skip_spaces, skip_tag, spec_located,
    spec_surround_in_line1, stepped, surround_in_line1, IResult,
};
use crate::span::Span;
use std::borrow::Cow;
use vstd::prelude::*;

verus! {

/// The name of the environment at the front of `s`: what stands between
/// two `%`.
pub open spec fn spec_environment(s: Seq<char>) -> Option<(Seq<char>, int)> {
    match spec_surround_in_line1(s, "%"@, "%"@) {
        Some((from, len, total)) => Some((s.subrange(from, from + len), total)),
        None => None,
    }
}

/// What the opening line of a math block yields: the environment named on
/// it, if any. The line begins with `{{$`, which spaces may precede, and
/// holds nothing after the environment.
pub open spec fn spec_math_block_start(input: Span) -> Option<(Option<Seq<char>>, int)> {
    let s0 = input@;
    let a = leading_spaces(s0);
    let s1 = tail(s0, a);
    let s2 = tail(s1, "{{$"@.len() as int);
    let env = spec_environment(s2);
    let s3 = tail(s2, used(env));
    let b = leading_spaces(s3);
    let s4 = tail(s3, b);
    if input.spec_at_line_start() && "{{$"@.is_prefix_of(s1) && at_end_of_line(s4) {
        Some((got(env), a + "{{$"@.len() + used(env) + b + line_ending_len(s4)))
    } else {
        None
    }
}

/// What `math_block` yields, before it is located.
pub open spec fn spec_math_block(input: Span) -> Option<(MathBlockView, int)> {
    match spec_math_block_start(input) {
        Some((environment, n)) => match spec_fenced_body(input.skip(n), "}}$"@) {
            Some((lines, m)) => Some((MathBlockView { lines, environment }, n + m)),
            None => None,
        },
        None => None,
    }
}

/// Parses the name of an environment, if one stands at the front.
pub fn environment<'a>(input: Span<'a>) -> (r: (Span<'a>, Option<Cow<'static, str>>))
    requires
        input.wf(),
    ensures
        stepped(input, r.0, used(spec_environment(input@))),
        opt_text_view(r.1) == got(spec_environment(input@)),
{
    proof {
        reveal_strlit("%");
    }
    match surround_in_line1(input, "%", "%") {
        Ok((rest, taken)) => {
            proof {
                let (from, len, total) = spec_surround_in_line1(input@, "%"@, "%"@).unwrap();
                input.lemma_skip(from);
                input.skip(from).lemma_first(len);
                assert(taken@ =~= input@.subrange(from, from + len));
                input.lemma_skip(total);
            }
            (rest, Some(Cow::Owned(taken.to_text())))
        },
        Err(_) => (input.advance(0), None),
    }
}

/// Parses the opening line of a math block.
pub fn math_block_start<'a>(input: Span<'a>) -> (r: IResult<'a, Option<Cow<'static, str>>>)
    requires
        input.wf(),
    ensures
        match r {
            Ok((rest, env)) => {
                &&& spec_math_block_start(input) == Some(
                    (opt_text_view(env), rest.start - input.start),
                )
                &&& input.leads_to(rest)
                &&& rest.wf()
                &&& rest.start > input.start
            },
            Err(e) => spec_math_block_start(input) is None && e.kind
                == crate::error::ErrorKind::Mismatch && e.met_within(input),
        },
{
    proof {
        reveal_strlit("{{$");
    }
    if !input.at_line_start() {
        return Err(LangParserError::from_ctx(&input, "Not at beginning of line"));
    }
    let s1 = skip_spaces(input);
    let s2 = match skip_tag(s1, "{{$") {
        Some(x) => x,
        None => {
            return Err(LangParserError::from_ctx(&input, "No opening fence"));
        },
    };
    let (s3, env) = environment(s2);
    let s4 = skip_spaces(s3);
    let rest = match skip_eol(s4) {
        Some(x) => x,
        None => {
            return Err(LangParserError::from_ctx(&input, "Opening fence not alone"));
        },
    };
    proof {
        input.lemma_leads_to_trans(s1, s2);
        input.lemma_leads_to_trans(s2, s3);
        input.lemma_leads_to_trans(s3, s4);
        input.lemma_leads_to_trans(s4, rest);
    }
    Ok((rest, env))
}

/// Parses a math block, before it is located.
pub fn math_block_bare<'a>(input: Span<'a>) -> (r: IResult<'a, MathBlock<'static>>)
    requires
        input.wf(),
    ensures
        parse_agrees(r, input, spec_math_block(input)),
        r matches Ok((rest, _)) ==> rest.start > input.start && rest.at_boundary(),
{
    proof {
        reveal_strlit("}}$");
    }
    let (after_start, env) = match math_block_start(input) {
        Ok(x) => x,
        Err(e) => {
            return Err(e);
        },
    };
    proof {
        input.lemma_skip(after_start.start - input.start);
    }
    match fenced_body(after_start, "}}$") {
        Ok((rest, lines)) => {
            proof {
                input.lemma_leads_to_trans(after_start, rest);
            }
            Ok((rest, MathBlock::new(lines, env)))
        },
        Err(e) => Err(e),
    }
}

/// Parses a math block: an opening line `{{$`, with the name of an
/// environment between two `%` as its optional part, lines taken as they
/// stand, and a closing line `}}$`.
pub fn math_block<'a>(input: Span<'a>) -> (r: IResult<'a, Located<MathBlock<'static>>>)
    requires
        input.wf(),
    ensures
        parse_agrees(r, input, spec_located(input, spec_math_block(input))),
{
    context("Math Block", le(&input, math_block_bare(input)))
}

} // verus!
