//! Quoted lines: each begins with `>`.

use crate::elements::blocks::Blockquote;
use crate::error::LangParserError;
use crate::located::Located;
use crate::parsers::scanning::{line_ending_len, line_until_len, strs_view, tail};
use crate::parsers::utils::{
    context, le, parse_agrees, skip_eol, skip_tag, spec_located, take_until, IResult,
};
use crate::span::Span;
use crate::text::texts_view;
use std::borrow::Cow;
use vstd::prelude::*;

verus! {

/// Number of characters of the space that may follow the `>`.
pub open spec fn gap_len(s: Seq<char>) -> int {
    if " "@.is_prefix_of(s) {
        " "@.len() as int
    } else {
        0
    }
}

/// The quoted line at the front of `input`: what stands after `>` and one
/// space, if there is one, up to the end of the line.
pub open spec fn spec_quote_line(input: Span) -> Option<(Seq<char>, int)> {
    let s0 = input@;
    let s1 = tail(s0, ">"@.len() as int);
    let g = gap_len(s1);
    let s2 = tail(s1, g);
    let n = line_until_len(s2, Seq::empty());
    if input.spec_at_line_start() && ">"@.is_prefix_of(s0) {
        Some((s2.subrange(0, n), ">"@.len() + g + n + line_ending_len(tail(s2, n))))
    } else {
        None
    }
}

/// The quoted lines at the front of `input`.
pub open spec fn spec_quote_lines(input: Span) -> (Seq<Seq<char>>, int)
    decreases input.spec_len(),
{
    match spec_quote_line(input) {
        Some((line, n)) => if 0 < n <= input.spec_len() {
            let more = spec_quote_lines(input.skip(n));
            (seq![line] + more.0, n + more.1)
        } else {
            (Seq::empty(), 0)
        },
        None => (Seq::empty(), 0),
    }
}

/// What `blockquote` yields, before it is located: quoted lines, at least
/// one.
pub open spec fn spec_blockquote(input: Span) -> Option<(Seq<Seq<char>>, int)> {
    let r = spec_quote_lines(input);
    if r.0.len() > 0 {
        Some(r)
    } else {
        None
    }
}

/// Parses one quoted line.
pub fn quote_line<'a>(input: Span<'a>) -> (r: Option<(Span<'a>, String)>)
    requires
        input.wf(),
    ensures
        match r {
            Some((rest, line)) => {
                &&& spec_quote_line(input) == Some((line@, rest.start - input.start))
                &&& input.leads_to(rest)
                &&& rest.wf()
                &&& rest.start > input.start
                &&& rest.at_boundary()
            },
            None => spec_quote_line(input) is None,
        },
{
    proof {
        reveal_strlit(">");
    }
    if !input.at_line_start() {
        return None;
    }
    let s1 = match skip_tag(input, ">") {
        Some(x) => x,
        None => {
            return None;
        },
    };
    let s2 = match skip_tag(s1, " ") {
        Some(x) => x,
        None => s1.advance(0),
    };
    proof {
        assert(tail(s1@, 0) =~= s1@);
        s1.lemma_skip(0);
    }
    let none: [&str; 0] = [];
    proof {
        assert(strs_view(none@) =~= Seq::empty());
    }
    let (after, line) = take_until(s2, none.as_slice());
    proof {
        crate::parsers::scanning::lemma_line_until_stops(s2@, Seq::empty());
    }
    match skip_eol(after) {
        Some(rest) => {
            proof {
                input.lemma_leads_to_trans(s1, s2);
                input.lemma_leads_to_trans(s2, after);
                input.lemma_leads_to_trans(after, rest);
            }
            Some((rest, line.to_text()))
        },
        None => None,
    }
}

/// Parses a blockquote, before it is located.
pub fn blockquote_bare<'a>(input: Span<'a>) -> (r: IResult<'a, Blockquote<'static>>)
    requires
        input.wf(),
    ensures
        parse_agrees(r, input, spec_blockquote(input)),
        r matches Ok((rest, _)) ==> rest.start > input.start && rest.at_boundary(),
{
    let mut lines: Vec<Cow<'static, str>> = Vec::new();
    let mut cur = input;
    let mut done = false;
    proof {
        input.lemma_skip(0);
        assert(texts_view(lines@) =~= Seq::empty());
        assert(Seq::<Seq<char>>::empty() + spec_quote_lines(input).0 =~= spec_quote_lines(input).0);
    }
    while !done
        invariant
            input.wf(),
            cur.wf(),
            input.leads_to(cur),
            spec_quote_lines(input).0 == texts_view(lines@) + spec_quote_lines(cur).0,
            spec_quote_lines(input).1 == (cur.start - input.start) + spec_quote_lines(cur).1,
            done ==> spec_quote_lines(cur).1 == 0 && spec_quote_lines(cur).0.len() == 0,
            lines@.len() > 0 ==> cur.start > input.start && cur.at_boundary(),
        decreases cur.spec_len() + (if done { 0int } else { 1int }),
    {
        match quote_line(cur) {
            Some((next, line)) => {
                proof {
                    input.lemma_leads_to_trans(cur, next);
                    let before = texts_view(lines@);
                    let more = spec_quote_lines(next);
                    assert(before + (seq![line@] + more.0) =~= before.push(line@) + more.0);
                }
                let ghost before = lines@;
                lines.push(Cow::Owned(line));
                proof {
                    assert(texts_view(lines@) =~= texts_view(before).push(line@));
                }
                cur = next;
            },
            None => {
                done = true;
            },
        }
    }
    proof {
        assert(texts_view(lines@) + Seq::<Seq<char>>::empty() =~= texts_view(lines@));
    }
    if lines.len() > 0 {
        Ok((cur, Blockquote::new(lines)))
    } else {
        Err(LangParserError::from_ctx(&input, "Not a blockquote"))
    }
}

/// Parses a blockquote: lines that begin with `>`, one after the other.
pub fn blockquote<'a>(input: Span<'a>) -> (r: IResult<'a, Located<Blockquote<'static>>>)
    requires
        input.wf(),
    ensures
        parse_agrees(r, input, spec_located(input, spec_blockquote(input))),
{
    context("Blockquote", le(&input, blockquote_bare(input)))
}

} // verus!
