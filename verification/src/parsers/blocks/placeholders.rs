//! Lines that set a property of the page: `%title`, `%nohtml`, `%template`,
//! `%date` and the like.

use crate::elements::blocks::{Placeholder, PlaceholderView};
use crate::elements::date::{calendar_date, Date};
use crate::error::LangParserError;
use crate::located::Located;
use crate::parsers::scanning::{
    at_end_of_line, leading_spaces, line_ending_len, line_len, line_until_len, strs_view, tail,
};
use crate::parsers::utils::{
    context, has_content, le, parse_agrees, skip_eol, skip_spaces, skip_tag, span_has_content,
    spec_located, stepped, take_line, take_until, IResult,
};
use crate::span::Span;
use std::borrow::Cow;
use vstd::prelude::*;

verus! {

/// What ends the name of a placeholder.
pub open spec fn name_stops() -> Seq<Seq<char>> {
    seq![" "@, "\t"@, "%"@]
}

/// The value of a placeholder at the front of `s`: what stands after at
/// least one space or tab, up to the end of the line, if it is not blank.
pub open spec fn spec_value(s: Seq<char>) -> Option<(Seq<char>, int)> {
    let sp = leading_spaces(s);
    let t = tail(s, sp);
    let n = line_len(t);
    if sp > 0 && has_content(t.subrange(0, n)) {
        Some((t.subrange(0, n), sp + n))
    } else {
        None
    }
}

/// `%title text`.
pub open spec fn spec_placeholder_title(s: Seq<char>) -> Option<(PlaceholderView, int)> {
    if "%title"@.is_prefix_of(s) {
        match spec_value(tail(s, "%title"@.len() as int)) {
            Some((v, n)) => Some((PlaceholderView::Title(v), "%title"@.len() + n)),
            None => None,
        }
    } else {
        None
    }
}

/// `%nohtml`, with the spaces after it.
pub open spec fn spec_placeholder_nohtml(s: Seq<char>) -> Option<(PlaceholderView, int)> {
    if "%nohtml"@.is_prefix_of(s) {
        Some(
            (
                PlaceholderView::NoHtml,
                "%nohtml"@.len() + leading_spaces(tail(s, "%nohtml"@.len() as int)),
            ),
        )
    } else {
        None
    }
}

/// `%template name`.
pub open spec fn spec_placeholder_template(s: Seq<char>) -> Option<(PlaceholderView, int)> {
    if "%template"@.is_prefix_of(s) {
        match spec_value(tail(s, "%template"@.len() as int)) {
            Some((v, n)) => Some((PlaceholderView::Template(v), "%template"@.len() + n)),
            None => None,
        }
    } else {
        None
    }
}

/// `%date 2012-03-05`: what stands after the spaces, up to the end of the
/// line, must be a date.
pub open spec fn spec_placeholder_date(s: Seq<char>) -> Option<(PlaceholderView, int)> {
    if "%date"@.is_prefix_of(s) {
        let t = tail(s, "%date"@.len() as int);
        let sp = leading_spaces(t);
        let u = tail(t, sp);
        let n = line_len(u);
        if sp > 0 {
            match calendar_date(u.subrange(0, n)) {
                Some(d) => Some((PlaceholderView::Date(d), "%date"@.len() + sp + n)),
                None => None,
            }
        } else {
            None
        }
    } else {
        None
    }
}

/// Whether `s` begins with the name of one of the four placeholders that
/// have a meaning of their own.
pub open spec fn is_known_placeholder(s: Seq<char>) -> bool {
    "%title"@.is_prefix_of(s) || "%nohtml"@.is_prefix_of(s) || "%template"@.is_prefix_of(s)
        || "%date"@.is_prefix_of(s)
}

/// `%name value`, for a name that is none of the four known ones: the name
/// is at least one character and holds no space, tab or `%`.
pub open spec fn spec_placeholder_other(s: Seq<char>) -> Option<(PlaceholderView, int)> {
    if !is_known_placeholder(s) && "%"@.is_prefix_of(s) {
        let t = tail(s, "%"@.len() as int);
        let k = line_until_len(t, name_stops());
        if k > 0 {
            match spec_value(tail(t, k)) {
                Some((v, n)) => Some(
                    (PlaceholderView::Other { name: t.subrange(0, k), value: v }, "%"@.len() + k + n),
                ),
                None => None,
            }
        } else {
            None
        }
    } else {
        None
    }
}

/// The placeholder at the front of `s`, without the end of its line: the
/// first of the five forms that matches.
pub open spec fn spec_placeholder_inner(s: Seq<char>) -> Option<(PlaceholderView, int)> {
    if spec_placeholder_title(s) is Some {
        spec_placeholder_title(s)
    } else if spec_placeholder_nohtml(s) is Some {
        spec_placeholder_nohtml(s)
    } else if spec_placeholder_template(s) is Some {
        spec_placeholder_template(s)
    } else if spec_placeholder_date(s) is Some {
        spec_placeholder_date(s)
    } else {
        spec_placeholder_other(s)
    }
}

/// What `placeholder` yields, before it is located: the placeholder of a
/// line that holds nothing else.
pub open spec fn spec_placeholder(input: Span) -> Option<(PlaceholderView, int)> {
    match spec_placeholder_inner(input@) {
        Some((p, n)) => {
            let after = tail(input@, n);
            if input.spec_at_line_start() && at_end_of_line(after) {
                Some((p, n + line_ending_len(after)))
            } else {
                None
            }
        },
        None => None,
    }
}

/// Parses the value of a placeholder.
pub fn value<'a>(input: Span<'a>) -> (r: Option<(Span<'a>, String)>)
    requires
        input.wf(),
    ensures
        match r {
            Some((rest, v)) => spec_value(input@) == Some((v@, rest.start - input.start))
                && stepped(input, rest, rest.start - input.start),
            None => spec_value(input@) is None,
        },
{
    let t = skip_spaces(input);
    if t.start_offset() == input.start_offset() {
        return None;
    }
    let (rest, text) = take_line(t);
    if !span_has_content(&text) {
        return None;
    }
    proof {
        input.lemma_leads_to_trans(t, rest);
        input.lemma_skip(rest.start - input.start);
    }
    Some((rest, text.to_text()))
}

/// Parses `%title text`.
pub fn placeholder_title<'a>(input: Span<'a>) -> (r: IResult<'a, Placeholder<'static>>)
    requires
        input.wf(),
    ensures
        parse_agrees(r, input, spec_placeholder_title(input@)),
{
    let t = match skip_tag(input, "%title") {
        Some(t) => t,
        None => {
            return Err(
                LangParserError::from_ctx(&input, "Not a title").with_context(
                    "Placeholder Title",
                ),
            );
        },
    };
    match value(t) {
        Some((rest, v)) => {
            proof {
                input.lemma_leads_to_trans(t, rest);
            }
            Ok((rest, Placeholder::Title(Cow::Owned(v))))
        },
        None => Err(
            LangParserError::from_ctx(&input, "No title").with_context("Placeholder Title"),
        ),
    }
}

/// Parses `%nohtml`.
pub fn placeholder_nohtml<'a>(input: Span<'a>) -> (r: IResult<'a, Placeholder<'static>>)
    requires
        input.wf(),
    ensures
        parse_agrees(r, input, spec_placeholder_nohtml(input@)),
{
    let t = match skip_tag(input, "%nohtml") {
        Some(t) => t,
        None => {
            return Err(
                LangParserError::from_ctx(&input, "Not nohtml").with_context(
                    "Placeholder NoHtml",
                ),
            );
        },
    };
    let rest = skip_spaces(t);
    proof {
        input.lemma_leads_to_trans(t, rest);
    }
    Ok((rest, Placeholder::NoHtml))
}

/// Parses `%template name`.
pub fn placeholder_template<'a>(input: Span<'a>) -> (r: IResult<'a, Placeholder<'static>>)
    requires
        input.wf(),
    ensures
        parse_agrees(r, input, spec_placeholder_template(input@)),
{
    let t = match skip_tag(input, "%template") {
        Some(t) => t,
        None => {
            return Err(
                LangParserError::from_ctx(&input, "Not a template").with_context(
                    "Placeholder Template",
                ),
            );
        },
    };
    match value(t) {
        Some((rest, v)) => {
            proof {
                input.lemma_leads_to_trans(t, rest);
            }
            Ok((rest, Placeholder::Template(Cow::Owned(v))))
        },
        None => Err(
            LangParserError::from_ctx(&input, "No template").with_context(
                "Placeholder Template",
            ),
        ),
    }
}

/// Parses `%date` and a date in the form `YYYY-MM-DD`.
pub fn placeholder_date<'a>(input: Span<'a>) -> (r: IResult<'a, Placeholder<'static>>)
    requires
        input.wf(),
    ensures
        parse_agrees(r, input, spec_placeholder_date(input@)),
{
    let t = match skip_tag(input, "%date") {
        Some(t) => t,
        None => {
            return Err(
                LangParserError::from_ctx(&input, "Not a date").with_context("Placeholder Date"),
            );
        },
    };
    let u = skip_spaces(t);
    if u.start_offset() == t.start_offset() {
        return Err(LangParserError::from_ctx(&input, "No date").with_context("Placeholder Date"));
    }
    let (rest, text) = take_line(u);
    let s = text.to_text();
    match Date::parse(s.as_str()) {
        Some(d) => {
            proof {
                input.lemma_leads_to_trans(t, u);
                input.lemma_leads_to_trans(u, rest);
            }
            Ok((rest, Placeholder::Date(d)))
        },
        None => Err(
            LangParserError::from_ctx(&input, "Not a date").with_context("Placeholder Date"),
        ),
    }
}

/// Parses `%name value` for a name without a meaning of its own.
pub fn placeholder_other<'a>(input: Span<'a>) -> (r: IResult<'a, Placeholder<'static>>)
    requires
        input.wf(),
    ensures
        parse_agrees(r, input, spec_placeholder_other(input@)),
{
    if input.starts_with("%title") || input.starts_with("%nohtml") || input.starts_with(
        "%template",
    ) || input.starts_with("%date") {
        return Err(
            LangParserError::from_ctx(&input, "A known placeholder").with_context(
                "Placeholder Other",
            ),
        );
    }
    let t = match skip_tag(input, "%") {
        Some(t) => t,
        None => {
            return Err(
                LangParserError::from_ctx(&input, "Not a placeholder").with_context(
                    "Placeholder Other",
                ),
            );
        },
    };
    let stops = [" ", "\t", "%"];
    proof {
        assert(strs_view(stops@) =~= name_stops());
    }
    let (u, name) = take_until(t, stops.as_slice());
    if name.len() == 0 {
        return Err(
            LangParserError::from_ctx(&input, "No name").with_context("Placeholder Other"),
        );
    }
    match value(u) {
        Some((rest, v)) => {
            proof {
                input.lemma_leads_to_trans(t, u);
                input.lemma_leads_to_trans(u, rest);
            }
            Ok((rest, Placeholder::Other { name: Cow::Owned(name.to_text()), value: Cow::Owned(v) }))
        },
        None => Err(
            LangParserError::from_ctx(&input, "No value").with_context("Placeholder Other"),
        ),
    }
}

/// Parses a placeholder of any of the five forms, without the end of its
/// line.
pub fn placeholder_inner<'a>(input: Span<'a>) -> (r: IResult<'a, Placeholder<'static>>)
    requires
        input.wf(),
    ensures
        parse_agrees(r, input, spec_placeholder_inner(input@)),
{
    if let Ok(x) = placeholder_title(input) {
        return Ok(x);
    }
    if let Ok(x) = placeholder_nohtml(input) {
        return Ok(x);
    }
    if let Ok(x) = placeholder_template(input) {
        return Ok(x);
    }
    if let Ok(x) = placeholder_date(input) {
        return Ok(x);
    }
    placeholder_other(input)
}

/// Parses a placeholder, before it is located.
pub fn placeholder_bare<'a>(input: Span<'a>) -> (r: IResult<'a, Placeholder<'static>>)
    requires
        input.wf(),
    ensures
        parse_agrees(r, input, spec_placeholder(input)),
        r matches Ok((rest, _)) ==> rest.start > input.start && rest.at_boundary(),
{
    proof {
        reveal_strlit("%title");
        reveal_strlit("%nohtml");
        reveal_strlit("%template");
        reveal_strlit("%date");
        reveal_strlit("%");
    }
    if !input.at_line_start() {
        return Err(LangParserError::from_ctx(&input, "Not at beginning of line"));
    }
    match placeholder_inner(input) {
        Ok((after, p)) => {
            proof {
                input.lemma_skip(after.start - input.start);
            }
            match skip_eol(after) {
                Some(rest) => {
                    proof {
                        input.lemma_leads_to_trans(after, rest);
                    }
                    Ok((rest, p))
                },
                None => Err(LangParserError::from_ctx(&input, "Placeholder not alone")),
            }
        },
        Err(e) => Err(e),
    }
}

/// Parses a placeholder: a line that holds `%title text`, `%nohtml`,
/// `%template name`, `%date YYYY-MM-DD` or `%name value`, and nothing else.
pub fn placeholder<'a>(input: Span<'a>) -> (r: IResult<'a, Located<Placeholder<'static>>>)
    requires
        input.wf(),
    ensures
        parse_agrees(r, input, spec_located(input, spec_placeholder(input))),
{
    context("Placeholder", le(&input, placeholder_bare(input)))
}

} // verus!
