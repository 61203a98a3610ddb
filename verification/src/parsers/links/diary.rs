//! Links to diary entries: `[[diary:2012-03-05]]`.

use crate::elements::date::{calendar_date, Date};
use crate::elements::links::{DiaryLink, DiaryLinkView, WikiLink, WikiLinkView};
use crate::error::LangParserError;
use crate::located::Located;
use crate::parsers::links::wiki::{spec_wiki_link, wiki_link_bare};
use crate::parsers::scanning::{line_until_len, strs_view, tail};
use crate::parsers::utils::{context, le, parse_agrees, spec_located, IResult};
use crate::span::Span;
use crate::text::{text_str, to_chars};
use vstd::prelude::*;

verus! {

/// The day that a path of the form `diary:<date>` names: what follows the
/// `:` up to the end of the line, at least one character, read as a date.
pub open spec fn spec_date_from_path(path: Seq<char>) -> Option<Date> {
    if "diary:"@.is_prefix_of(path) {
        let t = tail(path, "diary:"@.len() as int);
        let n = line_until_len(t, Seq::empty());
        if n > 0 {
            calendar_date(t.subrange(0, n))
        } else {
            None
        }
    } else {
        None
    }
}

/// The diary link that a wiki link is, if its path names a day.
pub open spec fn spec_diary_of(l: WikiLinkView) -> Option<DiaryLinkView> {
    match spec_date_from_path(l.path) {
        Some(date) => Some(DiaryLinkView { date, description: l.description, anchor: l.anchor }),
        None => None,
    }
}

/// What `diary_link` yields, before it is located.
pub open spec fn spec_diary_link(s: Seq<char>) -> Option<(DiaryLinkView, int)> {
    match spec_wiki_link(s) {
        Some((l, n)) => match spec_diary_of(l) {
            Some(d) => Some((d, n)),
            None => None,
        },
        None => None,
    }
}

/// The day that the path of a link names, if it names one.
pub fn parse_date_from_path(path: &str) -> (r: Option<Date>)
    requires
        path@.len() < usize::MAX,
    ensures
        r == spec_date_from_path(path@),
{
    let chars = to_chars(path);
    let input = Span::new(chars.as_slice());
    if !input.starts_with("diary:") {
        return None;
    }
    let a = "diary:".unicode_len();
    let none: [&str; 0] = [];
    proof {
        assert(strs_view(none@) =~= Seq::empty());
    }
    let n = input.line_until_at(a, none.as_slice());
    if n == 0 {
        return None;
    }
    let t = input.advance(a);
    proof {
        input.lemma_skip(a as int);
    }
    let text = t.take(n).to_text();
    Date::parse(text.as_str())
}

/// Turns a wiki link into the diary link that it is, if its path names a
/// day.
pub fn diary_of(link: WikiLink<'static>) -> (r: Option<DiaryLink<'static>>)
    requires
        link@.path.len() < usize::MAX,
    ensures
        match r {
            Some(d) => spec_diary_of(link@) == Some(d@),
            None => spec_diary_of(link@) is None,
        },
{
    let WikiLink { path, description, anchor } = link;
    match parse_date_from_path(text_str(&path)) {
        Some(date) => Some(DiaryLink::new(date, description, anchor)),
        None => None,
    }
}

/// Parses a diary link, before it is located.
pub fn diary_link_bare<'a>(input: Span<'a>) -> (r: IResult<'a, DiaryLink<'static>>)
    requires
        input.wf(),
    ensures
        parse_agrees(r, input, spec_diary_link(input@)),
        r matches Ok((rest, _)) ==> rest.start > input.start,
{
    match wiki_link_bare(input) {
        Ok((rest, link)) => match diary_of(link) {
            Some(d) => Ok((rest, d)),
            None => Err(LangParserError::from_ctx(&input, "Not diary link")),
        },
        Err(e) => Err(e),
    }
}

/// Parses a link to a diary entry: a wiki link whose path is `diary:` and a
/// date in the form `YYYY-MM-DD`.
pub fn diary_link<'a>(input: Span<'a>) -> (r: IResult<'a, Located<DiaryLink<'static>>>)
    requires
        input.wf(),
    ensures
        parse_agrees(r, input, spec_located(input, spec_diary_link(input@))),
{
    context("Diary Link", le(&input, diary_link_bare(input)))
}

} // verus!
