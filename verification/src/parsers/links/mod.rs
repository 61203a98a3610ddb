//! Parsers for links.

pub mod diary;
pub mod external;
pub mod interwiki;
pub mod raw;
pub mod transclusion;
pub mod wiki;

use crate::elements::links::{Link, LinkView};
use crate::error::LangParserError;
use crate::located::Located;
use crate::parsers::links::diary::{diary_link_bare, spec_diary_link};
use crate::parsers::links::external::{external_file_link_bare, spec_external_file_link};
use crate::parsers::links::interwiki::{inter_wiki_link_bare, spec_inter_wiki_link};
use crate::parsers::links::raw::{raw_link_bare, spec_raw_link};
use crate::parsers::links::transclusion::{spec_transclusion_link, transclusion_link_bare};
use crate::parsers::links::wiki::{spec_wiki_link, wiki_link_bare};
use crate::parsers::utils::{context, le, parse_agrees, spec_located, IResult};
use crate::span::Span;
use vstd::prelude::*;

verus! {

/// What `link` yields, before it is located: the first that matches of a
/// diary link, an inter-wiki link, an external file link, a wiki link, a
/// transclusion, a raw link.
pub open spec fn spec_link(s: Seq<char>) -> Option<(LinkView, int)> {
    if let Some((l, n)) = spec_diary_link(s) {
        Some((LinkView::Diary(l), n))
    } else if let Some((l, n)) = spec_inter_wiki_link(s) {
        Some((LinkView::InterWiki(l), n))
    } else if let Some((l, n)) = spec_external_file_link(s) {
        Some((LinkView::ExternalFile(l), n))
    } else if let Some((l, n)) = spec_wiki_link(s) {
        Some((LinkView::Wiki(l), n))
    } else if let Some((l, n)) = spec_transclusion_link(s) {
        Some((LinkView::Transclusion(l), n))
    } else if let Some((l, n)) = spec_raw_link(s) {
        Some((LinkView::Raw(l), n))
    } else {
        None
    }
}

/// Parses a link of any kind, before it is located.
pub fn link_bare<'a>(input: Span<'a>) -> (r: IResult<'a, Link<'static>>)
    requires
        input.wf(),
    ensures
        parse_agrees(r, input, spec_link(input@)),
        r matches Ok((rest, _)) ==> rest.start > input.start,
{
    if let Ok((rest, l)) = diary_link_bare(input) {
        return Ok((rest, Link::Diary(l)));
    }
    if let Ok((rest, l)) = inter_wiki_link_bare(input) {
        return Ok((rest, Link::InterWiki(l)));
    }
    if let Ok((rest, l)) = external_file_link_bare(input) {
        return Ok((rest, Link::ExternalFile(l)));
    }
    if let Ok((rest, l)) = wiki_link_bare(input) {
        return Ok((rest, Link::Wiki(l)));
    }
    if let Ok((rest, l)) = transclusion_link_bare(input) {
        return Ok((rest, Link::Transclusion(l)));
    }
    match raw_link_bare(input) {
        Ok((rest, l)) => Ok((rest, Link::Raw(l))),
        Err(_) => Err(LangParserError::from_ctx(&input, "Not a link")),
    }
}

/// Parses a link of any kind. The kinds are tried from the most specific
/// to the least: a diary link, an inter-wiki link, an external file link, a
/// wiki link, a transclusion, a raw link.
pub fn link<'a>(input: Span<'a>) -> (r: IResult<'a, Located<Link<'static>>>)
    requires
        input.wf(),
    ensures
        parse_agrees(r, input, spec_located(input, spec_link(input@))),
{
    context("Link", le(&input, link_bare(input)))
}

} // verus!
