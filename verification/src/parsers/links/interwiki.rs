//! Links into other wikis: `[[wiki1:path]]` and `[[wn.name:path]]`.

use crate::elements::links::{
    IndexedInterWikiLink, InterWikiLink, InterWikiLinkView, NamedInterWikiLink, WikiLink,
    WikiLinkView,
};
use crate::error::LangParserError;
use crate::located::Located;
use crate::parsers::links::wiki::{spec_wiki_link, wiki_link_bare};
use crate::parsers::numbers::{parse_u32, spec_parse_u32};
use crate::parsers::scanning::{line_until_len, strs_view, tail};
use crate::parsers::utils::{context, le, parse_agrees, spec_located, IResult};
use crate::span::Span;
use crate::text::{string_from_chars, text_str, to_chars};
use std::borrow::Cow;
use vstd::prelude::*;
use vstd::slice::slice_subrange;

verus! {

/// What ends the number or the name of the other wiki.
pub open spec fn colon() -> Seq<Seq<char>> {
    seq![":"@]
}

/// Splits a path that begins with `prefix`, a key of at least one character
/// and `:` into the key and what follows the `:`.
pub open spec fn spec_keyed_path(path: Seq<char>, prefix: Seq<char>) -> Option<
    (Seq<char>, Seq<char>),
> {
    if prefix.is_prefix_of(path) {
        let t = tail(path, prefix.len() as int);
        let n = line_until_len(t, colon());
        if n > 0 && ":"@.is_prefix_of(tail(t, n)) {
            Some((t.subrange(0, n), tail(tail(t, n), ":"@.len() as int)))
        } else {
            None
        }
    } else {
        None
    }
}

/// The number of the wiki that a path of the form `wiki<N>:rest` names, with
/// the rest.
pub open spec fn spec_index_from_path(path: Seq<char>) -> Option<(Seq<char>, u32)> {
    match spec_keyed_path(path, "wiki"@) {
        Some((key, rest)) => match spec_parse_u32(key) {
            Some(n) => Some((rest, n)),
            None => None,
        },
        None => None,
    }
}

/// The name of the wiki that a path of the form `wn.<name>:rest` names, with
/// the rest.
pub open spec fn spec_name_from_path(path: Seq<char>) -> Option<(Seq<char>, Seq<char>)> {
    match spec_keyed_path(path, "wn."@) {
        Some((key, rest)) => Some((rest, key)),
        None => None,
    }
}

/// The link into another wiki that a wiki link is, if its path names one: by
/// number first, by name otherwise.
pub open spec fn spec_inter_wiki_of(l: WikiLinkView) -> Option<InterWikiLinkView> {
    match spec_index_from_path(l.path) {
        Some((rest, index)) => Some(
            InterWikiLinkView::Indexed {
                index,
                link: WikiLinkView { path: rest, description: l.description, anchor: l.anchor },
            },
        ),
        None => match spec_name_from_path(l.path) {
            Some((rest, name)) => Some(
                InterWikiLinkView::Named {
                    name,
                    link: WikiLinkView { path: rest, description: l.description, anchor: l.anchor },
                },
            ),
            None => None,
        },
    }
}

/// What `inter_wiki_link` yields, before it is located.
pub open spec fn spec_inter_wiki_link(s: Seq<char>) -> Option<(InterWikiLinkView, int)> {
    match spec_wiki_link(s) {
        Some((l, n)) => match spec_inter_wiki_of(l) {
            Some(i) => Some((i, n)),
            None => None,
        },
        None => None,
    }
}

/// Splits the characters of a path as `spec_keyed_path` says: the offsets
/// between which the key lies, and that at which the rest begins.
fn keyed_path(path: &[char], prefix: &str) -> (r: Option<(usize, usize, usize)>)
    requires
        path@.len() < usize::MAX,
    ensures
        match r {
            Some((a, b, c)) => {
                &&& a <= b <= c <= path@.len()
                &&& spec_keyed_path(path@, prefix@) == Some(
                    (path@.subrange(a as int, b as int), path@.subrange(c as int, path@.len() as int)),
                )
            },
            None => spec_keyed_path(path@, prefix@) is None,
        },
{
    let input = Span::new(path);
    if !input.starts_with(prefix) {
        return None;
    }
    let a = prefix.unicode_len();
    let ends = [":"];
    proof {
        assert(strs_view(ends@) =~= colon());
    }
    let n = input.line_until_at(a, ends.as_slice());
    if n == 0 {
        return None;
    }
    if !input.has_at(a + n, ":") {
        proof {
            assert(tail(tail(path@, a as int), n as int) =~= tail(path@, a + n));
        }
        return None;
    }
    let c = a + n + ":".unicode_len();
    proof {
        let t = tail(path@, a as int);
        assert(tail(t, n as int) =~= tail(path@, a + n));
        assert(t.subrange(0, n as int) =~= path@.subrange(a as int, a + n));
        assert(tail(tail(t, n as int), ":"@.len() as int) =~= path@.subrange(
            c as int,
            path@.len() as int,
        ));
    }
    Some((a, a + n, c))
}

/// The number of the other wiki that the path names, and the path within
/// that wiki.
pub fn parse_index_from_path(path: &str) -> (r: Option<(String, u32)>)
    requires
        path@.len() < usize::MAX,
    ensures
        match r {
            Some((rest, n)) => spec_index_from_path(path@) == Some((rest@, n)),
            None => spec_index_from_path(path@) is None,
        },
{
    let chars = to_chars(path);
    match keyed_path(chars.as_slice(), "wiki") {
        Some((a, b, c)) => match parse_u32(slice_subrange(chars.as_slice(), a, b)) {
            Some(n) => Some(
                (string_from_chars(slice_subrange(chars.as_slice(), c, chars.len())), n),
            ),
            None => None,
        },
        None => None,
    }
}

/// The name of the other wiki that the path names, and the path within that
/// wiki.
pub fn parse_name_from_path(path: &str) -> (r: Option<(String, String)>)
    requires
        path@.len() < usize::MAX,
    ensures
        match r {
            Some((rest, name)) => spec_name_from_path(path@) == Some((rest@, name@)),
            None => spec_name_from_path(path@) is None,
        },
{
    let chars = to_chars(path);
    match keyed_path(chars.as_slice(), "wn.") {
        Some((a, b, c)) => Some(
            (
                string_from_chars(slice_subrange(chars.as_slice(), c, chars.len())),
                string_from_chars(slice_subrange(chars.as_slice(), a, b)),
            ),
        ),
        None => None,
    }
}

/// Turns a wiki link into the link into another wiki that it is, if its
/// path names one.
pub fn inter_wiki_of(link: WikiLink<'static>) -> (r: Option<InterWikiLink<'static>>)
    requires
        link@.path.len() < usize::MAX,
    ensures
        match r {
            Some(i) => spec_inter_wiki_of(link@) == Some(i@),
            None => spec_inter_wiki_of(link@) is None,
        },
{
    let WikiLink { path, description, anchor } = link;
    match parse_index_from_path(text_str(&path)) {
        Some((rest, index)) => Some(
            InterWikiLink::Indexed(
                IndexedInterWikiLink::new(
                    index,
                    WikiLink::new(Cow::Owned(rest), description, anchor),
                ),
            ),
        ),
        None => match parse_name_from_path(text_str(&path)) {
            Some((rest, name)) => Some(
                InterWikiLink::Named(
                    NamedInterWikiLink::new(
                        Cow::Owned(name),
                        WikiLink::new(Cow::Owned(rest), description, anchor),
                    ),
                ),
            ),
            None => None,
        },
    }
}

/// Parses an inter-wiki link, before it is located.
pub fn inter_wiki_link_bare<'a>(input: Span<'a>) -> (r: IResult<'a, InterWikiLink<'static>>)
    requires
        input.wf(),
    ensures
        parse_agrees(r, input, spec_inter_wiki_link(input@)),
        r matches Ok((rest, _)) ==> rest.start > input.start,
{
    match wiki_link_bare(input) {
        Ok((rest, link)) => match inter_wiki_of(link) {
            Some(i) => Ok((rest, i)),
            None => Err(LangParserError::from_ctx(&input, "not interwiki link")),
        },
        Err(e) => Err(e),
    }
}

/// Parses a link into another wiki: a wiki link whose path begins with
/// `wiki<N>:`, where `<N>` is a number, or with `wn.<name>:`.
pub fn inter_wiki_link<'a>(input: Span<'a>) -> (r: IResult<'a, Located<InterWikiLink<'static>>>)
    requires
        input.wf(),
    ensures
        parse_agrees(r, input, spec_located(input, spec_inter_wiki_link(input@))),
{
    context("Inter Wiki Link", le(&input, inter_wiki_link_bare(input)))
}

} // verus!
