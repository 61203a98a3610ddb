//! Links to pages of the wiki: `[[path#anchor|description]]`.

use crate::elements::links::{
    opt_anchor_view, opt_description_view, Anchor, Description, DescriptionView, WikiLink,
    WikiLinkView,
};
use crate::elements::uri::UriView;
use crate::error::LangParserError;
use crate::located::Located;
use crate::parsers::scanning::{line_until_len, strs_view, tail};
use crate::parsers::utils::{
    context, le, parse_agrees, spec_located, spec_uri, uri, IResult,
};
use crate::span::Span;
use crate::text::texts_view;
use std::borrow::Cow;
use vstd::prelude::*;

verus! {

/// What ends the path of a wiki link, and each segment of its anchor.
pub open spec fn wiki_stops() -> Seq<Seq<char>> {
    seq!["|"@, "#"@, "]]"@]
}

/// What ends the description of a wiki link.
pub open spec fn link_end() -> Seq<Seq<char>> {
    seq!["]]"@]
}

/// What ends a URI given as a description.
pub open spec fn uri_end() -> Seq<Seq<char>> {
    seq!["}}"@]
}

/// Length of the path at the front of `s`: what stands before `|`, `#`,
/// `]]` or the end of the line; nothing where `s` begins with `#`.
pub open spec fn spec_wiki_path_len(s: Seq<char>) -> int {
    if "#"@.is_prefix_of(s) {
        0
    } else {
        line_until_len(s, wiki_stops())
    }
}

/// The segments at the front of `s`, each with its `#` before it. The list
/// ends before a `#` that no segment follows.
pub open spec fn spec_anchor_segments(s: Seq<char>) -> (Seq<Seq<char>>, int)
    decreases s.len(),
{
    if "#"@.is_prefix_of(s) {
        let t = tail(s, "#"@.len() as int);
        let n = line_until_len(t, wiki_stops());
        if n > 0 && n <= t.len() {
            let more = spec_anchor_segments(tail(t, n));
            (seq![t.subrange(0, n)] + more.0, "#"@.len() + n + more.1)
        } else {
            (Seq::empty(), 0)
        }
    } else {
        (Seq::empty(), 0)
    }
}

/// What `anchor` yields: the segments that follow a `#`. A `#` with no
/// segment after it is an anchor without segments.
pub open spec fn spec_anchor(s: Seq<char>) -> Option<(Seq<Seq<char>>, int)> {
    if "#"@.is_prefix_of(s) {
        let r = spec_anchor_segments(s);
        if r.1 == 0 {
            Some((Seq::empty(), "#"@.len() as int))
        } else {
            Some(r)
        }
    } else {
        None
    }
}

/// The URI that a description spells, where it has the form `{{uri}}`.
pub open spec fn spec_description_uri(b: Seq<char>) -> Option<UriView> {
    if "{{"@.is_prefix_of(b) {
        let t = tail(b, "{{"@.len() as int);
        let n = line_until_len(t, uri_end());
        if n > 0 {
            match spec_uri(t.subrange(0, n)) {
                Some((u, _)) => if "}}"@.is_prefix_of(tail(t, n)) {
                    Some(u)
                } else {
                    None
                },
                None => None,
            }
        } else {
            None
        }
    } else {
        None
    }
}

/// What the text of a description stands for: a URI where it has the form
/// `{{uri}}`, itself otherwise.
pub open spec fn spec_description_body(b: Seq<char>) -> DescriptionView {
    match spec_description_uri(b) {
        Some(u) => DescriptionView::Uri(u),
        None => DescriptionView::Text(b),
    }
}

/// What `description` yields: what stands between a `|` and the `]]` that
/// ends the link, which must be at least one character.
pub open spec fn spec_description(s: Seq<char>) -> Option<(DescriptionView, int)> {
    if "|"@.is_prefix_of(s) {
        let t = tail(s, "|"@.len() as int);
        let n = line_until_len(t, link_end());
        if n > 0 {
            Some((spec_description_body(t.subrange(0, n)), "|"@.len() + n))
        } else {
            None
        }
    } else {
        None
    }
}

/// Number of characters that an optional part consumed.
pub open spec fn consumed<V>(o: Option<(V, int)>) -> int {
    match o {
        Some((_, n)) => n,
        None => 0,
    }
}

/// The value of an optional part.
pub open spec fn value_of<V>(o: Option<(V, int)>) -> Option<V> {
    match o {
        Some((v, _)) => Some(v),
        None => None,
    }
}

/// What stands between the brackets of a wiki link: a path, then an anchor,
/// then a description, each of which may be missing; but a link has a path
/// or an anchor.
pub open spec fn spec_wiki_link_internal(s: Seq<char>) -> Option<(WikiLinkView, int)> {
    let p = spec_wiki_path_len(s);
    let a = spec_anchor(tail(s, p));
    let d = spec_description(tail(tail(s, p), consumed(a)));
    if p > 0 || a is Some {
        Some(
            (
                WikiLinkView { path: s.subrange(0, p), description: value_of(d), anchor: value_of(a) },
                p + consumed(a) + consumed(d),
            ),
        )
    } else {
        None
    }
}

/// What `wiki_link` yields, before it is located: the link between `[[` and
/// `]]`.
pub open spec fn spec_wiki_link(s: Seq<char>) -> Option<(WikiLinkView, int)> {
    if "[["@.is_prefix_of(s) {
        match spec_wiki_link_internal(tail(s, "[["@.len() as int)) {
            Some((l, n)) => if "]]"@.is_prefix_of(tail(tail(s, "[["@.len() as int), n)) {
                Some((l, "[["@.len() + n + "]]"@.len()))
            } else {
                None
            },
            None => None,
        }
    } else {
        None
    }
}

/// The three texts that end a path or a segment.
fn stops_of_path() -> (r: [&'static str; 3])
    ensures
        strs_view(r@) == wiki_stops(),
{
    let r = ["|", "#", "]]"];
    assert(strs_view(r@) =~= wiki_stops());
    r
}

/// Parses the anchor of a link: `#` and the segments after it, which `#`
/// parts from each other.
pub fn anchor<'a>(input: Span<'a>) -> (r: IResult<'a, Anchor<'static>>)
    requires
        input.wf(),
    ensures
        parse_agrees(r, input, spec_anchor(input@)),
{
    if !input.starts_with("#") {
        return Err(LangParserError::from_ctx(&input, "No anchor"));
    }
    let hash = "#".unicode_len();
    let stops = stops_of_path();
    let mut elements: Vec<Cow<'static, str>> = Vec::new();
    let mut cur = input;
    let mut done = false;
    proof {
        input.lemma_skip(0);
        assert(texts_view(elements@) =~= Seq::empty());
        assert(Seq::<Seq<char>>::empty() + spec_anchor_segments(input@).0 =~= spec_anchor_segments(
            input@,
        ).0);
    }
    while !done
        invariant
            input.wf(),
            cur.wf(),
            input.leads_to(cur),
            hash == "#"@.len(),
            strs_view(stops@) == wiki_stops(),
            spec_anchor_segments(input@).0 == texts_view(elements@) + spec_anchor_segments(cur@).0,
            spec_anchor_segments(input@).1 == (cur.start - input.start) + spec_anchor_segments(
                cur@,
            ).1,
            done ==> spec_anchor_segments(cur@).1 == 0 && spec_anchor_segments(cur@).0.len() == 0,
        decreases cur.spec_len() + (if done { 0int } else { 1int }),
    {
        if cur.starts_with("#") {
            let t = cur.advance(hash);
            proof {
                cur.lemma_skip(hash as int);
                assert(tail(t@, 0) =~= t@);
            }
            let n = t.line_until_at(0, stops.as_slice());
            if n > 0 {
                let seg = t.take(n);
                let next = t.advance(n);
                proof {
                    t.lemma_skip(n as int);
                    input.lemma_leads_to_trans(cur, t);
                    input.lemma_leads_to_trans(t, next);
                    let before = texts_view(elements@);
                    let more = spec_anchor_segments(next@);
                    assert(before + (seq![seg@] + more.0) =~= before.push(seg@) + more.0);
                }
                let ghost before = elements@;
                elements.push(Cow::Owned(seg.to_text()));
                proof {
                    assert(texts_view(elements@) =~= texts_view(before).push(seg@));
                }
                cur = next;
            } else {
                done = true;
            }
        } else {
            done = true;
        }
    }
    proof {
        assert(texts_view(elements@) + Seq::<Seq<char>>::empty() =~= texts_view(elements@));
    }
    if cur.start_offset() == input.start_offset() {
        Ok((input.advance(hash), Anchor::new(elements)))
    } else {
        Ok((cur, Anchor::new(elements)))
    }
}

/// Reads what stands after the `|` of a link as a URI to show, which has
/// the form `{{uri}}`.
pub fn description_from_uri<'a>(body: Span<'a>) -> (r: Option<Description<'static>>)
    requires
        body.wf(),
    ensures
        match r {
            Some(d) => spec_description_uri(body@) matches Some(u) && d@ == DescriptionView::Uri(u),
            None => spec_description_uri(body@) is None,
        },
{
    if !body.starts_with("{{") {
        return None;
    }
    let t = body.advance("{{".unicode_len());
    proof {
        body.lemma_skip("{{"@.len() as int);
        assert(tail(t@, 0) =~= t@);
    }
    let ends = ["}}"];
    proof {
        assert(strs_view(ends@) =~= uri_end());
    }
    let n = t.line_until_at(0, ends.as_slice());
    if n == 0 {
        return None;
    }
    let inner = t.take(n);
    let after = t.advance(n);
    proof {
        t.lemma_skip(n as int);
    }
    match uri(inner) {
        Ok((_, u)) => {
            if after.starts_with("}}") {
                Some(Description::Uri(u))
            } else {
                None
            }
        },
        Err(_) => None,
    }
}

/// Parses the description of a link: `|` and what follows it up to the `]]`
/// that ends the link.
pub fn description<'a>(input: Span<'a>) -> (r: IResult<'a, Description<'static>>)
    requires
        input.wf(),
    ensures
        parse_agrees(r, input, spec_description(input@)),
{
    if !input.starts_with("|") {
        return Err(LangParserError::from_ctx(&input, "No description"));
    }
    let bar = "|".unicode_len();
    let t = input.advance(bar);
    proof {
        input.lemma_skip(bar as int);
        assert(tail(t@, 0) =~= t@);
    }
    let ends = ["]]"];
    proof {
        assert(strs_view(ends@) =~= link_end());
    }
    let n = t.line_until_at(0, ends.as_slice());
    if n == 0 {
        return Err(LangParserError::from_ctx(&input, "Empty description"));
    }
    let body = t.take(n);
    let rest = t.advance(n);
    proof {
        t.lemma_skip(n as int);
        input.lemma_leads_to_trans(t, rest);
    }
    let d = match description_from_uri(body) {
        Some(d) => d,
        None => Description::Text(Cow::Owned(body.to_text())),
    };
    Ok((rest, d))
}

/// Parses an anchor if one stands at the front of the input.
pub fn opt_anchor<'a>(input: Span<'a>) -> (r: (Span<'a>, Option<Anchor<'static>>))
    requires
        input.wf(),
    ensures
        r.0.wf(),
        input.leads_to(r.0),
        r.0.start - input.start == consumed(spec_anchor(input@)),
        r.0@ == tail(input@, consumed(spec_anchor(input@))),
        opt_anchor_view(r.1) == value_of(spec_anchor(input@)),
{
    proof {
        input.lemma_skip(0);
        assert(tail(input@, 0) =~= input@);
    }
    match anchor(input) {
        Ok((rest, a)) => {
            proof {
                input.lemma_skip(rest.start - input.start);
            }
            (rest, Some(a))
        },
        Err(_) => (input, None),
    }
}

/// Parses a description if one stands at the front of the input.
pub fn opt_description<'a>(input: Span<'a>) -> (r: (Span<'a>, Option<Description<'static>>))
    requires
        input.wf(),
    ensures
        r.0.wf(),
        input.leads_to(r.0),
        r.0.start - input.start == consumed(spec_description(input@)),
        r.0@ == tail(input@, consumed(spec_description(input@))),
        opt_description_view(r.1) == value_of(spec_description(input@)),
{
    proof {
        input.lemma_skip(0);
        assert(tail(input@, 0) =~= input@);
    }
    match description(input) {
        Ok((rest, d)) => {
            proof {
                input.lemma_skip(rest.start - input.start);
            }
            (rest, Some(d))
        },
        Err(_) => (input, None),
    }
}

/// Takes the path of a link from the front of the input.
pub fn wiki_path<'a>(input: Span<'a>) -> (r: (Span<'a>, Span<'a>))
    requires
        input.wf(),
    ensures
        r.0.wf(),
        r.1.wf(),
        input.leads_to(r.0),
        r.0.start - input.start == spec_wiki_path_len(input@),
        r.0@ == tail(input@, spec_wiki_path_len(input@)),
        r.1@ == input@.subrange(0, spec_wiki_path_len(input@)),
{
    proof {
        assert(tail(input@, 0) =~= input@);
    }
    let stops = stops_of_path();
    let p: usize = if input.starts_with("#") {
        0
    } else {
        input.line_until_at(0, stops.as_slice())
    };
    proof {
        input.lemma_skip(p as int);
    }
    (input.advance(p), input.take(p))
}

/// Parses what stands between the brackets of a wiki link.
pub fn wiki_link_internal<'a>(input: Span<'a>) -> (r: IResult<'a, WikiLink<'static>>)
    requires
        input.wf(),
    ensures
        parse_agrees(r, input, spec_wiki_link_internal(input@)),
        r matches Ok((_, l)) ==> l@.path.len() <= input@.len(),
{
    let (after_path, path_span) = wiki_path(input);
    let (after_anchor, maybe_anchor) = opt_anchor(after_path);
    let (rest, maybe_description) = opt_description(after_anchor);
    proof {
        input.lemma_leads_to_trans(after_path, after_anchor);
        input.lemma_leads_to_trans(after_anchor, rest);
    }
    if path_span.len() > 0 || maybe_anchor.is_some() {
        Ok((rest, WikiLink::new(Cow::Owned(path_span.to_text()), maybe_description, maybe_anchor)))
    } else {
        Err(LangParserError::from_ctx(&input, "Missing path and anchor"))
    }
}

/// Parses a wiki link, before it is located.
pub fn wiki_link_bare<'a>(input: Span<'a>) -> (r: IResult<'a, WikiLink<'static>>)
    requires
        input.wf(),
    ensures
        parse_agrees(r, input, spec_wiki_link(input@)),
        r matches Ok((rest, _)) ==> rest.start > input.start,
        r matches Ok((_, l)) ==> l@.path.len() <= input@.len(),
{
    proof {
        reveal_strlit("[[");
    }
    if !input.starts_with("[[") {
        return Err(LangParserError::from_ctx(&input, "No opening brackets"));
    }
    let open = "[[".unicode_len();
    let inner = input.advance(open);
    proof {
        input.lemma_skip(open as int);
    }
    match wiki_link_internal(inner) {
        Ok((after, link)) => {
            proof {
                input.lemma_leads_to_trans(inner, after);
                inner.lemma_skip(after.start - inner.start);
            }
            if after.starts_with("]]") {
                let rest = after.advance("]]".unicode_len());
                proof {
                    input.lemma_leads_to_trans(after, rest);
                }
                Ok((rest, link))
            } else {
                Err(LangParserError::from_ctx(&input, "No closing brackets"))
            }
        },
        Err(e) => Err(e),
    }
}

/// Parses a wiki link: `[[path]]`, with an anchor `#a#b` and a description
/// `|text` as its optional parts. A link without a path has an anchor.
pub fn wiki_link<'a>(input: Span<'a>) -> (r: IResult<'a, Located<WikiLink<'static>>>)
    requires
        input.wf(),
    ensures
        parse_agrees(r, input, spec_located(input, spec_wiki_link(input@))),
{
    context("WikiLink", le(&input, wiki_link_bare(input)))
}

} // verus!
