//! Parsers for the elements within a line.

use crate::elements::inline::{
    inline_views, DecoratedText, Decoration, InlineElement, InlineElementContainer,
    InlineElementView, Keyword, KeywordKind, MathInline, Tags, Text,
};
use crate::error::LangParserError;
use crate::located::Located;
use crate::parsers::links::{link_bare, spec_link};
use crate::parsers::numbers::{parse_u32, spec_parse_u32};
use crate::parsers::scanning::{
    at_end_of_line, line_until_len, scan_len, strs_view, tail, while_digit,
};
use crate::parsers::utils::{
    context, le, parse_agrees, spec_located, spec_surround_in_line1, surround_in_line1, IResult,
};
use crate::span::Span;
use crate::text::texts_view;
use std::borrow::Cow;
use vstd::prelude::*;

verus! {

/// What `math_inline` yields, before it is located: what stands between two
/// `$` on a line.
pub open spec fn spec_math_inline(s: Seq<char>) -> Option<(Seq<char>, int)> {
    match spec_surround_in_line1(s, "$"@, "$"@) {
        Some((from, len, total)) => Some((s.subrange(from, from + len), total)),
        None => None,
    }
}

/// Parses an inline formula, before it is located.
pub fn math_inline_bare<'a>(input: Span<'a>) -> (r: IResult<'a, MathInline<'static>>)
    requires
        input.wf(),
    ensures
        parse_agrees(r, input, spec_math_inline(input@)),
        r matches Ok((rest, _)) ==> rest.start > input.start,
{
    proof {
        reveal_strlit("$");
    }
    match surround_in_line1(input, "$", "$") {
        Ok((rest, taken)) => {
            proof {
                let (from, len, total) = spec_surround_in_line1(input@, "$"@, "$"@).unwrap();
                input.lemma_skip(from);
                input.skip(from).lemma_first(len);
                assert(taken@ =~= input@.subrange(from, from + len));
                input.lemma_skip(total);
            }
            Ok((rest, MathInline::new(Cow::Owned(taken.to_text()))))
        },
        Err(e) => Err(e),
    }
}

/// Parses an inline formula: `$formula$`.
pub fn math_inline<'a>(input: Span<'a>) -> (r: IResult<'a, Located<MathInline<'static>>>)
    requires
        input.wf(),
    ensures
        parse_agrees(r, input, spec_located(input, spec_math_inline(input@))),
{
    context("Math Inline", le(&input, math_inline_bare(input)))
}

/// What ends the name of a tag.
pub open spec fn tag_stops() -> Seq<Seq<char>> {
    seq![":"@, " "@, "\t"@]
}

/// The names at the front of `s`, each with its `:` after it.
pub open spec fn spec_tag_names(s: Seq<char>) -> (Seq<Seq<char>>, int)
    decreases s.len(),
{
    let n = line_until_len(s, tag_stops());
    if 0 < n <= s.len() && ":"@.is_prefix_of(tail(s, n)) {
        let more = spec_tag_names(tail(tail(s, n), ":"@.len() as int));
        (seq![s.subrange(0, n)] + more.0, n + ":"@.len() + more.1)
    } else {
        (Seq::empty(), 0)
    }
}

/// What `tags` yields, before it is located: the names, at least one, of a
/// run `:one:two:`.
pub open spec fn spec_tags(s: Seq<char>) -> Option<(Seq<Seq<char>>, int)> {
    if ":"@.is_prefix_of(s) {
        let r = spec_tag_names(tail(s, ":"@.len() as int));
        if r.0.len() > 0 {
            Some((r.0, ":"@.len() + r.1))
        } else {
            None
        }
    } else {
        None
    }
}

/// Parses a run of tags, before it is located.
pub fn tags_bare<'a>(input: Span<'a>) -> (r: IResult<'a, Tags<'static>>)
    requires
        input.wf(),
    ensures
        parse_agrees(r, input, spec_tags(input@)),
        r matches Ok((rest, _)) ==> rest.start > input.start,
{
    if !input.starts_with(":") {
        return Err(LangParserError::from_ctx(&input, "No tags"));
    }
    let colon = ":".unicode_len();
    let first = input.advance(colon);
    let stops = [":", " ", "\t"];
    let mut names: Vec<Cow<'static, str>> = Vec::new();
    let mut cur = first;
    let mut done = false;
    proof {
        input.lemma_skip(colon as int);
        first.lemma_skip(0);
        assert(strs_view(stops@) =~= tag_stops());
        assert(texts_view(names@) =~= Seq::empty());
        assert(Seq::<Seq<char>>::empty() + spec_tag_names(first@).0 =~= spec_tag_names(first@).0);
    }
    while !done
        invariant
            first.wf(),
            cur.wf(),
            first.leads_to(cur),
            colon == ":"@.len(),
            strs_view(stops@) == tag_stops(),
            spec_tag_names(first@).0 == texts_view(names@) + spec_tag_names(cur@).0,
            spec_tag_names(first@).1 == (cur.start - first.start) + spec_tag_names(cur@).1,
            done ==> spec_tag_names(cur@).1 == 0 && spec_tag_names(cur@).0.len() == 0,
        decreases cur.spec_len() + (if done { 0int } else { 1int }),
    {
        proof {
            assert(tail(cur@, 0) =~= cur@);
        }
        let n = cur.line_until_at(0, stops.as_slice());
        let after = cur.advance(n);
        proof {
            cur.lemma_skip(n as int);
        }
        if n > 0 && after.starts_with(":") {
            let name = cur.take(n);
            let next = after.advance(colon);
            proof {
                after.lemma_skip(colon as int);
                first.lemma_leads_to_trans(cur, after);
                first.lemma_leads_to_trans(after, next);
                let before = texts_view(names@);
                let more = spec_tag_names(next@);
                assert(before + (seq![name@] + more.0) =~= before.push(name@) + more.0);
            }
            let ghost before = names@;
            names.push(Cow::Owned(name.to_text()));
            proof {
                assert(texts_view(names@) =~= texts_view(before).push(name@));
            }
            cur = next;
        } else {
            done = true;
        }
    }
    proof {
        assert(texts_view(names@) + Seq::<Seq<char>>::empty() =~= texts_view(names@));
        input.lemma_leads_to_trans(first, cur);
    }
    if names.len() > 0 {
        Ok((cur, Tags::new(names)))
    } else {
        Err(LangParserError::from_ctx(&input, "No tags"))
    }
}

/// Parses a run of tags: `:one:two:`.
pub fn tags<'a>(input: Span<'a>) -> (r: IResult<'a, Located<Tags<'static>>>)
    requires
        input.wf(),
    ensures
        parse_agrees(r, input, spec_located(input, spec_tags(input@))),
{
    context("Tags", le(&input, tags_bare(input)))
}

impl View for Keyword {
    type V = Keyword;

    open spec fn view(&self) -> Keyword {
        *self
    }
}

impl View for KeywordKind {
    type V = KeywordKind;

    open spec fn view(&self) -> KeywordKind {
        *self
    }
}

/// The level of completion at the front of `s`, and its length: the number
/// that the digits there spell. Where there is no digit, or the number is
/// above `u32::MAX`, there is no level, and its length is 0.
pub open spec fn spec_completion(s: Seq<char>) -> (Option<u32>, int) {
    let n = scan_len(s, while_digit());
    match spec_parse_u32(s.subrange(0, n)) {
        Some(v) => (Some(v), n),
        None => (None, 0),
    }
}

/// What `keyword` yields, before it is located: the keyword whose word
/// stands at the front of `s`, with the level of completion that follows
/// the word.
pub open spec fn spec_keyword(s: Seq<char>) -> Option<(Keyword, int)> {
    match spec_keyword_kind(s) {
        Some((kind, n)) => {
            let (completion, m) = spec_completion(tail(s, n));
            Some((Keyword { kind, completion }, n + m))
        },
        None => None,
    }
}

/// The word of a keyword that stands at the front of `s`.
pub open spec fn spec_keyword_kind(s: Seq<char>) -> Option<(KeywordKind, int)> {
    if "DONE"@.is_prefix_of(s) {
        Some((KeywordKind::Done, "DONE"@.len() as int))
    } else if "FIXED"@.is_prefix_of(s) {
        Some((KeywordKind::Fixed, "FIXED"@.len() as int))
    } else if "FIXME"@.is_prefix_of(s) {
        Some((KeywordKind::Fixme, "FIXME"@.len() as int))
    } else if "STARTED"@.is_prefix_of(s) {
        Some((KeywordKind::Started, "STARTED"@.len() as int))
    } else if "TODO"@.is_prefix_of(s) {
        Some((KeywordKind::Todo, "TODO"@.len() as int))
    } else if "XXX"@.is_prefix_of(s) {
        Some((KeywordKind::Xxx, "XXX"@.len() as int))
    } else {
        None
    }
}

/// Parses a keyword, before it is located.
pub fn keyword_bare<'a>(input: Span<'a>) -> (r: IResult<'a, Keyword>)
    requires
        input.wf(),
    ensures
        parse_agrees(r, input, spec_keyword(input@)),
        r matches Ok((rest, _)) ==> rest.start > input.start,
{
    let (after, kind) = match keyword_kind(input) {
        Ok(x) => x,
        Err(e) => {
            return Err(e);
        },
    };
    let n = after.digits_at(0);
    proof {
        assert(tail(after@, 0) =~= after@);
        input.lemma_skip(after.start - input.start);
    }
    match parse_u32(after.take(n).chars()) {
        Some(v) => {
            let rest = after.advance(n);
            proof {
                input.lemma_leads_to_trans(after, rest);
            }
            Ok((rest, Keyword::new(kind, Some(v))))
        },
        None => Ok((after, Keyword::new(kind, None))),
    }
}

/// Parses the word of a keyword.
pub fn keyword_kind<'a>(input: Span<'a>) -> (r: IResult<'a, KeywordKind>)
    requires
        input.wf(),
    ensures
        parse_agrees(r, input, spec_keyword_kind(input@)),
        r matches Ok((rest, _)) ==> rest.start > input.start && rest@ == tail(
            input@,
            rest.start - input.start,
        ),
{
    proof {
        reveal_strlit("DONE");
        reveal_strlit("FIXED");
        reveal_strlit("FIXME");
        reveal_strlit("STARTED");
        reveal_strlit("TODO");
        reveal_strlit("XXX");
    }
    if input.starts_with("DONE") {
        Ok((input.advance("DONE".unicode_len()), KeywordKind::Done))
    } else if input.starts_with("FIXED") {
        Ok((input.advance("FIXED".unicode_len()), KeywordKind::Fixed))
    } else if input.starts_with("FIXME") {
        Ok((input.advance("FIXME".unicode_len()), KeywordKind::Fixme))
    } else if input.starts_with("STARTED") {
        Ok((input.advance("STARTED".unicode_len()), KeywordKind::Started))
    } else if input.starts_with("TODO") {
        Ok((input.advance("TODO".unicode_len()), KeywordKind::Todo))
    } else if input.starts_with("XXX") {
        Ok((input.advance("XXX".unicode_len()), KeywordKind::Xxx))
    } else {
        Err(LangParserError::from_ctx(&input, "No keyword"))
    }
}

/// Parses a keyword: one of `DONE`, `FIXED`, `FIXME`, `STARTED`, `TODO`,
/// `XXX`, in capitals, and the digits that follow it directly, which give
/// the level of completion.
pub fn keyword<'a>(input: Span<'a>) -> (r: IResult<'a, Located<Keyword>>)
    requires
        input.wf(),
    ensures
        parse_agrees(r, input, spec_located(input, spec_keyword(input@))),
{
    context("Keyword", le(&input, keyword_bare(input)))
}

/// The marker that stands on both sides of text decorated in the given way.
/// No marker is read as underlining.
pub open spec fn delimiter(d: Decoration) -> Seq<char> {
    match d {
        Decoration::Bold => "*"@,
        Decoration::Italic => "_"@,
        Decoration::Strikethrough => "~~"@,
        Decoration::Superscript => "^"@,
        Decoration::Subscript => ",,"@,
        Decoration::Underline => Seq::empty(),
    }
}

/// Text decorated in the given way at the front of `input`: what stands
/// between two markers on a line, read as inline elements from its first
/// character to its last.
pub open spec fn spec_decorated_as(input: Span, d: Decoration) -> Option<(InlineElementView, int)>
    decreases input.spec_len(), 0int,
{
    match spec_surround_in_line1(input@, delimiter(d), delimiter(d)) {
        Some((from, len, total)) => {
            let content = input.skip(from).first(len);
            if 0 <= len < input.spec_len() && content.spec_len() == len {
                let inner = spec_inline_line(content);
                if inner.1 == len {
                    Some((InlineElementView::DecoratedText(d, inner.0), total))
                } else {
                    None
                }
            } else {
                None
            }
        },
        None => None,
    }
}

/// What `decorated_text` yields, before it is located: bold, italic, struck
/// through, superscript or subscript text, whichever is found first.
pub open spec fn spec_decorated_text(input: Span) -> Option<(InlineElementView, int)>
    decreases input.spec_len(), 1int,
{
    if spec_decorated_as(input, Decoration::Bold) is Some {
        spec_decorated_as(input, Decoration::Bold)
    } else if spec_decorated_as(input, Decoration::Italic) is Some {
        spec_decorated_as(input, Decoration::Italic)
    } else if spec_decorated_as(input, Decoration::Strikethrough) is Some {
        spec_decorated_as(input, Decoration::Strikethrough)
    } else if spec_decorated_as(input, Decoration::Superscript) is Some {
        spec_decorated_as(input, Decoration::Superscript)
    } else {
        spec_decorated_as(input, Decoration::Subscript)
    }
}

/// The inline element other than plain text that stands at the front of
/// `input`: the first that matches of a formula, tags, a link, decorated
/// text, a keyword.
pub open spec fn spec_non_text(input: Span) -> Option<(InlineElementView, int)>
    decreases input.spec_len(), 2int,
{
    if let Some((m, n)) = spec_math_inline(input@) {
        Some((InlineElementView::Math(m), n))
    } else if let Some((t, n)) = spec_tags(input@) {
        Some((InlineElementView::Tags(t), n))
    } else if let Some((l, n)) = spec_link(input@) {
        Some((InlineElementView::Link(l), n))
    } else if let Some((d, n)) = spec_decorated_text(input) {
        Some((d, n))
    } else if let Some((k, n)) = spec_keyword(input@) {
        Some((InlineElementView::Keyword(k), n))
    } else {
        None
    }
}

/// Number of characters of plain text at the front of `input`: those before
/// the end of the line and before the first place where another inline
/// element stands.
pub open spec fn spec_text_len(input: Span) -> int
    decreases input.spec_len(), 3int,
{
    if input.spec_len() <= 0 || at_end_of_line(input@) || spec_non_text(input) is Some {
        0
    } else {
        1 + spec_text_len(input.skip(1))
    }
}

/// What `inline_element` yields, before it is located: an element other
/// than text if one stands at the front, and plain text of at least one
/// character otherwise.
pub open spec fn spec_inline_element(input: Span) -> Option<(InlineElementView, int)>
    decreases input.spec_len(), 4int,
{
    match spec_non_text(input) {
        Some(x) => Some(x),
        None => {
            let n = spec_text_len(input);
            if n > 0 {
                Some((InlineElementView::Text(input@.subrange(0, n)), n))
            } else {
                None
            }
        },
    }
}

/// The inline elements at the front of `input`, each with its region, up to
/// the first place where none is found, and the number of characters they
/// cover.
pub open spec fn spec_inline_line(input: Span) -> (Seq<Located<InlineElementView>>, int)
    decreases input.spec_len(), 5int,
{
    match spec_inline_element(input) {
        Some((e, n)) => if 0 < n <= input.spec_len() {
            let more = spec_inline_line(input.skip(n));
            (seq![Located { value: e, region: input.region_of(n) }] + more.0, n + more.1)
        } else {
            (Seq::empty(), 0)
        },
        None => (Seq::empty(), 0),
    }
}

/// What `text` yields, before it is located: plain text of at least one
/// character.
pub open spec fn spec_text(input: Span) -> Option<(Seq<char>, int)> {
    let n = spec_text_len(input);
    if n > 0 {
        Some((input@.subrange(0, n), n))
    } else {
        None
    }
}

/// What `inline_element_container` yields, before it is located: the
/// inline elements of the line, at least one.
pub open spec fn spec_inline_container(input: Span) -> Option<
    (Seq<Located<InlineElementView>>, int),
> {
    let r = spec_inline_line(input);
    if r.0.len() > 0 {
        Some(r)
    } else {
        None
    }
}

/// Parses text decorated in the given way, whose marker is `mark`.
fn decorated_as<'a>(input: Span<'a>, d: Decoration, mark: &str) -> (r: IResult<
    'a,
    InlineElement<'static>,
>)
    requires
        input.wf(),
        mark@ == delimiter(d),
        mark@.len() > 0,
    ensures
        parse_agrees(r, input, spec_decorated_as(input, d)),
        r matches Ok((rest, _)) ==> rest.start > input.start,
    decreases input.spec_len(), 0int,
{
    match surround_in_line1(input, mark, mark) {
        Ok((rest, content)) => {
            proof {
                let (from, len, total) = spec_surround_in_line1(input@, mark@, mark@).unwrap();
                input.lemma_skip(from);
                input.skip(from).lemma_first(len);
                input.lemma_skip(total);
            }
            let (after, items) = inline_line(content);
            if after.is_empty() {
                Ok((rest, InlineElement::DecoratedText(DecoratedText::new(items, d))))
            } else {
                Err(LangParserError::from_ctx(&input, "Content of decoration not inline"))
            }
        },
        Err(e) => Err(e),
    }
}

/// Parses decorated text, before it is located.
pub fn decorated_text_bare<'a>(input: Span<'a>) -> (r: IResult<'a, InlineElement<'static>>)
    requires
        input.wf(),
    ensures
        parse_agrees(r, input, spec_decorated_text(input)),
        r matches Ok((rest, _)) ==> rest.start > input.start,
    decreases input.spec_len(), 1int,
{
    proof {
        reveal_strlit("*");
        reveal_strlit("_");
        reveal_strlit("~~");
        reveal_strlit("^");
        reveal_strlit(",,");
    }
    if let Ok(x) = decorated_as(input, Decoration::Bold, "*") {
        return Ok(x);
    }
    if let Ok(x) = decorated_as(input, Decoration::Italic, "_") {
        return Ok(x);
    }
    if let Ok(x) = decorated_as(input, Decoration::Strikethrough, "~~") {
        return Ok(x);
    }
    if let Ok(x) = decorated_as(input, Decoration::Superscript, "^") {
        return Ok(x);
    }
    decorated_as(input, Decoration::Subscript, ",,")
}

/// Parses an inline element other than plain text.
#[verifier::rlimit(40)]
pub fn non_text<'a>(input: Span<'a>) -> (r: IResult<'a, InlineElement<'static>>)
    requires
        input.wf(),
    ensures
        parse_agrees(r, input, spec_non_text(input)),
        r matches Ok((rest, _)) ==> rest.start > input.start,
    decreases input.spec_len(), 2int,
{
    if let Ok((rest, m)) = math_inline_bare(input) {
        return Ok((rest, InlineElement::Math(m)));
    }
    if let Ok((rest, t)) = tags_bare(input) {
        return Ok((rest, InlineElement::Tags(t)));
    }
    if let Ok((rest, l)) = link_bare(input) {
        return Ok((rest, InlineElement::Link(l)));
    }
    if let Ok(x) = decorated_text_bare(input) {
        return Ok(x);
    }
    match keyword_bare(input) {
        Ok((rest, k)) => Ok((rest, InlineElement::Keyword(k))),
        Err(_) => Err(LangParserError::from_ctx(&input, "No inline element")),
    }
}

/// Counts the characters of plain text at the front of the input.
fn text_len<'a>(input: Span<'a>) -> (n: usize)
    requires
        input.wf(),
    ensures
        n == spec_text_len(input),
        n <= input.spec_len(),
    decreases input.spec_len(), 3int,
{
    let mut cur = input;
    let mut n: usize = 0;
    let mut done = false;
    proof {
        input.lemma_skip(0);
    }
    while !done
        invariant
            input.wf(),
            cur.wf(),
            n <= input.spec_len(),
            cur == input.skip(n as int),
            spec_text_len(input) == n + spec_text_len(cur),
            done ==> spec_text_len(cur) == 0,
        decreases cur.spec_len() + (if done { 0int } else { 1int }),
    {
        proof {
            assert(tail(cur@, 0) =~= cur@);
            input.lemma_skip(n as int);
        }
        if cur.is_empty() || cur.end_of_line_at(0) {
            done = true;
        } else {
            let found = non_text(cur).is_ok();
            if found {
                done = true;
            } else {
                proof {
                    input.lemma_skip_skip(n as int, 1);
                }
                cur = cur.advance(1);
                n = n + 1;
            }
        }
    }
    n
}

/// Parses plain text, before it is located.
pub fn text_bare<'a>(input: Span<'a>) -> (r: IResult<'a, Text<'static>>)
    requires
        input.wf(),
    ensures
        parse_agrees(r, input, spec_text(input)),
        r matches Ok((rest, _)) ==> rest.start > input.start,
    decreases input.spec_len(), 4int,
{
    let n = text_len(input);
    if n == 0 {
        return Err(LangParserError::from_ctx(&input, "No text"));
    }
    let (rest, taken) = input.take_split(n);
    Ok((rest, Text::from_string(taken.to_text())))
}

/// Parses plain text: the characters up to the end of the line or to the
/// next place where another inline element stands, at least one.
pub fn text<'a>(input: Span<'a>) -> (r: IResult<'a, Located<Text<'static>>>)
    requires
        input.wf(),
    ensures
        parse_agrees(r, input, spec_located(input, spec_text(input))),
{
    context("Text", le(&input, text_bare(input)))
}

/// Parses decorated text: inline content between a pair of markers, `*` for
/// bold, `_` for italic, `~~` for struck through, `^` for superscript, `,,`
/// for subscript.
pub fn decorated_text<'a>(input: Span<'a>) -> (r: IResult<'a, Located<InlineElement<'static>>>)
    requires
        input.wf(),
    ensures
        parse_agrees(r, input, spec_located(input, spec_decorated_text(input))),
{
    context("Decorated Text", le(&input, decorated_text_bare(input)))
}

/// What `decorated` yields, before it is located: the decoration and the
/// contents of decorated text.
pub open spec fn spec_decorated(input: Span) -> Option<
    ((Decoration, Seq<Located<InlineElementView>>), int),
> {
    match spec_decorated_text(input) {
        Some((InlineElementView::DecoratedText(d, items), n)) => Some(((d, items), n)),
        _ => None,
    }
}

/// Parses decorated text and yields it as such.
pub fn decorated<'a>(input: Span<'a>) -> (r: IResult<'a, Located<DecoratedText<'static>>>)
    requires
        input.wf(),
    ensures
        parse_agrees(r, input, spec_located(input, spec_decorated(input))),
{
    match decorated_text_bare(input) {
        Ok((rest, InlineElement::DecoratedText(d))) => {
            let region = input.region_to(&rest);
            Ok((rest, Located::new(d, region)))
        },
        Ok(_) => Err(LangParserError::from_ctx(&input, "Not decorated text")),
        Err(e) => Err(e.with_context("Decorated Text")),
    }
}

/// Parses an inline element, before it is located.
pub fn inline_element_bare<'a>(input: Span<'a>) -> (r: IResult<'a, InlineElement<'static>>)
    requires
        input.wf(),
    ensures
        parse_agrees(r, input, spec_inline_element(input)),
        r matches Ok((rest, _)) ==> rest.start > input.start,
    decreases input.spec_len(), 4int,
{
    match non_text(input) {
        Ok(x) => Ok(x),
        Err(_) => {
            let n = text_len(input);
            if n == 0 {
                return Err(LangParserError::from_ctx(&input, "No inline element"));
            }
            let (rest, taken) = input.take_split(n);
            Ok((rest, InlineElement::Text(Text::from_string(taken.to_text()))))
        },
    }
}

/// Parses an inline element: a formula, tags, a link, decorated text or a
/// keyword, whichever is found first, and plain text where none of them is.
pub fn inline_element<'a>(input: Span<'a>) -> (r: IResult<'a, Located<InlineElement<'static>>>)
    requires
        input.wf(),
    ensures
        parse_agrees(r, input, spec_located(input, spec_inline_element(input))),
{
    context("Inline Element", le(&input, inline_element_bare(input)))
}

/// Parses inline elements, one after the other, up to the first place where
/// none is found.
pub fn inline_line<'a>(input: Span<'a>) -> (r: (Span<'a>, Vec<Located<InlineElement<'static>>>))
    requires
        input.wf(),
    ensures
        r.0.wf(),
        input.leads_to(r.0),
        r.0.start - input.start == spec_inline_line(input).1,
        inline_views(r.1@) == spec_inline_line(input).0,
        r.1@.len() > 0 ==> r.0.start > input.start,
    decreases input.spec_len(), 5int,
{
    let mut out: Vec<Located<InlineElement<'static>>> = Vec::new();
    let mut cur = input;
    let mut done = false;
    proof {
        input.lemma_skip(0);
        assert(inline_views(out@) =~= Seq::empty());
        assert(Seq::<Located<InlineElementView>>::empty() + spec_inline_line(input).0
            =~= spec_inline_line(input).0);
    }
    while !done
        invariant
            input.wf(),
            cur.wf(),
            input.leads_to(cur),
            spec_inline_line(input).0 == inline_views(out@) + spec_inline_line(cur).0,
            spec_inline_line(input).1 == (cur.start - input.start) + spec_inline_line(cur).1,
            done ==> spec_inline_line(cur).1 == 0 && spec_inline_line(cur).0.len() == 0,
            out@.len() > 0 ==> cur.start > input.start,
        decreases cur.spec_len() + (if done { 0int } else { 1int }),
    {
        match inline_element_bare(cur) {
            Ok((next, e)) => {
                let region = cur.region_to(&next);
                let item = Located::new(e, region);
                proof {
                    input.lemma_leads_to_trans(cur, next);
                    let before = inline_views(out@);
                    let more = spec_inline_line(next);
                    assert(before + (seq![item@] + more.0) =~= before.push(item@) + more.0);
                }
                let ghost before = out@;
                out.push(item);
                proof {
                    assert(inline_views(out@) =~= inline_views(before).push(item@));
                }
                cur = next;
            },
            Err(_) => {
                done = true;
            },
        }
    }
    proof {
        assert(inline_views(out@) + Seq::<Located<InlineElementView>>::empty() =~= inline_views(
            out@,
        ));
    }
    (cur, out)
}

/// Parses the inline elements of a line, before they are located as one.
pub fn inline_element_container_bare<'a>(input: Span<'a>) -> (r: IResult<
    'a,
    InlineElementContainer<'static>,
>)
    requires
        input.wf(),
    ensures
        parse_agrees(r, input, spec_inline_container(input)),
        r matches Ok((rest, _)) ==> rest.start > input.start,
{
    let (rest, items) = inline_line(input);
    if items.len() > 0 {
        Ok((rest, InlineElementContainer::new(items)))
    } else {
        Err(LangParserError::from_ctx(&input, "No inline element"))
    }
}

/// Parses the inline elements of a line, of which there must be at least
/// one. The line terminator is not consumed.
pub fn inline_element_container<'a>(input: Span<'a>) -> (r: IResult<
    'a,
    Located<InlineElementContainer<'static>>,
>)
    requires
        input.wf(),
    ensures
        parse_agrees(r, input, spec_located(input, spec_inline_container(input))),
{
    context("Inline Element Container", le(&input, inline_element_container_bare(input)))
}

} // verus!
