//! Lists: items on consecutive lines, each with a marker.

use crate::elements::blocks::{items_view, List, ListItem, ListItemKind, ListItemView};
use crate::elements::inline::{
    inline_views, InlineElement, InlineElementContainer, InlineElementView,
};
use crate::error::LangParserError;
use crate::located::Located;
use crate::parsers::blocks::code::used;
use crate::parsers::inline::{inline_line, spec_inline_line};
use crate::parsers::scanning::{
    at_end_of_line, leading_spaces, line_ending_len, scan_len, tail, while_digit,
};
use crate::parsers::utils::{
    context, le, parse_agrees, skip_eol, skip_spaces, skip_tag, spec_located, stepped, IResult,
};
use crate::span::Span;
use vstd::prelude::*;

verus! {

/// The marker at the front of `s`: `-`, `*`, `#`, or a number with `.` or
/// `)` after it.
pub open spec fn spec_marker(s: Seq<char>) -> Option<(ListItemKind, int)> {
    let d = scan_len(s, while_digit());
    if "-"@.is_prefix_of(s) {
        Some((ListItemKind::Hyphen, "-"@.len() as int))
    } else if "*"@.is_prefix_of(s) {
        Some((ListItemKind::Asterisk, "*"@.len() as int))
    } else if "#"@.is_prefix_of(s) {
        Some((ListItemKind::Pound, "#"@.len() as int))
    } else if d > 0 && "."@.is_prefix_of(tail(s, d)) {
        Some((ListItemKind::Number, d + "."@.len()))
    } else if d > 0 && ")"@.is_prefix_of(tail(s, d)) {
        Some((ListItemKind::Paren, d + ")"@.len()))
    } else {
        None
    }
}

/// Whether a list item begins at the front of `s`: a marker with at least
/// one space after it.
pub open spec fn is_item_start(s: Seq<char>) -> bool {
    spec_marker(s) is Some && leading_spaces(tail(s, used(spec_marker(s)))) > 0
}

/// The first line of the item at the front of `input`: spaces, whose
/// number is the level of the item, a marker, at least one space, and
/// inline content of at least one element, which runs to the end of the
/// line.
pub open spec fn spec_item_line(input: Span) -> Option<(ListItemView, int)> {
    let s0 = input@;
    let a = leading_spaces(s0);
    let s1 = tail(s0, a);
    let m = spec_marker(s1);
    let s2 = tail(s1, used(m));
    let sp = leading_spaces(s2);
    let at = input.skip(a + used(m) + sp);
    let content = spec_inline_line(at);
    let after = tail(at@, content.1);
    if input.spec_at_line_start() && m is Some && sp > 0 && content.0.len() > 0 && at_end_of_line(
        after,
    ) {
        Some(
            (
                ListItemView { kind: m.unwrap().0, level: a as usize, content: content.0 },
                a + used(m) + sp + content.1 + line_ending_len(after),
            ),
        )
    } else {
        None
    }
}

/// A line that goes on with the content of an item of the given level: it
/// is deeper indented than the marker of the item, begins no item of its
/// own, and holds inline content of at least one element, which runs to
/// the end of the line.
pub open spec fn spec_more_line(input: Span, level: int) -> Option<
    (Seq<Located<InlineElementView>>, int),
> {
    let s0 = input@;
    let a = leading_spaces(s0);
    let at = input.skip(a);
    let content = spec_inline_line(at);
    let after = tail(at@, content.1);
    if input.spec_at_line_start() && a > level && !is_item_start(tail(s0, a)) && content.0.len()
        > 0 && at_end_of_line(after) {
        Some((content.0, a + content.1 + line_ending_len(after)))
    } else {
        None
    }
}

/// The content of the lines that go on with an item of the given level.
pub open spec fn spec_more_lines(input: Span, level: int) -> (
    Seq<Located<InlineElementView>>,
    int,
)
    decreases input.spec_len(),
{
    match spec_more_line(input, level) {
        Some((items, n)) => if 0 < n <= input.spec_len() {
            let more = spec_more_lines(input.skip(n), level);
            (items + more.0, n + more.1)
        } else {
            (Seq::empty(), 0)
        },
        None => (Seq::empty(), 0),
    }
}

/// The item at the front of `input`: its first line, and the lines that go
/// on with its content.
pub open spec fn spec_list_item(input: Span) -> Option<(ListItemView, int)> {
    match spec_item_line(input) {
        Some((item, n)) => {
            let more = spec_more_lines(input.skip(n), item.level as int);
            Some(
                (
                    ListItemView {
                        kind: item.kind,
                        level: item.level,
                        content: item.content + more.0,
                    },
                    n + more.1,
                ),
            )
        },
        None => None,
    }
}

/// The items at the front of `input`.
pub open spec fn spec_list_items(input: Span) -> (Seq<ListItemView>, int)
    decreases input.spec_len(),
{
    match spec_list_item(input) {
        Some((item, n)) => if 0 < n <= input.spec_len() {
            let more = spec_list_items(input.skip(n));
            (seq![item] + more.0, n + more.1)
        } else {
            (Seq::empty(), 0)
        },
        None => (Seq::empty(), 0),
    }
}

/// What `list` yields, before it is located: items, at least one.
pub open spec fn spec_list(input: Span) -> Option<(Seq<ListItemView>, int)> {
    let r = spec_list_items(input);
    if r.0.len() > 0 {
        Some(r)
    } else {
        None
    }
}

/// Parses the marker of a list item.
pub fn marker<'a>(input: Span<'a>) -> (r: Option<(Span<'a>, ListItemKind)>)
    requires
        input.wf(),
    ensures
        match r {
            Some((rest, kind)) => spec_marker(input@) == Some((kind, rest.start - input.start))
                && stepped(input, rest, rest.start - input.start),
            None => spec_marker(input@) is None,
        },
{
    proof {
        assert(tail(input@, 0) =~= input@);
    }
    if let Some(rest) = skip_tag(input, "-") {
        return Some((rest, ListItemKind::Hyphen));
    }
    if let Some(rest) = skip_tag(input, "*") {
        return Some((rest, ListItemKind::Asterisk));
    }
    if let Some(rest) = skip_tag(input, "#") {
        return Some((rest, ListItemKind::Pound));
    }
    let d = input.digits_at(0);
    if d == 0 {
        return None;
    }
    let after = input.advance(d);
    if let Some(rest) = skip_tag(after, ".") {
        proof {
            input.lemma_leads_to_trans(after, rest);
            input.lemma_skip(rest.start - input.start);
        }
        return Some((rest, ListItemKind::Number));
    }
    if let Some(rest) = skip_tag(after, ")") {
        proof {
            input.lemma_leads_to_trans(after, rest);
            input.lemma_skip(rest.start - input.start);
        }
        return Some((rest, ListItemKind::Paren));
    }
    None
}

/// Parses the first line of an item.
pub fn item_line<'a>(input: Span<'a>) -> (r: Option<(Span<'a>, ListItem<'static>)>)
    requires
        input.wf(),
    ensures
        match r {
            Some((rest, item)) => {
                &&& spec_item_line(input) == Some((item@, rest.start - input.start))
                &&& input.leads_to(rest)
                &&& rest.wf()
                &&& rest.start > input.start
                &&& rest.at_boundary()
            },
            None => spec_item_line(input) is None,
        },
{
    if !input.at_line_start() {
        return None;
    }
    let s1 = skip_spaces(input);
    let (s2, kind) = match marker(s1) {
        Some(x) => x,
        None => {
            return None;
        },
    };
    let s3 = skip_spaces(s2);
    if s3.start_offset() == s2.start_offset() {
        return None;
    }
    proof {
        input.lemma_leads_to_trans(s1, s2);
        input.lemma_leads_to_trans(s2, s3);
    }
    let (s4, elements) = inline_line(s3);
    proof {
        s3.lemma_skip(s4.start - s3.start);
        input.lemma_leads_to_trans(s3, s4);
    }
    if elements.len() == 0 {
        return None;
    }
    match skip_eol(s4) {
        Some(rest) => {
            proof {
                input.lemma_leads_to_trans(s4, rest);
            }
            Some(
                (
                    rest,
                    ListItem {
                        kind,
                        level: s1.start_offset() - input.start_offset(),
                        content: InlineElementContainer::new(elements),
                    },
                ),
            )
        },
        None => None,
    }
}

/// Tells whether a list item begins at the front of the input.
pub fn begins_item<'a>(input: Span<'a>) -> (r: bool)
    requires
        input.wf(),
    ensures
        r == is_item_start(input@),
{
    match marker(input) {
        Some((rest, _)) => {
            let after = skip_spaces(rest);
            after.start_offset() > rest.start_offset()
        },
        None => false,
    }
}

/// Parses a line that goes on with the content of an item of the given
/// level.
pub fn more_line<'a>(input: Span<'a>, level: usize) -> (r: Option<
    (Span<'a>, Vec<Located<InlineElement<'static>>>),
>)
    requires
        input.wf(),
    ensures
        match r {
            Some((rest, items)) => {
                &&& spec_more_line(input, level as int) == Some(
                    (inline_views(items@), rest.start - input.start),
                )
                &&& input.leads_to(rest)
                &&& rest.wf()
                &&& rest.start > input.start
                &&& rest.at_boundary()
            },
            None => spec_more_line(input, level as int) is None,
        },
{
    if !input.at_line_start() {
        return None;
    }
    let s1 = skip_spaces(input);
    if s1.start_offset() - input.start_offset() <= level {
        return None;
    }
    if begins_item(s1) {
        return None;
    }
    let (s2, elements) = inline_line(s1);
    proof {
        s1.lemma_skip(s2.start - s1.start);
        input.lemma_leads_to_trans(s1, s2);
    }
    if elements.len() == 0 {
        return None;
    }
    match skip_eol(s2) {
        Some(rest) => {
            proof {
                input.lemma_leads_to_trans(s2, rest);
            }
            Some((rest, elements))
        },
        None => None,
    }
}

/// Parses one item of a list.
pub fn list_item<'a>(input: Span<'a>) -> (r: Option<(Span<'a>, ListItem<'static>)>)
    requires
        input.wf(),
    ensures
        match r {
            Some((rest, item)) => {
                &&& spec_list_item(input) == Some((item@, rest.start - input.start))
                &&& input.leads_to(rest)
                &&& rest.wf()
                &&& rest.start > input.start
                &&& rest.at_boundary()
            },
            None => spec_list_item(input) is None,
        },
{
    let (first, item) = match item_line(input) {
        Some(x) => x,
        None => {
            return None;
        },
    };
    let ListItem { kind, level, content } = item;
    let mut out = content.elements;
    let ghost head = inline_views(out@);
    let mut cur = first;
    let mut done = false;
    proof {
        first.lemma_skip(0);
        input.lemma_skip(first.start - input.start);
        assert(head + spec_more_lines(first, level as int).0 =~= inline_views(out@)
            + spec_more_lines(first, level as int).0);
    }
    while !done
        invariant
            input.wf(),
            first.wf(),
            cur.wf(),
            input.leads_to(first),
            first.leads_to(cur),
            first.start > input.start,
            cur.at_boundary(),
            head + spec_more_lines(first, level as int).0 == inline_views(out@) + spec_more_lines(
                cur,
                level as int,
            ).0,
            spec_more_lines(first, level as int).1 == (cur.start - first.start) + spec_more_lines(
                cur,
                level as int,
            ).1,
            done ==> spec_more_lines(cur, level as int).1 == 0 && spec_more_lines(
                cur,
                level as int,
            ).0.len() == 0,
        decreases cur.spec_len() + (if done { 0int } else { 1int }),
    {
        match more_line(cur, level) {
            Some((next, items)) => {
                let ghost before = out@;
                let ghost added = items@;
                let mut items = items;
                out.append(&mut items);
                proof {
                    first.lemma_leads_to_trans(cur, next);
                    let more = spec_more_lines(next, level as int);
                    assert(inline_views(out@) =~= inline_views(before) + inline_views(added));
                    assert(inline_views(before) + (inline_views(added) + more.0) =~= (
                    inline_views(before) + inline_views(added)) + more.0);
                }
                cur = next;
            },
            None => {
                done = true;
            },
        }
    }
    proof {
        assert(inline_views(out@) + Seq::<Located<InlineElementView>>::empty() =~= inline_views(
            out@,
        ));
        input.lemma_leads_to_trans(first, cur);
    }
    Some((cur, ListItem { kind, level, content: InlineElementContainer::new(out) }))
}

/// Parses a list, before it is located.
pub fn list_bare<'a>(input: Span<'a>) -> (r: IResult<'a, List<'static>>)
    requires
        input.wf(),
    ensures
        parse_agrees(r, input, spec_list(input)),
        r matches Ok((rest, _)) ==> rest.start > input.start && rest.at_boundary(),
{
    let mut items: Vec<ListItem<'static>> = Vec::new();
    let mut cur = input;
    let mut done = false;
    proof {
        input.lemma_skip(0);
        assert(items_view(items@) =~= Seq::empty());
        assert(Seq::<ListItemView>::empty() + spec_list_items(input).0 =~= spec_list_items(
            input,
        ).0);
    }
    while !done
        invariant
            input.wf(),
            cur.wf(),
            input.leads_to(cur),
            spec_list_items(input).0 == items_view(items@) + spec_list_items(cur).0,
            spec_list_items(input).1 == (cur.start - input.start) + spec_list_items(cur).1,
            done ==> spec_list_items(cur).1 == 0 && spec_list_items(cur).0.len() == 0,
            items@.len() > 0 ==> cur.start > input.start && cur.at_boundary(),
        decreases cur.spec_len() + (if done { 0int } else { 1int }),
    {
        match list_item(cur) {
            Some((next, item)) => {
                proof {
                    input.lemma_leads_to_trans(cur, next);
                    let before = items_view(items@);
                    let more = spec_list_items(next);
                    assert(before + (seq![item@] + more.0) =~= before.push(item@) + more.0);
                }
                let ghost before = items@;
                let ghost iv = item@;
                items.push(item);
                proof {
                    assert(items_view(items@) =~= items_view(before).push(iv));
                }
                cur = next;
            },
            None => {
                done = true;
            },
        }
    }
    proof {
        assert(items_view(items@) + Seq::<ListItemView>::empty() =~= items_view(items@));
    }
    if items.len() > 0 {
        Ok((cur, List::new(items)))
    } else {
        Err(LangParserError::from_ctx(&input, "Not a list"))
    }
}

/// Parses a list: items on consecutive lines. An item begins with a
/// marker (`-`, `*`, `#`, `1.` or `1)`), at least one space, and inline
/// content; lines that are deeper indented than the marker and begin no
/// item of their own go on with the content. The spaces before the marker
/// give the level of the item.
pub fn list<'a>(input: Span<'a>) -> (r: IResult<'a, Located<List<'static>>>)
    requires
        input.wf(),
    ensures
        parse_agrees(r, input, spec_located(input, spec_list(input))),
{
    context("List", le(&input, list_bare(input)))
}

} // verus!
