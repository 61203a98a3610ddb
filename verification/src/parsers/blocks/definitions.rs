//! Definition lists: `term:: definition`.

use crate::elements::blocks::{terms_view, DefinitionList, TermAndDefinitions};
use crate::error::LangParserError;
use crate::located::Located;
use crate::parsers::scanning::{
    lemma_line_until_stops, line_ending_len, line_until_len, strs_view, tail, trimmed,
};
use crate::parsers::utils::{
    context, le, parse_agrees, skip_eol, skip_tag, spec_located, take_until, IResult,
};
use crate::span::Span;
use crate::text::texts_view;
use std::borrow::Cow;
use vstd::prelude::*;

verus! {

/// What parts a term from its definition.
pub open spec fn dd() -> Seq<Seq<char>> {
    seq!["::"@]
}

/// The text as a list: of itself if it is not empty, of nothing if it is.
pub open spec fn if_any(d: Seq<char>) -> Seq<Seq<char>> {
    if d.len() > 0 {
        seq![d]
    } else {
        Seq::empty()
    }
}

/// The term line at the front of `input`: a term, which is not blank, then
/// `::`, then a first definition, which may be missing. Term and
/// definition are taken without the spaces at their ends.
pub open spec fn spec_term_line(input: Span) -> Option<((Seq<char>, Seq<Seq<char>>), int)> {
    let s0 = input@;
    let k = line_until_len(s0, dd());
    let term = trimmed(s0.subrange(0, k));
    let s1 = tail(s0, k);
    let s2 = tail(s1, "::"@.len() as int);
    let n = line_until_len(s2, Seq::empty());
    let d = trimmed(s2.subrange(0, n));
    if input.spec_at_line_start() && "::"@.is_prefix_of(s1) && term.len() > 0 {
        Some(((term, if_any(d)), k + "::"@.len() + n + line_ending_len(tail(s2, n))))
    } else {
        None
    }
}

/// The definition line at the front of `input`: `::` and a definition,
/// which is not blank.
pub open spec fn spec_def_line(input: Span) -> Option<(Seq<char>, int)> {
    let s0 = input@;
    let s1 = tail(s0, "::"@.len() as int);
    let n = line_until_len(s1, Seq::empty());
    let d = trimmed(s1.subrange(0, n));
    if input.spec_at_line_start() && "::"@.is_prefix_of(s0) && d.len() > 0 {
        Some((d, "::"@.len() + n + line_ending_len(tail(s1, n))))
    } else {
        None
    }
}

/// The definition lines at the front of `input`.
pub open spec fn spec_def_lines(input: Span) -> (Seq<Seq<char>>, int)
    decreases input.spec_len(),
{
    match spec_def_line(input) {
        Some((d, n)) => if 0 < n <= input.spec_len() {
            let more = spec_def_lines(input.skip(n));
            (seq![d] + more.0, n + more.1)
        } else {
            (Seq::empty(), 0)
        },
        None => (Seq::empty(), 0),
    }
}

/// A term with its definitions at the front of `input`: a term line and
/// the definition lines after it.
pub open spec fn spec_term_and_defs(input: Span) -> Option<((Seq<char>, Seq<Seq<char>>), int)> {
    match spec_term_line(input) {
        Some(((term, first), n)) => {
            let more = spec_def_lines(input.skip(n));
            Some(((term, first + more.0), n + more.1))
        },
        None => None,
    }
}

/// The terms with their definitions at the front of `input`.
pub open spec fn spec_definition_items(input: Span) -> (Seq<(Seq<char>, Seq<Seq<char>>)>, int)
    decreases input.spec_len(),
{
    match spec_term_and_defs(input) {
        Some((t, n)) => if 0 < n <= input.spec_len() {
            let more = spec_definition_items(input.skip(n));
            (seq![t] + more.0, n + more.1)
        } else {
            (Seq::empty(), 0)
        },
        None => (Seq::empty(), 0),
    }
}

/// What `definition_list` yields, before it is located: terms with their
/// definitions, at least one.
pub open spec fn spec_definition_list(input: Span) -> Option<
    (Seq<(Seq<char>, Seq<Seq<char>>)>, int),
> {
    let r = spec_definition_items(input);
    if r.0.len() > 0 {
        Some(r)
    } else {
        None
    }
}

/// Parses a term line.
pub fn term_line<'a>(input: Span<'a>) -> (r: Option<
    (Span<'a>, Cow<'static, str>, Vec<Cow<'static, str>>),
>)
    requires
        input.wf(),
    ensures
        match r {
            Some((rest, term, first)) => {
                &&& spec_term_line(input) == Some(
                    ((term@, texts_view(first@)), rest.start - input.start),
                )
                &&& input.leads_to(rest)
                &&& rest.wf()
                &&& rest.start > input.start
                &&& rest.at_boundary()
            },
            None => spec_term_line(input) is None,
        },
{
    proof {
        reveal_strlit("::");
    }
    if !input.at_line_start() {
        return None;
    }
    let stops = ["::"];
    let none: [&str; 0] = [];
    proof {
        assert(strs_view(stops@) =~= dd());
        assert(strs_view(none@) =~= Seq::empty());
    }
    let (s1, raw_term) = take_until(input, stops.as_slice());
    let s2 = match skip_tag(s1, "::") {
        Some(x) => x,
        None => {
            return None;
        },
    };
    let term = raw_term.trim();
    if term.len() == 0 {
        return None;
    }
    let (after, raw_def) = take_until(s2, none.as_slice());
    let d = raw_def.trim();
    proof {
        lemma_line_until_stops(s2@, Seq::empty());
    }
    let rest = match skip_eol(after) {
        Some(x) => x,
        None => {
            return None;
        },
    };
    let mut first: Vec<Cow<'static, str>> = Vec::new();
    proof {
        assert(texts_view(first@) =~= Seq::empty());
    }
    if d.len() > 0 {
        first.push(Cow::Owned(d.to_text()));
        proof {
            assert(texts_view(first@) =~= seq![d@]);
        }
    }
    proof {
        input.lemma_leads_to_trans(s1, s2);
        input.lemma_leads_to_trans(s2, after);
        input.lemma_leads_to_trans(after, rest);
    }
    Some((rest, Cow::Owned(term.to_text()), first))
}

/// Parses a definition line.
pub fn def_line<'a>(input: Span<'a>) -> (r: Option<(Span<'a>, String)>)
    requires
        input.wf(),
    ensures
        match r {
            Some((rest, d)) => {
                &&& spec_def_line(input) == Some((d@, rest.start - input.start))
                &&& input.leads_to(rest)
                &&& rest.wf()
                &&& rest.start > input.start
                &&& rest.at_boundary()
            },
            None => spec_def_line(input) is None,
        },
{
    proof {
        reveal_strlit("::");
    }
    if !input.at_line_start() {
        return None;
    }
    let s1 = match skip_tag(input, "::") {
        Some(x) => x,
        None => {
            return None;
        },
    };
    let none: [&str; 0] = [];
    proof {
        assert(strs_view(none@) =~= Seq::empty());
    }
    let (after, raw) = take_until(s1, none.as_slice());
    let d = raw.trim();
    if d.len() == 0 {
        return None;
    }
    proof {
        lemma_line_until_stops(s1@, Seq::empty());
    }
    match skip_eol(after) {
        Some(rest) => {
            proof {
                input.lemma_leads_to_trans(s1, after);
                input.lemma_leads_to_trans(after, rest);
            }
            Some((rest, d.to_text()))
        },
        None => None,
    }
}

/// Parses the definition lines after a term line, and adds what they hold
/// to `first`.
pub fn def_lines<'a>(input: Span<'a>, first: Vec<Cow<'static, str>>) -> (r: (
    Span<'a>,
    Vec<Cow<'static, str>>,
))
    requires
        input.wf(),
    ensures
        r.0.wf(),
        input.leads_to(r.0),
        r.0.start - input.start == spec_def_lines(input).1,
        texts_view(r.1@) == texts_view(first@) + spec_def_lines(input).0,
        r.0.start > input.start ==> r.0.at_boundary(),
{
    let mut out = first;
    let mut cur = input;
    let mut done = false;
    proof {
        input.lemma_skip(0);
    }
    while !done
        invariant
            input.wf(),
            cur.wf(),
            input.leads_to(cur),
            texts_view(first@) + spec_def_lines(input).0 == texts_view(out@) + spec_def_lines(
                cur,
            ).0,
            spec_def_lines(input).1 == (cur.start - input.start) + spec_def_lines(cur).1,
            done ==> spec_def_lines(cur).1 == 0 && spec_def_lines(cur).0.len() == 0,
            cur.start > input.start ==> cur.at_boundary(),
        decreases cur.spec_len() + (if done { 0int } else { 1int }),
    {
        match def_line(cur) {
            Some((next, d)) => {
                proof {
                    input.lemma_leads_to_trans(cur, next);
                    let before = texts_view(out@);
                    let more = spec_def_lines(next);
                    assert(before + (seq![d@] + more.0) =~= before.push(d@) + more.0);
                }
                let ghost before = out@;
                out.push(Cow::Owned(d));
                proof {
                    assert(texts_view(out@) =~= texts_view(before).push(d@));
                }
                cur = next;
            },
            None => {
                done = true;
            },
        }
    }
    proof {
        assert(texts_view(out@) + Seq::<Seq<char>>::empty() =~= texts_view(out@));
    }
    (cur, out)
}

/// Parses a term with its definitions.
pub fn term_and_defs<'a>(input: Span<'a>) -> (r: Option<(Span<'a>, TermAndDefinitions<'static>)>)
    requires
        input.wf(),
    ensures
        match r {
            Some((rest, t)) => {
                &&& spec_term_and_defs(input) == Some((t@, rest.start - input.start))
                &&& input.leads_to(rest)
                &&& rest.wf()
                &&& rest.start > input.start
                &&& rest.at_boundary()
            },
            None => spec_term_and_defs(input) is None,
        },
{
    match term_line(input) {
        Some((after, term, first)) => {
            let (rest, definitions) = def_lines(after, first);
            proof {
                input.lemma_leads_to_trans(after, rest);
            }
            Some((rest, TermAndDefinitions { term, definitions }))
        },
        None => None,
    }
}

/// Parses a definition list, before it is located.
pub fn definition_list_bare<'a>(input: Span<'a>) -> (r: IResult<'a, DefinitionList<'static>>)
    requires
        input.wf(),
    ensures
        parse_agrees(r, input, spec_definition_list(input)),
        r matches Ok((rest, _)) ==> rest.start > input.start && rest.at_boundary(),
{
    let mut items: Vec<TermAndDefinitions<'static>> = Vec::new();
    let mut cur = input;
    let mut done = false;
    proof {
        input.lemma_skip(0);
        assert(terms_view(items@) =~= Seq::empty());
        assert(Seq::<(Seq<char>, Seq<Seq<char>>)>::empty() + spec_definition_items(input).0
            =~= spec_definition_items(input).0);
    }
    while !done
        invariant
            input.wf(),
            cur.wf(),
            input.leads_to(cur),
            spec_definition_items(input).0 == terms_view(items@) + spec_definition_items(cur).0,
            spec_definition_items(input).1 == (cur.start - input.start) + spec_definition_items(
                cur,
            ).1,
            done ==> spec_definition_items(cur).1 == 0 && spec_definition_items(cur).0.len() == 0,
            items@.len() > 0 ==> cur.start > input.start && cur.at_boundary(),
        decreases cur.spec_len() + (if done { 0int } else { 1int }),
    {
        match term_and_defs(cur) {
            Some((next, t)) => {
                proof {
                    input.lemma_leads_to_trans(cur, next);
                    let before = terms_view(items@);
                    let more = spec_definition_items(next);
                    assert(before + (seq![t@] + more.0) =~= before.push(t@) + more.0);
                }
                let ghost before = items@;
                let ghost tv = t@;
                items.push(t);
                proof {
                    assert(terms_view(items@) =~= terms_view(before).push(tv));
                }
                cur = next;
            },
            None => {
                done = true;
            },
        }
    }
    proof {
        assert(terms_view(items@) + Seq::<(Seq<char>, Seq<Seq<char>>)>::empty() =~= terms_view(
            items@,
        ));
    }
    if items.len() > 0 {
        Ok((cur, DefinitionList::new(items)))
    } else {
        Err(LangParserError::from_ctx(&input, "Not a definition list"))
    }
}

/// Parses a definition list: lines `term:: definition`, each of which
/// lines `:: definition` may follow.
pub fn definition_list<'a>(input: Span<'a>) -> (r: IResult<'a, Located<DefinitionList<'static>>>)
    requires
        input.wf(),
    ensures
        parse_agrees(r, input, spec_located(input, spec_definition_list(input))),
{
    context("Definition List", le(&input, definition_list_bare(input)))
}

} // verus!
