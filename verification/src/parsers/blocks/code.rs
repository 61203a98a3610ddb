//! Blocks of preformatted text, between `{{{` and `}}}`.

use crate::elements::code::{CodeBlock, CodeBlockView};
use crate::elements::metadata::{properties_map, properties_view, Metadata, Property};
use crate::error::LangParserError;
use crate::located::Located;
use crate::parsers::blocks::render::{lemma_read_start_ok, pairs_ok};
use crate::parsers::scanning::{
    at_end_of_line, leading_spaces, len_until_char, line_ending_len, line_until_len, strs_view,
    tail,
};
use crate::parsers::utils::{
    any_line, context, le, parse_agrees, skip_agrees, skip_eol, skip_spaces, skip_tag,
    spec_any_line, spec_located, stepped, take_until, IResult,
};
use crate::span::Span;
use crate::text::texts_view;
use std::borrow::Cow;
use vstd::prelude::*;

verus! {

/// What ends the language tag.
pub open spec fn lang_stops() -> Seq<Seq<char>> {
    seq![" "@]
}

/// What ends the key of a pair.
pub open spec fn key_stops() -> Seq<Seq<char>> {
    seq!["="@]
}

/// What ends the value of a pair.
pub open spec fn value_stops() -> Seq<Seq<char>> {
    seq!["\""@]
}

/// The language tag at the front of `s`: what stands before the next space
/// or the end of the line, if it is at least one character and holds no
/// `=`.
pub open spec fn spec_lang(s: Seq<char>) -> Option<(Seq<char>, int)> {
    let n = line_until_len(s, lang_stops());
    let word = s.subrange(0, n);
    if n > 0 && len_until_char(word, '=') == word.len() {
        Some((word, n))
    } else {
        None
    }
}

/// The pair at the front of `s`: `key="value"`, where the key has at least
/// one character.
pub open spec fn spec_key_value(s: Seq<char>) -> Option<((Seq<char>, Seq<char>), int)> {
    let k = line_until_len(s, key_stops());
    let u = tail(s, k);
    if k > 0 && "=\""@.is_prefix_of(u) {
        let w = tail(u, "=\""@.len() as int);
        let v = line_until_len(w, value_stops());
        if "\""@.is_prefix_of(tail(w, v)) {
            Some(((s.subrange(0, k), w.subrange(0, v)), k + "=\""@.len() + v + "\""@.len()))
        } else {
            None
        }
    } else {
        None
    }
}

/// The pairs at the front of `s` that follow a first one: each comes after
/// at least one space or tab.
pub open spec fn spec_more_pairs(s: Seq<char>) -> (Seq<(Seq<char>, Seq<char>)>, int)
    decreases s.len(),
{
    let sp = leading_spaces(s);
    if 0 < sp <= s.len() {
        match spec_key_value(tail(s, sp)) {
            Some((p, n)) => if 0 < n <= tail(s, sp).len() {
                let more = spec_more_pairs(tail(tail(s, sp), n));
                (seq![p] + more.0, sp + n + more.1)
            } else {
                (Seq::empty(), 0)
            },
            None => (Seq::empty(), 0),
        }
    } else {
        (Seq::empty(), 0)
    }
}

/// The pairs at the front of `s`, which spaces or tabs part.
pub open spec fn spec_pairs(s: Seq<char>) -> (Seq<(Seq<char>, Seq<char>)>, int) {
    match spec_key_value(s) {
        Some((p, n)) => {
            let more = spec_more_pairs(tail(s, n));
            (seq![p] + more.0, n + more.1)
        },
        None => (Seq::empty(), 0),
    }
}

/// Number of characters that an optional part consumed.
pub open spec fn used<V>(o: Option<(V, int)>) -> int {
    match o {
        Some((_, n)) => n,
        None => 0,
    }
}

/// The value of an optional part.
pub open spec fn got<V>(o: Option<(V, int)>) -> Option<V> {
    match o {
        Some((v, _)) => Some(v),
        None => None,
    }
}

/// What the opening line of a code block yields: the language tag, if
/// there is one, and the pairs of metadata. The line begins with `{{{`,
/// which spaces may precede, and holds nothing after the pairs.
pub open spec fn spec_code_block_start(input: Span) -> Option<
    ((Option<Seq<char>>, Seq<(Seq<char>, Seq<char>)>), int),
> {
    let s0 = input@;
    let a = leading_spaces(s0);
    let s1 = tail(s0, a);
    let s2 = tail(s1, "{{{"@.len() as int);
    let lang = spec_lang(s2);
    let s3 = tail(s2, used(lang));
    let b = leading_spaces(s3);
    let s4 = tail(s3, b);
    let pairs = spec_pairs(s4);
    let s5 = tail(s4, pairs.1);
    let c = leading_spaces(s5);
    let s6 = tail(s5, c);
    if input.spec_at_line_start() && "{{{"@.is_prefix_of(s1) && at_end_of_line(s6) {
        Some(
            (
                (got(lang), pairs.0),
                a + "{{{"@.len() + used(lang) + b + pairs.1 + c + line_ending_len(s6),
            ),
        )
    } else {
        None
    }
}

/// Number of characters of a closing line at the front of `input`: a line
/// that holds `fence` alone, with spaces around it at most.
pub open spec fn spec_fence_end(input: Span, fence: Seq<char>) -> Option<int> {
    let s0 = input@;
    let a = leading_spaces(s0);
    let s1 = tail(s0, a);
    let s2 = tail(s1, fence.len() as int);
    let b = leading_spaces(s2);
    let s3 = tail(s2, b);
    if input.spec_at_line_start() && fence.is_prefix_of(s1) && at_end_of_line(s3) {
        Some(a + fence.len() + b + line_ending_len(s3))
    } else {
        None
    }
}

/// The lines of a block from `input` on, with its closing line: lines are
/// taken as they stand until the closing line is met. Nothing where the
/// input ends before.
pub open spec fn spec_fenced_body(input: Span, fence: Seq<char>) -> Option<(Seq<Seq<char>>, int)>
    decreases input.spec_len(),
{
    match spec_fence_end(input, fence) {
        Some(n) => Some((Seq::empty(), n)),
        None => match spec_any_line(input) {
            Some((line, n)) => if 0 < n <= input.spec_len() {
                match spec_fenced_body(input.skip(n), fence) {
                    Some((more, m)) => Some((seq![line] + more, n + m)),
                    None => None,
                }
            } else {
                None
            },
            None => None,
        },
    }
}

/// Number of characters of the closing line of a code block at the front of
/// `input`: a line that holds `}}}` alone, with spaces around it at most.
pub open spec fn spec_code_block_end(input: Span) -> Option<int> {
    spec_fence_end(input, "}}}"@)
}

/// The lines of a code block from `input` on, with its closing line.
pub open spec fn spec_code_body(input: Span) -> Option<(Seq<Seq<char>>, int)> {
    spec_fenced_body(input, "}}}"@)
}

/// What `code_block` yields, before it is located.
pub open spec fn spec_code_block(input: Span) -> Option<(CodeBlockView, int)> {
    match spec_code_block_start(input) {
        Some(((lang, pairs), n)) => match spec_code_body(input.skip(n)) {
            Some((lines, m)) => Some(
                (CodeBlockView { lang, metadata: properties_map(pairs), lines }, n + m),
            ),
            None => None,
        },
        None => None,
    }
}

/// Parses the language tag of a code block, if there is one.
pub fn lang<'a>(input: Span<'a>) -> (r: (Span<'a>, Option<Cow<'static, str>>))
    requires
        input.wf(),
    ensures
        stepped(input, r.0, used(spec_lang(input@))),
        crate::elements::code::opt_text_view(r.1) == got(spec_lang(input@)),
{
    let stops = [" "];
    proof {
        assert(strs_view(stops@) =~= lang_stops());
        assert(tail(input@, 0) =~= input@);
    }
    let (rest, word) = take_until(input, stops.as_slice());
    proof {
        assert(tail(word@, 0) =~= word@);
    }
    if word.len() > 0 && word.find_char_at(0, '=') == word.len() {
        (rest, Some(Cow::Owned(word.to_text())))
    } else {
        (input.advance(0), None)
    }
}

/// Parses a pair `key="value"`.
pub fn key_value<'a>(input: Span<'a>) -> (r: Option<(Span<'a>, Property<'static>)>)
    requires
        input.wf(),
    ensures
        match r {
            Some((rest, p)) => {
                &&& spec_key_value(input@) == Some(((p.key@, p.value@), rest.start - input.start))
                &&& stepped(input, rest, rest.start - input.start)
                &&& rest.start > input.start
            },
            None => spec_key_value(input@) is None,
        },
{
    let ks = ["="];
    let vs = ["\""];
    proof {
        assert(strs_view(ks@) =~= key_stops());
        assert(strs_view(vs@) =~= value_stops());
    }
    let (u, key) = take_until(input, ks.as_slice());
    if key.len() == 0 {
        return None;
    }
    let w = match skip_tag(u, "=\"") {
        Some(w) => w,
        None => {
            return None;
        },
    };
    let (x, value) = take_until(w, vs.as_slice());
    let rest = match skip_tag(x, "\"") {
        Some(rest) => rest,
        None => {
            return None;
        },
    };
    proof {
        input.lemma_leads_to_trans(u, w);
        input.lemma_leads_to_trans(w, x);
        input.lemma_leads_to_trans(x, rest);
        input.lemma_skip(rest.start - input.start);
    }
    Some((rest, Property::new(Cow::Owned(key.to_text()), Cow::Owned(value.to_text()))))
}

/// Parses the pairs that follow a first one.
pub fn more_pairs<'a>(input: Span<'a>, first: Vec<Property<'static>>) -> (r: (
    Span<'a>,
    Vec<Property<'static>>,
))
    requires
        input.wf(),
    ensures
        stepped(input, r.0, spec_more_pairs(input@).1),
        properties_view(r.1@) == properties_view(first@) + spec_more_pairs(input@).0,
{
    let mut out = first;
    let mut cur = input;
    let mut done = false;
    proof {
        input.lemma_skip(0);
    }
    while !done
        invariant
            input.wf(),
            cur.wf(),
            input.leads_to(cur),
            properties_view(first@) + spec_more_pairs(input@).0 == properties_view(out@)
                + spec_more_pairs(cur@).0,
            spec_more_pairs(input@).1 == (cur.start - input.start) + spec_more_pairs(cur@).1,
            done ==> spec_more_pairs(cur@).1 == 0 && spec_more_pairs(cur@).0.len() == 0,
        decreases cur.spec_len() + (if done { 0int } else { 1int }),
    {
        let t = skip_spaces(cur);
        if t.start_offset() > cur.start_offset() {
            match key_value(t) {
                Some((next, p)) => {
                    proof {
                        input.lemma_leads_to_trans(cur, t);
                        input.lemma_leads_to_trans(t, next);
                        let before = properties_view(out@);
                        let more = spec_more_pairs(next@);
                        let pv = (p.key@, p.value@);
                        assert(before + (seq![pv] + more.0) =~= before.push(pv) + more.0);
                    }
                    let ghost before = out@;
                    out.push(p);
                    proof {
                        assert(properties_view(out@) =~= properties_view(before).push(
                            (p.key@, p.value@),
                        ));
                    }
                    cur = next;
                },
                None => {
                    done = true;
                },
            }
        } else {
            done = true;
        }
    }
    proof {
        assert(properties_view(out@) + Seq::<(Seq<char>, Seq<char>)>::empty() =~= properties_view(
            out@,
        ));
        input.lemma_skip(cur.start - input.start);
    }
    (cur, out)
}

/// Parses pairs `key="value"`, which spaces or tabs part.
pub fn pairs<'a>(input: Span<'a>) -> (r: (Span<'a>, Vec<Property<'static>>))
    requires
        input.wf(),
    ensures
        stepped(input, r.0, spec_pairs(input@).1),
        properties_view(r.1@) == spec_pairs(input@).0,
{
    let mut first: Vec<Property<'static>> = Vec::new();
    proof {
        assert(properties_view(first@) =~= Seq::empty());
    }
    match key_value(input) {
        Some((next, p)) => {
            first.push(p);
            proof {
                assert(properties_view(first@) =~= seq![(p.key@, p.value@)]);
            }
            let (rest, out) = more_pairs(next, first);
            proof {
                input.lemma_leads_to_trans(next, rest);
                input.lemma_skip(rest.start - input.start);
            }
            (rest, out)
        },
        None => (input.advance(0), first),
    }
}

/// Parses the opening line of a code block: `{{{`, the language tag and the
/// metadata.
pub fn code_block_start<'a>(input: Span<'a>) -> (r: IResult<
    'a,
    (Option<Cow<'static, str>>, Vec<Property<'static>>),
>)
    requires
        input.wf(),
    ensures
        match r {
            Ok((rest, (lang, pairs))) => {
                &&& spec_code_block_start(input) == Some(
                    (
                        (crate::elements::code::opt_text_view(lang), properties_view(pairs@)),
                        rest.start - input.start,
                    ),
                )
                &&& input.leads_to(rest)
                &&& rest.wf()
                &&& rest.start > input.start
            },
            Err(e) => spec_code_block_start(input) is None && e.kind
                == crate::error::ErrorKind::Mismatch && e.met_within(input),
        },
{
    proof {
        reveal_strlit("{{{");
    }
    if !input.at_line_start() {
        return Err(LangParserError::from_ctx(&input, "Not at beginning of line"));
    }
    let s1 = skip_spaces(input);
    let s2 = match skip_tag(s1, "{{{") {
        Some(x) => x,
        None => {
            return Err(LangParserError::from_ctx(&input, "No opening fence"));
        },
    };
    let (s3, maybe_lang) = lang(s2);
    let s4 = skip_spaces(s3);
    let (s5, metadata) = pairs(s4);
    let s6 = skip_spaces(s5);
    let rest = match skip_eol(s6) {
        Some(x) => x,
        None => {
            return Err(LangParserError::from_ctx(&input, "Opening fence not alone"));
        },
    };
    proof {
        input.lemma_leads_to_trans(s1, s2);
        input.lemma_leads_to_trans(s2, s3);
        input.lemma_leads_to_trans(s3, s4);
        input.lemma_leads_to_trans(s4, s5);
        input.lemma_leads_to_trans(s5, s6);
        input.lemma_leads_to_trans(s6, rest);
    }
    Ok((rest, (maybe_lang, metadata)))
}

/// Parses a closing line: `fence` alone.
pub fn fence_end<'a>(input: Span<'a>, fence: &str) -> (r: IResult<'a, ()>)
    requires
        input.wf(),
        fence@.len() > 0,
    ensures
        skip_agrees(r, input, spec_fence_end(input, fence@)),
        r matches Ok((rest, _)) ==> rest.start > input.start && rest.at_boundary(),
{
    if !input.at_line_start() {
        return Err(LangParserError::from_ctx(&input, "Not at beginning of line"));
    }
    let s1 = skip_spaces(input);
    let s2 = match skip_tag(s1, fence) {
        Some(x) => x,
        None => {
            return Err(LangParserError::from_ctx(&input, "No closing fence"));
        },
    };
    let s3 = skip_spaces(s2);
    let rest = match skip_eol(s3) {
        Some(x) => x,
        None => {
            return Err(LangParserError::from_ctx(&input, "Closing fence not alone"));
        },
    };
    proof {
        input.lemma_leads_to_trans(s1, s2);
        input.lemma_leads_to_trans(s2, s3);
        input.lemma_leads_to_trans(s3, rest);
    }
    Ok((rest, ()))
}

/// Parses the closing line of a code block: `}}}` alone.
pub fn code_block_end<'a>(input: Span<'a>) -> (r: IResult<'a, ()>)
    requires
        input.wf(),
    ensures
        skip_agrees(r, input, spec_code_block_end(input)),
        r matches Ok((rest, _)) ==> rest.start > input.start && rest.at_boundary(),
{
    proof {
        reveal_strlit("}}}");
    }
    fence_end(input, "}}}")
}

/// The lines collected so far before those of `more`.
pub open spec fn extend_lines(acc: Seq<Seq<char>>, k: int, more: Option<(Seq<Seq<char>>, int)>) -> Option<
    (Seq<Seq<char>>, int),
> {
    match more {
        Some((lines, n)) => Some((acc + lines, k + n)),
        None => None,
    }
}

/// Parses the lines of a block and its closing line, which holds `fence`.
pub fn fenced_body<'a>(input: Span<'a>, fence: &str) -> (r: IResult<'a, Vec<Cow<'static, str>>>)
    requires
        input.wf(),
        fence@.len() > 0,
    ensures
        match r {
            Ok((rest, lines)) => {
                &&& spec_fenced_body(input, fence@) == Some(
                    (texts_view(lines@), rest.start - input.start),
                )
                &&& input.leads_to(rest)
                &&& rest.wf()
                &&& rest.start > input.start
                &&& rest.at_boundary()
            },
            Err(e) => spec_fenced_body(input, fence@) is None && e.kind
                == crate::error::ErrorKind::Mismatch && e.met_within(input),
        },
{
    let mut lines: Vec<Cow<'static, str>> = Vec::new();
    let mut cur = input;
    proof {
        input.lemma_skip(0);
        assert(texts_view(lines@) =~= Seq::empty());
        let m = spec_fenced_body(input, fence@);
        if m is Some {
            assert(Seq::<Seq<char>>::empty() + m.unwrap().0 =~= m.unwrap().0);
        }
    }
    loop
        invariant
            input.wf(),
            cur.wf(),
            fence@.len() > 0,
            input.leads_to(cur),
            spec_fenced_body(input, fence@) == extend_lines(
                texts_view(lines@),
                cur.start - input.start,
                spec_fenced_body(cur, fence@),
            ),
        decreases cur.spec_len(),
    {
        match fence_end(cur, fence) {
            Ok((rest, _)) => {
                proof {
                    input.lemma_leads_to_trans(cur, rest);
                    assert(texts_view(lines@) + Seq::<Seq<char>>::empty() =~= texts_view(lines@));
                }
                return Ok((rest, lines));
            },
            Err(_) => {},
        }
        match any_line(cur) {
            Ok((next, line)) => {
                if next.start_offset() == cur.start_offset() {
                    return Err(LangParserError::from_ctx(&input, "No closing fence"));
                }
                proof {
                    input.lemma_leads_to_trans(cur, next);
                    let before = texts_view(lines@);
                    let more = spec_fenced_body(next, fence@);
                    if more is Some {
                        assert(before + (seq![line@] + more.unwrap().0) =~= before.push(line@)
                            + more.unwrap().0);
                    }
                }
                let ghost before = lines@;
                lines.push(Cow::Owned(line));
                proof {
                    assert(texts_view(lines@) =~= texts_view(before).push(line@));
                }
                cur = next;
            },
            Err(_) => {
                return Err(LangParserError::from_ctx(&input, "No closing fence"));
            },
        }
    }
}

/// Parses the lines of a code block and its closing line.
pub fn code_body<'a>(input: Span<'a>) -> (r: IResult<'a, Vec<Cow<'static, str>>>)
    requires
        input.wf(),
    ensures
        match r {
            Ok((rest, lines)) => {
                &&& spec_code_body(input) == Some((texts_view(lines@), rest.start - input.start))
                &&& input.leads_to(rest)
                &&& rest.wf()
                &&& rest.at_boundary()
            },
            Err(e) => spec_code_body(input) is None && e.kind == crate::error::ErrorKind::Mismatch && e.met_within(input),
        },
{
    proof {
        reveal_strlit("}}}");
    }
    fenced_body(input, "}}}")
}

/// Parses a code block, before it is located.
pub fn code_block_bare<'a>(input: Span<'a>) -> (r: IResult<'a, CodeBlock<'static>>)
    requires
        input.wf(),
    ensures
        parse_agrees(r, input, spec_code_block(input)),
        r matches Ok((rest, _)) ==> rest.start > input.start && rest.at_boundary(),
        r matches Ok((_, block)) ==> pairs_ok(block.metadata.spec_entries()),
{
    let (after_start, (maybe_lang, metadata)) = match code_block_start(input) {
        Ok(x) => x,
        Err(e) => {
            return Err(e);
        },
    };
    proof {
        input.lemma_skip(after_start.start - input.start);
    }
    match code_body(after_start) {
        Ok((rest, lines)) => {
            proof {
                input.lemma_leads_to_trans(after_start, rest);
            }
            let entries = Metadata::from_pairs(metadata);
            proof {
                lemma_read_start_ok(input, entries.spec_entries());
            }
            Ok((rest, CodeBlock::new(maybe_lang, entries, lines)))
        },
        Err(e) => Err(e),
    }
}

/// Parses a code block: an opening line `{{{` with a language tag and pairs
/// `key="value"` as optional parts, lines taken as they stand, and a
/// closing line `}}}`.
pub fn code_block<'a>(input: Span<'a>) -> (r: IResult<'a, Located<CodeBlock<'static>>>)
    requires
        input.wf(),
    ensures
        parse_agrees(r, input, spec_located(input, spec_code_block(input))),
        r matches Ok((_, block)) ==> pairs_ok(block.value.metadata.spec_entries()),
{
    context("Preformatted Text", le(&input, code_block_bare(input)))
}

} // verus!
