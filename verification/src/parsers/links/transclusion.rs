//! Links that pull in what they point to: `{{uri|description|key="value"}}`.

use crate::elements::links::{
    opt_description_view, Description, DescriptionView, TransclusionLink, TransclusionLinkView,
};
use crate::elements::metadata::{properties_map, properties_view, Metadata, Property};

use crate::error::LangParserError;
use crate::located::Located;
use crate::parsers::links::wiki::consumed;
use crate::parsers::scanning::{line_until_len, strs_view, tail};
use crate::parsers::utils::{context, le, parse_agrees, spec_located, spec_uri, uri, IResult};
use crate::span::Span;
use std::borrow::Cow;
use vstd::prelude::*;

verus! {

/// What ends a part of a transclusion.
pub open spec fn part_stops() -> Seq<Seq<char>> {
    seq!["|"@, "}}"@]
}

/// What ends the key of a property.
pub open spec fn key_stops() -> Seq<Seq<char>> {
    seq!["="@]
}

/// What ends the value of a property.
pub open spec fn value_stops() -> Seq<Seq<char>> {
    seq!["\""@]
}

/// The description at the front of `s`: what stands between a `|` and the
/// next `|` or `}}`. Where nothing stands there, the `|` is passed and there
/// is no description.
pub open spec fn spec_part(s: Seq<char>) -> Option<(Option<Seq<char>>, int)> {
    if "|"@.is_prefix_of(s) {
        let t = tail(s, "|"@.len() as int);
        let n = line_until_len(t, part_stops());
        Some((
            if n > 0 {
                Some(t.subrange(0, n))
            } else {
                None
            },
            "|"@.len() + n,
        ))
    } else {
        None
    }
}

/// The property at the front of `s`: `|key="value"`, where the key has at
/// least one character.
pub open spec fn spec_property(s: Seq<char>) -> Option<((Seq<char>, Seq<char>), int)> {
    if "|"@.is_prefix_of(s) {
        let t = tail(s, "|"@.len() as int);
        let k = line_until_len(t, key_stops());
        let u = tail(t, k);
        if k > 0 && "=\""@.is_prefix_of(u) {
            let w = tail(u, "=\""@.len() as int);
            let v = line_until_len(w, value_stops());
            if "\""@.is_prefix_of(tail(w, v)) {
                Some(
                    (
                        (t.subrange(0, k), w.subrange(0, v)),
                        "|"@.len() + k + "=\""@.len() + v + "\""@.len(),
                    ),
                )
            } else {
                None
            }
        } else {
            None
        }
    } else {
        None
    }
}

/// The properties at the front of `s`, one after the other.
pub open spec fn spec_properties(s: Seq<char>) -> (Seq<(Seq<char>, Seq<char>)>, int)
    decreases s.len(),
{
    match spec_property(s) {
        Some((p, n)) => if 0 < n <= s.len() {
            let more = spec_properties(tail(s, n));
            (seq![p] + more.0, n + more.1)
        } else {
            (Seq::empty(), 0)
        },
        None => (Seq::empty(), 0),
    }
}

/// What stands between the braces of a transclusion: the text of a URI, at
/// least one character, then a description and properties, which may be
/// missing.
pub open spec fn spec_transclusion_internal(s: Seq<char>) -> Option<(TransclusionLinkView, int)> {
    let n = line_until_len(s, part_stops());
    if n > 0 {
        match spec_uri(s.subrange(0, n)) {
            Some((u, _)) => {
                let after = tail(s, n);
                let d = spec_part(after);
                let after_d = tail(after, consumed(d));
                let p = spec_properties(after_d);
                Some(
                    (
                        TransclusionLinkView {
                            uri: u,
                            description: match d {
                                Some((Some(t), _)) => Some(DescriptionView::Text(t)),
                                _ => None,
                            },
                            properties: properties_map(p.0),
                        },
                        n + consumed(d) + p.1,
                    ),
                )
            },
            None => None,
        }
    } else {
        None
    }
}

/// What `transclusion_link` yields, before it is located.
pub open spec fn spec_transclusion_link(s: Seq<char>) -> Option<(TransclusionLinkView, int)> {
    if "{{"@.is_prefix_of(s) {
        match spec_transclusion_internal(tail(s, "{{"@.len() as int)) {
            Some((l, n)) => if "}}"@.is_prefix_of(tail(tail(s, "{{"@.len() as int), n)) {
                Some((l, "{{"@.len() + n + "}}"@.len()))
            } else {
                None
            },
            None => None,
        }
    } else {
        None
    }
}

/// Parses the description of a transclusion, if a `|` stands at the front.
pub fn part<'a>(input: Span<'a>) -> (r: (Span<'a>, Option<Description<'static>>))
    requires
        input.wf(),
    ensures
        r.0.wf(),
        input.leads_to(r.0),
        r.0.start - input.start == consumed(spec_part(input@)),
        r.0@ == tail(input@, consumed(spec_part(input@))),
        opt_description_view(r.1) == (match spec_part(input@) {
            Some((Some(t), _)) => Some(DescriptionView::Text(t)),
            _ => None,
        }),
{
    proof {
        input.lemma_skip(0);
        assert(tail(input@, 0) =~= input@);
    }
    if !input.starts_with("|") {
        return (input, None);
    }
    let t = input.advance("|".unicode_len());
    proof {
        input.lemma_skip("|"@.len() as int);
        assert(tail(t@, 0) =~= t@);
    }
    let stops = ["|", "}}"];
    proof {
        assert(strs_view(stops@) =~= part_stops());
    }
    let n = t.line_until_at(0, stops.as_slice());
    let rest = t.advance(n);
    proof {
        t.lemma_skip(n as int);
        input.lemma_leads_to_trans(t, rest);
        input.lemma_skip(rest.start - input.start);
    }
    if n > 0 {
        (rest, Some(Description::Text(Cow::Owned(t.take(n).to_text()))))
    } else {
        (rest, None)
    }
}

/// Parses one property of a transclusion: `|key="value"`.
pub fn property<'a>(input: Span<'a>) -> (r: Option<(Span<'a>, Property<'static>)>)
    requires
        input.wf(),
    ensures
        match r {
            Some((rest, p)) => {
                &&& spec_property(input@) == Some(((p.key@, p.value@), rest.start - input.start))
                &&& input.leads_to(rest)
                &&& rest.wf()
                &&& rest.start > input.start
                &&& rest@ == tail(input@, rest.start - input.start)
            },
            None => spec_property(input@) is None,
        },
{
    if !input.starts_with("|") {
        return None;
    }
    let t = input.advance("|".unicode_len());
    proof {
        input.lemma_skip("|"@.len() as int);
        assert(tail(t@, 0) =~= t@);
    }
    let ks = ["="];
    let vs = ["\""];
    proof {
        assert(strs_view(ks@) =~= key_stops());
        assert(strs_view(vs@) =~= value_stops());
    }
    let k = t.line_until_at(0, ks.as_slice());
    let u = t.advance(k);
    proof {
        t.lemma_skip(k as int);
    }
    if k == 0 || !u.starts_with("=\"") {
        return None;
    }
    let w = u.advance("=\"".unicode_len());
    proof {
        u.lemma_skip("=\""@.len() as int);
        assert(tail(w@, 0) =~= w@);
    }
    let v = w.line_until_at(0, vs.as_slice());
    let x = w.advance(v);
    proof {
        w.lemma_skip(v as int);
    }
    if !x.starts_with("\"") {
        return None;
    }
    let rest = x.advance("\"".unicode_len());
    proof {
        input.lemma_leads_to_trans(t, u);
        input.lemma_leads_to_trans(u, w);
        input.lemma_leads_to_trans(w, x);
        input.lemma_leads_to_trans(x, rest);
        input.lemma_skip(rest.start - input.start);
    }
    let p = Property::new(Cow::Owned(t.take(k).to_text()), Cow::Owned(w.take(v).to_text()));
    Some((rest, p))
}

/// Parses the properties of a transclusion.
pub fn properties<'a>(input: Span<'a>) -> (r: (Span<'a>, Vec<Property<'static>>))
    requires
        input.wf(),
    ensures
        r.0.wf(),
        input.leads_to(r.0),
        r.0.start - input.start == spec_properties(input@).1,
        r.0@ == tail(input@, spec_properties(input@).1),
        properties_view(r.1@) == spec_properties(input@).0,
{
    let mut out: Vec<Property<'static>> = Vec::new();
    let mut cur = input;
    let mut done = false;
    proof {
        input.lemma_skip(0);
        assert(properties_view(out@) =~= Seq::empty());
        assert(Seq::<(Seq<char>, Seq<char>)>::empty() + spec_properties(input@).0
            =~= spec_properties(input@).0);
    }
    while !done
        invariant
            input.wf(),
            cur.wf(),
            input.leads_to(cur),
            spec_properties(input@).0 == properties_view(out@) + spec_properties(cur@).0,
            spec_properties(input@).1 == (cur.start - input.start) + spec_properties(cur@).1,
            done ==> spec_properties(cur@).1 == 0 && spec_properties(cur@).0.len() == 0,
        decreases cur.spec_len() + (if done { 0int } else { 1int }),
    {
        match property(cur) {
            Some((next, p)) => {
                proof {
                    input.lemma_leads_to_trans(cur, next);
                    let before = properties_view(out@);
                    let more = spec_properties(next@);
                    let pv = (p.key@, p.value@);
                    assert(before + (seq![pv] + more.0) =~= before.push(pv) + more.0);
                }
                let ghost before = out@;
                out.push(p);
                proof {
                    assert(properties_view(out@) =~= properties_view(before).push(
                        (p.key@, p.value@),
                    ));
                }
                cur = next;
            },
            None => {
                done = true;
            },
        }
    }
    proof {
        assert(properties_view(out@) + Seq::<(Seq<char>, Seq<char>)>::empty() =~= properties_view(
            out@,
        ));
        input.lemma_skip(cur.start - input.start);
    }
    (cur, out)
}

/// Parses what stands between the braces of a transclusion.
pub fn transclusion_internal<'a>(input: Span<'a>) -> (r: IResult<'a, TransclusionLink<'static>>)
    requires
        input.wf(),
    ensures
        parse_agrees(r, input, spec_transclusion_internal(input@)),
{
    proof {
        assert(tail(input@, 0) =~= input@);
    }
    let stops = ["|", "}}"];
    proof {
        assert(strs_view(stops@) =~= part_stops());
    }
    let n = input.line_until_at(0, stops.as_slice());
    if n == 0 {
        return Err(LangParserError::from_ctx(&input, "No URI"));
    }
    let u = match uri(input.take(n)) {
        Ok((_, u)) => u,
        Err(e) => {
            return Err(e);
        },
    };
    let after = input.advance(n);
    proof {
        input.lemma_skip(n as int);
    }
    let (after_d, maybe_description) = part(after);
    let (rest, pairs) = properties(after_d);
    proof {
        input.lemma_leads_to_trans(after, after_d);
        input.lemma_leads_to_trans(after_d, rest);
    }
    Ok((rest, TransclusionLink::new(u, maybe_description, Metadata::from_pairs(pairs))))
}

/// Parses a transclusion, before it is located.
pub fn transclusion_link_bare<'a>(input: Span<'a>) -> (r: IResult<'a, TransclusionLink<'static>>)
    requires
        input.wf(),
    ensures
        parse_agrees(r, input, spec_transclusion_link(input@)),
        r matches Ok((rest, _)) ==> rest.start > input.start,
{
    proof {
        reveal_strlit("{{");
    }
    if !input.starts_with("{{") {
        return Err(LangParserError::from_ctx(&input, "No opening braces"));
    }
    let open = "{{".unicode_len();
    let inner = input.advance(open);
    proof {
        input.lemma_skip(open as int);
    }
    match transclusion_internal(inner) {
        Ok((after, link)) => {
            proof {
                input.lemma_leads_to_trans(inner, after);
                inner.lemma_skip(after.start - inner.start);
            }
            if after.starts_with("}}") {
                let rest = after.advance("}}".unicode_len());
                proof {
                    input.lemma_leads_to_trans(after, rest);
                }
                Ok((rest, link))
            } else {
                Err(LangParserError::from_ctx(&input, "No closing braces"))
            }
        },
        Err(e) => Err(e),
    }
}

/// Parses a transclusion: `{{uri}}`, with a description `|text` and
/// properties `|key="value"` as its optional parts.
pub fn transclusion_link<'a>(input: Span<'a>) -> (r: IResult<
    'a,
    Located<TransclusionLink<'static>>,
>)
    requires
        input.wf(),
    ensures
        parse_agrees(r, input, spec_located(input, spec_transclusion_link(input@))),
{
    context("Transclusion Link", le(&input, transclusion_link_bare(input)))
}

} // verus!
