//! Links to files outside the wiki: `[[file:path]]`, `[[local:path]]` and
//! `[[//path]]`.

use crate::elements::links::{ExternalFileLink, ExternalFileLinkScheme, ExternalFileLinkView};
use crate::error::LangParserError;
use crate::located::Located;
use crate::parsers::links::wiki::{consumed, opt_description, spec_description, value_of};
use crate::parsers::scanning::{line_until_len, strs_view, tail};
use crate::parsers::utils::{context, le, parse_agrees, spec_located, IResult};
use crate::span::Span;
use std::borrow::Cow;
use vstd::prelude::*;

verus! {

/// What ends the path of an external file link.
pub open spec fn path_stops() -> Seq<Seq<char>> {
    seq!["|"@, "]]"@]
}

/// How the path at the front of `s` is to be read, and how many characters
/// stand before the path: `local:` and `file:` are dropped; of `//` the
/// second `/` begins the path.
pub open spec fn spec_external_scheme(s: Seq<char>) -> Option<(ExternalFileLinkScheme, int)> {
    if "local:"@.is_prefix_of(s) {
        Some((ExternalFileLinkScheme::Local, "local:"@.len() as int))
    } else if "file:"@.is_prefix_of(s) {
        Some((ExternalFileLinkScheme::File, "file:"@.len() as int))
    } else if "//"@.is_prefix_of(s) {
        Some((ExternalFileLinkScheme::Absolute, "/"@.len() as int))
    } else {
        None
    }
}

/// What stands between the brackets of an external file link: the scheme,
/// a path of at least one character, and a description, which may be
/// missing.
pub open spec fn spec_external_internal(s: Seq<char>) -> Option<(ExternalFileLinkView, int)> {
    match spec_external_scheme(s) {
        Some((scheme, k)) => {
            let u = tail(s, k);
            let n = line_until_len(u, path_stops());
            let d = spec_description(tail(u, n));
            if n > 0 {
                Some(
                    (
                        ExternalFileLinkView {
                            scheme,
                            path: u.subrange(0, n),
                            description: value_of(d),
                        },
                        k + n + consumed(d),
                    ),
                )
            } else {
                None
            }
        },
        None => None,
    }
}

/// What `external_file_link` yields, before it is located.
pub open spec fn spec_external_file_link(s: Seq<char>) -> Option<(ExternalFileLinkView, int)> {
    if "[["@.is_prefix_of(s) {
        match spec_external_internal(tail(s, "[["@.len() as int)) {
            Some((l, n)) => if "]]"@.is_prefix_of(tail(tail(s, "[["@.len() as int), n)) {
                Some((l, "[["@.len() + n + "]]"@.len()))
            } else {
                None
            },
            None => None,
        }
    } else {
        None
    }
}

/// Tells how the path at the front of the input is to be read.
pub fn external_scheme<'a>(input: &Span<'a>) -> (r: Option<(ExternalFileLinkScheme, usize)>)
    requires
        input.wf(),
    ensures
        match r {
            Some((scheme, k)) => spec_external_scheme(input@) == Some((scheme, k as int)) && k
                <= input@.len(),
            None => spec_external_scheme(input@) is None,
        },
{
    if input.starts_with("local:") {
        Some((ExternalFileLinkScheme::Local, "local:".unicode_len()))
    } else if input.starts_with("file:") {
        Some((ExternalFileLinkScheme::File, "file:".unicode_len()))
    } else if input.starts_with("//") {
        proof {
            reveal_strlit("//");
            reveal_strlit("/");
        }
        Some((ExternalFileLinkScheme::Absolute, "/".unicode_len()))
    } else {
        None
    }
}

/// Parses what stands between the brackets of an external file link.
pub fn external_internal<'a>(input: Span<'a>) -> (r: IResult<'a, ExternalFileLink<'static>>)
    requires
        input.wf(),
    ensures
        parse_agrees(r, input, spec_external_internal(input@)),
{
    let (scheme, k) = match external_scheme(&input) {
        Some(x) => x,
        None => {
            return Err(LangParserError::from_ctx(&input, "Not an external file"));
        },
    };
    let u = input.advance(k);
    proof {
        input.lemma_skip(k as int);
        assert(tail(u@, 0) =~= u@);
    }
    let stops = ["|", "]]"];
    proof {
        assert(strs_view(stops@) =~= path_stops());
    }
    let n = u.line_until_at(0, stops.as_slice());
    if n == 0 {
        return Err(LangParserError::from_ctx(&input, "No path"));
    }
    let path = u.take(n);
    let after_path = u.advance(n);
    proof {
        u.lemma_skip(n as int);
    }
    let (rest, maybe_description) = opt_description(after_path);
    proof {
        input.lemma_leads_to_trans(u, after_path);
        input.lemma_leads_to_trans(after_path, rest);
    }
    Ok((rest, ExternalFileLink::new(scheme, Cow::Owned(path.to_text()), maybe_description)))
}

/// Parses an external file link, before it is located.
pub fn external_file_link_bare<'a>(input: Span<'a>) -> (r: IResult<
    'a,
    ExternalFileLink<'static>,
>)
    requires
        input.wf(),
    ensures
        parse_agrees(r, input, spec_external_file_link(input@)),
        r matches Ok((rest, _)) ==> rest.start > input.start,
{
    proof {
        reveal_strlit("[[");
    }
    if !input.starts_with("[[") {
        return Err(LangParserError::from_ctx(&input, "No opening brackets"));
    }
    let open = "[[".unicode_len();
    let inner = input.advance(open);
    proof {
        input.lemma_skip(open as int);
    }
    match external_internal(inner) {
        Ok((after, link)) => {
            proof {
                input.lemma_leads_to_trans(inner, after);
                inner.lemma_skip(after.start - inner.start);
            }
            if after.starts_with("]]") {
                let rest = after.advance("]]".unicode_len());
                proof {
                    input.lemma_leads_to_trans(after, rest);
                }
                Ok((rest, link))
            } else {
                Err(LangParserError::from_ctx(&input, "No closing brackets"))
            }
        },
        Err(e) => Err(e),
    }
}

/// Parses a link to a file outside the wiki: `[[local:path]]`,
/// `[[file:path]]` or `[[//path]]`, each with a description `|text` as its
/// optional part.
pub fn external_file_link<'a>(input: Span<'a>) -> (r: IResult<
    'a,
    Located<ExternalFileLink<'static>>,
>)
    requires
        input.wf(),
    ensures
        parse_agrees(r, input, spec_located(input, spec_external_file_link(input@))),
{
    context("External File Link", le(&input, external_file_link_bare(input)))
}

} // verus!
