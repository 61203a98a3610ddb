//! URIs written out in the text.

use crate::elements::links::RawLink;
use crate::elements::uri::{Uri, UriView};
use crate::error::LangParserError;
use crate::located::Located;
use crate::parsers::utils::{context, le, parse_agrees, spec_located, spec_uri, uri, IResult};
use crate::span::Span;
use crate::text::text_eq;
use vstd::prelude::*;

verus! {

/// Whether a raw link may have this scheme.
pub open spec fn is_raw_scheme(scheme: Seq<char>) -> bool {
    scheme == "http"@ || scheme == "https"@ || scheme == "ftp"@ || scheme == "file"@ || scheme
        == "local"@ || scheme == "mailto"@
}

/// What `raw_link` yields, before it is located: a URI whose scheme is one
/// of those that a raw link may have.
pub open spec fn spec_raw_link(s: Seq<char>) -> Option<(UriView, int)> {
    match spec_uri(s) {
        Some((u, n)) => if is_raw_scheme(u.scheme) {
            Some((u, n))
        } else {
            None
        },
        None => None,
    }
}

/// Whether a raw link may have the scheme of `uri`.
pub fn has_raw_scheme(uri: &Uri) -> (r: bool)
    ensures
        r == is_raw_scheme(uri@.scheme),
{
    let s = uri.scheme();
    text_eq(s, "http") || text_eq(s, "https") || text_eq(s, "ftp") || text_eq(s, "file")
        || text_eq(s, "local") || text_eq(s, "mailto")
}

/// Parses a raw link, before it is located.
pub fn raw_link_bare<'a>(input: Span<'a>) -> (r: IResult<'a, RawLink>)
    requires
        input.wf(),
    ensures
        parse_agrees(r, input, spec_raw_link(input@)),
        r matches Ok((rest, _)) ==> rest.start > input.start,
{
    match uri(input) {
        Ok((rest, u)) => {
            if has_raw_scheme(&u) {
                Ok((rest, RawLink::new(u)))
            } else {
                Err(LangParserError::from_ctx(&input, "Scheme not of a raw link"))
            }
        },
        Err(e) => Err(e),
    }
}

/// Parses a URI that stands in the text as it is. Only the schemes `http`,
/// `https`, `ftp`, `file`, `local` and `mailto` make a link, so that a word
/// before a colon is not taken for one.
pub fn raw_link<'a>(input: Span<'a>) -> (r: IResult<'a, Located<RawLink>>)
    requires
        input.wf(),
    ensures
        parse_agrees(r, input, spec_located(input, spec_raw_link(input@))),
{
    context("Raw Link", le(&input, raw_link_bare(input)))
}

} // verus!
