//! Comments: `%% text` and `%%+ text +%%`.

use crate::elements::comments::{Comment, CommentView, LineComment, MultiLineComment};
use crate::error::LangParserError;
use crate::located::Located;
use crate::parsers::scanning::{
    lemma_line_len_stops, len_until_tag, line_until_len, split_lines, strs_view, tail,
};
use crate::parsers::utils::{
    context, le, parse_agrees, skip_tag, spec_located, take_until, IResult,
};
use crate::span::Span;
use crate::text::texts_view;
use std::borrow::Cow;
use vstd::prelude::*;

verus! {

/// What `line_comment` yields, before it is located: what stands after
/// `%%`, up to the end of the line.
pub open spec fn spec_line_comment(s: Seq<char>) -> Option<(Seq<char>, int)> {
    let t = tail(s, "%%"@.len() as int);
    let n = line_until_len(t, Seq::empty());
    if "%%"@.is_prefix_of(s) {
        Some((t.subrange(0, n), "%%"@.len() + n))
    } else {
        None
    }
}

/// What `multi_line_comment` yields, before it is located: the lines of
/// what stands between `%%+` and the next `+%%`.
pub open spec fn spec_multi_line_comment(s: Seq<char>) -> Option<(Seq<Seq<char>>, int)> {
    let t = tail(s, "%%+"@.len() as int);
    let k = len_until_tag(t, "+%%"@);
    if "%%+"@.is_prefix_of(s) && "+%%"@.is_prefix_of(tail(t, k)) {
        Some((split_lines(t.subrange(0, k)), "%%+"@.len() + k + "+%%"@.len()))
    } else {
        None
    }
}

/// What `comment` yields, before it is located: a comment of several lines
/// if one begins, a comment of one line otherwise.
pub open spec fn spec_comment(s: Seq<char>) -> Option<(CommentView, int)> {
    if let Some((lines, n)) = spec_multi_line_comment(s) {
        Some((CommentView::MultiLine(lines), n))
    } else if let Some((line, n)) = spec_line_comment(s) {
        Some((CommentView::Line(line), n))
    } else {
        None
    }
}

/// Parses a comment of one line, before it is located.
pub fn line_comment_bare<'a>(input: Span<'a>) -> (r: IResult<'a, LineComment<'static>>)
    requires
        input.wf(),
    ensures
        parse_agrees(r, input, spec_line_comment(input@)),
        r matches Ok((rest, _)) ==> rest.start > input.start,
{
    proof {
        reveal_strlit("%%");
    }
    let t = match skip_tag(input, "%%") {
        Some(t) => t,
        None => {
            return Err(LangParserError::from_ctx(&input, "Not a comment"));
        },
    };
    let none: [&str; 0] = [];
    proof {
        assert(strs_view(none@) =~= Seq::empty());
    }
    let (rest, line) = take_until(t, none.as_slice());
    proof {
        input.lemma_leads_to_trans(t, rest);
    }
    Ok((rest, LineComment::new(Cow::Owned(line.to_text()))))
}

/// Parses a comment of one line: `%%` and what follows it on the line.
pub fn line_comment<'a>(input: Span<'a>) -> (r: IResult<'a, Located<LineComment<'static>>>)
    requires
        input.wf(),
    ensures
        parse_agrees(r, input, spec_located(input, spec_line_comment(input@))),
{
    context("Line Comment", le(&input, line_comment_bare(input)))
}

/// Splits the input into its lines.
pub fn lines_of<'a>(input: Span<'a>) -> (r: Vec<Cow<'static, str>>)
    requires
        input.wf(),
    ensures
        texts_view(r@) == split_lines(input@),
{
    let mut out: Vec<Cow<'static, str>> = Vec::new();
    let mut cur = input;
    proof {
        assert(texts_view(out@) =~= Seq::empty());
        assert(Seq::<Seq<char>>::empty() + split_lines(input@) =~= split_lines(input@));
    }
    loop
        invariant
            cur.wf(),
            split_lines(input@) == texts_view(out@) + split_lines(cur@),
        decreases cur.spec_len(),
    {
        proof {
            assert(tail(cur@, 0) =~= cur@);
        }
        let n = cur.line_len_at(0);
        let ghost before = out@;
        let line = cur.take(n);
        out.push(Cow::Owned(line.to_text()));
        proof {
            assert(texts_view(out@) =~= texts_view(before).push(line@));
        }
        let e = cur.line_ending_at(n);
        proof {
            lemma_line_len_stops(cur@);
        }
        if e > 0 {
            let next = cur.advance(n + e);
            proof {
                let more = split_lines(next@);
                assert(texts_view(before) + (seq![line@] + more) =~= texts_view(before).push(
                    line@,
                ) + more);
            }
            cur = next;
        } else {
            proof {
                assert(cur@.subrange(0, n as int) =~= cur@);
                assert(texts_view(before) + seq![cur@] =~= texts_view(before).push(cur@));
            }
            return out;
        }
    }
}

/// Parses a comment of several lines, before it is located.
pub fn multi_line_comment_bare<'a>(input: Span<'a>) -> (r: IResult<
    'a,
    MultiLineComment<'static>,
>)
    requires
        input.wf(),
    ensures
        parse_agrees(r, input, spec_multi_line_comment(input@)),
        r matches Ok((rest, _)) ==> rest.start > input.start,
{
    proof {
        reveal_strlit("%%+");
    }
    let t = match skip_tag(input, "%%+") {
        Some(t) => t,
        None => {
            return Err(LangParserError::from_ctx(&input, "Not a comment"));
        },
    };
    proof {
        assert(tail(t@, 0) =~= t@);
    }
    let k = t.find_tag_at(0, "+%%");
    let (after, content) = t.take_split(k);
    let rest = match skip_tag(after, "+%%") {
        Some(x) => x,
        None => {
            return Err(LangParserError::from_ctx(&input, "Comment is not closed"));
        },
    };
    proof {
        input.lemma_leads_to_trans(t, after);
        input.lemma_leads_to_trans(after, rest);
    }
    Ok((rest, MultiLineComment::new(lines_of(content))))
}

/// Parses a comment of several lines: what stands between `%%+` and `+%%`.
pub fn multi_line_comment<'a>(input: Span<'a>) -> (r: IResult<
    'a,
    Located<MultiLineComment<'static>>,
>)
    requires
        input.wf(),
    ensures
        parse_agrees(r, input, spec_located(input, spec_multi_line_comment(input@))),
{
    context("Multi Line Comment", le(&input, multi_line_comment_bare(input)))
}

/// Parses a comment, before it is located.
pub fn comment_bare<'a>(input: Span<'a>) -> (r: IResult<'a, Comment<'static>>)
    requires
        input.wf(),
    ensures
        parse_agrees(r, input, spec_comment(input@)),
        r matches Ok((rest, _)) ==> rest.start > input.start,
{
    if let Ok((rest, c)) = multi_line_comment_bare(input) {
        return Ok((rest, Comment::MultiLine(c)));
    }
    match line_comment_bare(input) {
        Ok((rest, c)) => Ok((rest, Comment::Line(c))),
        Err(e) => Err(e),
    }
}

/// Parses a comment of either kind.
pub fn comment<'a>(input: Span<'a>) -> (r: IResult<'a, Located<Comment<'static>>>)
    requires
        input.wf(),
    ensures
        parse_agrees(r, input, spec_located(input, spec_comment(input@))),
{
    context("Comment", le(&input, comment_bare(input)))
}

} // verus!
