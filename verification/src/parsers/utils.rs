//! Building blocks shared by all element parsers.

use crate::error::{ErrorKind, LangParserError};
use crate::located::Located;
use crate::parsers::scanning::{
    at_end_of_line, leading_spaces, lemma_scan_len_stops, lemma_scan_len_unique,
    lemma_line_len_stops, lemma_tail_tail, len_until_char, line_ending_len, line_len,
    line_until_len, scan_len,
    spec_multispace_len, strs_view, tail, trailing_spaces, while_not_blank, while_scheme,
};
use crate::elements::uri::{parsed_uri, Uri, UriView};

use crate::span::Span;
use std::ops::Range;
use vstd::prelude::*;

verus! {

/// What a parser returns: the input that is left and the value parsed, or a
/// failure.
pub type IResult<'a, T> = Result<(Span<'a>, T), LangParserError>;

/// Labels a failure with the name of the parser it came through; a success
/// passes unchanged.
pub fn context<T>(label: &'static str, result: Result<T, LangParserError>) -> (r: Result<
    T,
    LangParserError,
>)
    ensures
        match (result, r) {
            (Ok(x), Ok(y)) => x == y,
            (Err(e), Err(f)) => f.adds_label(e, label),
            _ => false,
        },
{
    match result {
        Ok(x) => Ok(x),
        Err(e) => Err(e.with_context(label)),
    }
}

/// Pairs the value of a successful parse with the region consumed, which
/// runs from the start of `input` to the start of what is left.
pub fn le<'a, T>(input: &Span<'a>, result: IResult<'a, T>) -> (r: IResult<'a, Located<T>>)
    requires
        input.wf(),
        result matches Ok((rest, _)) ==> input.leads_to(rest),
    ensures
        match (result, r) {
            (Ok((rest, x)), Ok((rest2, lx))) => {
                &&& rest2 == rest
                &&& lx.value == x
                &&& lx.region == input.region_of(rest.start - input.start)
                &&& lx.region.wf()
            },
            (Err(e), Err(f)) => f.adds_label(e, "LE"),
            _ => false,
        },
{
    match result {
        Ok((rest, x)) => {
            let region = input.region_to(&rest);
            Ok((rest, Located::new(x, region)))
        },
        Err(e) => Err(e.with_context("LE")),
    }
}

/// Drops the region of a located value.
pub fn unwrap_le<'a, T>(result: IResult<'a, Located<T>>) -> (r: IResult<'a, T>)
    ensures
        match (result, r) {
            (Ok((rest, lx)), Ok((rest2, x))) => rest2 == rest && x == lx.value,
            (Err(e), Err(f)) => f.adds_label(e, "LE Unwrap"),
            _ => false,
        },
{
    match result {
        Ok((rest, lx)) => Ok((rest, lx.value)),
        Err(e) => Err(e.with_context("LE Unwrap")),
    }
}

/// Pairs the value of a successful parse with the offsets between which it
/// was found: that of the first character consumed, and that of the first
/// character left.
pub fn range<'a, T>(input: &Span<'a>, result: IResult<'a, T>) -> (r: IResult<
    'a,
    (Range<usize>, T),
>)
    ensures
        match (result, r) {
            (Ok((rest, x)), Ok((rest2, (rg, y)))) => {
                &&& rest2 == rest
                &&& y == x
                &&& rg.start == input.start
                &&& rg.end == rest.start
            },
            (Err(e), Err(f)) => f == e,
            _ => false,
        },
{
    match result {
        Ok((rest, x)) => {
            let start = input.start_offset();
            let end = rest.start_offset();
            Ok((rest, (start..end, x)))
        },
        Err(e) => Err(e),
    }
}

/// Turns the span that a parser took into a string of its characters.
pub fn pstring<'a>(result: IResult<'a, Span<'a>>) -> (r: IResult<'a, String>)
    requires
        result matches Ok((_, taken)) ==> taken.wf(),
    ensures
        match (result, r) {
            (Ok((rest, taken)), Ok((rest2, s))) => rest2 == rest && s@ == taken@,
            (Err(e), Err(f)) => f.adds_label(e, "Pstring"),
            _ => false,
        },
{
    match result {
        Ok((rest, taken)) => Ok((rest, taken.to_text())),
        Err(e) => Err(e.with_context("Pstring")),
    }
}

/// Succeeds, consuming nothing, where the input sits at the start of a line.
pub fn beginning_of_line<'a>(input: Span<'a>) -> (r: IResult<'a, ()>)
    requires
        input.wf(),
    ensures
        match r {
            Ok((rest, _)) => input.spec_at_line_start() && rest == input,
            Err(e) => !input.spec_at_line_start() && e.kind == ErrorKind::Mismatch && e.met_at(input),
        },
{
    if input.at_line_start() {
        Ok((input, ()))
    } else {
        Err(
            LangParserError::from_ctx(&input, "Not at beginning of line").with_context(
                "Beginning of Line",
            ),
        )
    }
}

/// Consumes a line terminator, or nothing at the end of the input.
pub fn end_of_line_or_input<'a>(input: Span<'a>) -> (r: IResult<'a, ()>)
    requires
        input.wf(),
    ensures
        match r {
            Ok((rest, _)) => at_end_of_line(input@) && rest == input.skip(
                line_ending_len(input@),
            ) && rest.wf(),
            Err(e) => !at_end_of_line(input@) && e.kind == ErrorKind::Mismatch && e.met_at(input),
        },
{
    proof {
        assert(tail(input@, 0) =~= input@);
    }
    if input.is_empty() {
        proof {
            input.lemma_skip(0);
        }
        return Ok((input, ()));
    }
    let n = input.line_ending_at(0);
    if n > 0 {
        Ok((input.advance(n), ()))
    } else {
        Err(
            LangParserError::from_ctx(&input, "Not at end of line").with_context(
                "End of Line/Input",
            ),
        )
    }
}

/// Consumes one of `"\r\n"`, `"\n"`, a tab or a space.
pub fn single_multispace<'a>(input: Span<'a>) -> (r: IResult<'a, ()>)
    requires
        input.wf(),
    ensures
        match r {
            Ok((rest, _)) => spec_multispace_len(input@) > 0 && rest == input.skip(
                spec_multispace_len(input@),
            ) && rest.wf(),
            Err(e) => spec_multispace_len(input@) == 0 && e.kind == ErrorKind::Mismatch && e.met_at(input),
        },
{
    let n = multispace_len(&input, 0);
    proof {
        assert(tail(input@, 0) =~= input@);
    }
    if n > 0 {
        Ok((input.advance(n), ()))
    } else {
        Err(
            LangParserError::from_ctx(&input, "Not whitespace").with_context(
                "Single Multispace",
            ),
        )
    }
}

/// Length of the whitespace unit at index `i` of the remaining input.
pub fn multispace_len<'a>(input: &Span<'a>, i: usize) -> (n: usize)
    requires
        input.wf(),
        i <= input@.len(),
    ensures
        n == spec_multispace_len(tail(input@, i as int)),
        i + n <= input@.len(),
{
    let e = input.line_ending_at(i);
    if e > 0 {
        e
    } else if i < input.len() && (input.get(i) == '\t' || input.get(i) == ' ') {
        1
    } else {
        0
    }
}

/// Takes what is left of the current line, up to but not including its
/// terminator.
pub fn take_until_end_of_line_or_input<'a>(input: Span<'a>) -> (r: IResult<'a, Span<'a>>)
    requires
        input.wf(),
    ensures
        r matches Ok((rest, taken)) && rest == input.skip(line_len(input@)) && taken
            == input.first(line_len(input@)) && rest.wf() && taken.wf(),
{
    proof {
        assert(tail(input@, 0) =~= input@);
    }
    let n = input.line_len_at(0);
    let (rest, taken) = input.take_split(n);
    Ok((rest, taken))
}

/// Takes the input up to but not including the first character equal to
/// `byte`, or all of it where there is none.
pub fn take_until_byte<'a>(input: Span<'a>, byte: u8) -> (r: IResult<'a, Span<'a>>)
    requires
        input.wf(),
    ensures
        r matches Ok((rest, taken)) && rest == input.skip(len_until_char(input@, byte as char))
            && taken == input.first(len_until_char(input@, byte as char)) && rest.wf()
            && taken.wf(),
{
    proof {
        assert(tail(input@, 0) =~= input@);
    }
    let n = input.find_char_at(0, byte as char);
    let (rest, taken) = input.take_split(n);
    Ok((rest, taken))
}

/// As `take_until_byte`, but fails where nothing would be taken.
pub fn take_until_byte1<'a>(input: Span<'a>, byte: u8) -> (r: IResult<'a, Span<'a>>)
    requires
        input.wf(),
    ensures
        match r {
            Ok((rest, taken)) => len_until_char(input@, byte as char) > 0 && rest == input.skip(
                len_until_char(input@, byte as char),
            ) && taken == input.first(len_until_char(input@, byte as char)) && rest.wf()
                && taken.wf(),
            Err(e) => len_until_char(input@, byte as char) == 0 && e.kind == ErrorKind::Mismatch && e.met_at(input),
        },
{
    proof {
        assert(tail(input@, 0) =~= input@);
    }
    let n = input.find_char_at(0, byte as char);
    if n == 0 {
        return Err(
            LangParserError::from_ctx(&input, "Nothing before byte").with_context(
                "Take Until Byte 1",
            ),
        );
    }
    let (rest, taken) = input.take_split(n);
    Ok((rest, taken))
}

/// Counts the spaces and tabs at the end of the input; consumes nothing.
pub fn count_trailing_whitespace<'a>(input: Span<'a>) -> (r: IResult<'a, usize>)
    requires
        input.wf(),
    ensures
        r matches Ok((rest, n)) && rest == input && n == trailing_spaces(input@),
{
    let n = input.trailing_space_count();
    Ok((input, n))
}

/// Cuts the spaces and tabs off the end of the input.
pub fn trim_trailing_whitespace<'a>(input: Span<'a>) -> (r: IResult<'a, ()>)
    requires
        input.wf(),
    ensures
        r matches Ok((rest, _)) && rest == input.first(input@.len() - trailing_spaces(input@))
            && rest.wf(),
{
    let n = input.trailing_space_count();
    Ok((input.drop_last(n), ()))
}

/// Cuts the spaces and tabs off both ends of the input.
pub fn trim_whitespace<'a>(input: Span<'a>) -> (r: IResult<'a, ()>)
    requires
        input.wf(),
    ensures
        r matches Ok((rest, _)) && rest.wf() && rest == spec_trimmed(input),
{
    proof {
        assert(tail(input@, 0) =~= input@);
    }
    let n = input.spaces_at(0);
    let inner = input.advance(n);
    let t = inner.trailing_space_count();
    Ok((inner.drop_last(t), ()))
}

/// The span without the spaces and tabs at its two ends.
pub open spec fn spec_trimmed<'a>(input: Span<'a>) -> Span<'a> {
    let inner = input.skip(leading_spaces(input@));
    inner.first(inner@.len() - trailing_spaces(inner@))
}

/// Splits `count` characters off the end of the input: they are the value,
/// and what precedes them is left. Fails where the input is shorter.
pub fn take_end<'a>(input: Span<'a>, count: usize) -> (r: IResult<'a, Span<'a>>)
    requires
        input.wf(),
    ensures
        match r {
            Ok((rest, taken)) => {
                &&& count <= input@.len()
                &&& rest == input.first(input@.len() - count)
                &&& taken == input.skip(input@.len() - count)
                &&& rest.wf()
                &&& taken.wf()
            },
            Err(e) => count > input@.len() && e.kind == ErrorKind::Mismatch && e.met_at(input),
        },
{
    let len = input.len();
    if count > len {
        Err(LangParserError::from_ctx(&input, "Too few characters").with_context("Take End"))
    } else {
        let (end, front) = input.take_split(len - count);
        Ok((front, end))
    }
}

/// Whether a parse result is the one that the grammar gives for `input`:
/// the value with the given view, after the given number of characters, or a
/// mismatch where the grammar gives none.
pub open spec fn parse_agrees<'a, T: View>(
    r: IResult<'a, T>,
    input: Span<'a>,
    expected: Option<(T::V, int)>,
) -> bool {
    match r {
        Ok((rest, v)) => {
            &&& expected == Some((v@, rest.start - input.start))
            &&& input.leads_to(rest)
            &&& rest.wf()
        },
        Err(e) => expected is None && e.kind == ErrorKind::Mismatch && e.met_within(input),
    }
}

/// Whether a parser that yields no value consumed what the grammar says:
/// the given number of characters, or a mismatch where it gives none.
pub open spec fn skip_agrees<'a>(r: IResult<'a, ()>, input: Span<'a>, expected: Option<int>) -> bool {
    match r {
        Ok((rest, _)) => {
            &&& expected == Some(rest.start - input.start)
            &&& input.leads_to(rest)
            &&& rest.wf()
        },
        Err(e) => expected is None && e.kind == ErrorKind::Mismatch && e.met_within(input),
    }
}

/// Whether a parser that yields a part of its input took what the grammar
/// says: the `len` characters from index `from` on, leaving what follows
/// the first `total` characters.
pub open spec fn take_agrees<'a>(
    r: IResult<'a, Span<'a>>,
    input: Span<'a>,
    expected: Option<(int, int, int)>,
) -> bool {
    match r {
        Ok((rest, taken)) => {
            &&& expected matches Some((from, len, total))
            &&& 0 <= from
            &&& 0 <= len
            &&& from + len <= total <= input.spec_len()
            &&& rest == input.skip(total)
            &&& taken == input.skip(from).first(len)
            &&& rest.wf()
            &&& taken.wf()
        },
        Err(e) => expected is None && e.kind == ErrorKind::Mismatch && e.met_within(input),
    }
}

/// Consumes `text`, which must stand at the front of the input.
pub fn tag<'a>(input: Span<'a>, text: &str) -> (r: IResult<'a, ()>)
    requires
        input.wf(),
    ensures
        skip_agrees(
            r,
            input,
            if text@.is_prefix_of(input@) {
                Some(text@.len() as int)
            } else {
                None
            },
        ),
{
    if input.starts_with(text) {
        let n = text.unicode_len();
        Ok((input.advance(n), ()))
    } else {
        Err(LangParserError::from_ctx(&input, "Tag not found"))
    }
}

/// Consumes the spaces and tabs at the front of the input.
pub fn space0<'a>(input: Span<'a>) -> (r: Span<'a>)
    requires
        input.wf(),
    ensures
        r == input.skip(leading_spaces(input@)),
        r.wf(),
        input.leads_to(r),
{
    proof {
        assert(tail(input@, 0) =~= input@);
    }
    let n = input.spaces_at(0);
    input.advance(n)
}

/// Consumes the spaces and tabs at the front of the input, of which there
/// must be at least one.
pub fn space1<'a>(input: Span<'a>) -> (r: IResult<'a, ()>)
    requires
        input.wf(),
    ensures
        skip_agrees(
            r,
            input,
            if leading_spaces(input@) > 0 {
                Some(leading_spaces(input@))
            } else {
                None
            },
        ),
{
    proof {
        assert(tail(input@, 0) =~= input@);
    }
    let n = input.spaces_at(0);
    if n > 0 {
        Ok((input.advance(n), ()))
    } else {
        Err(LangParserError::from_ctx(&input, "No whitespace"))
    }
}

/// What `blank_line` yields: the spaces and tabs of a line that holds
/// nothing else, where the input sits at the start of such a line. The line
/// must end with a terminator, or, if it has at least one space or tab, with
/// the input.
pub open spec fn spec_blank_line(input: Span) -> Option<(Seq<char>, int)> {
    let s = input@;
    let n = leading_spaces(s);
    let e = line_ending_len(tail(s, n));
    if !input.spec_at_line_start() {
        None
    } else if e > 0 {
        Some((s.subrange(0, n), n + e))
    } else if n >= 1 && n == s.len() {
        Some((s.subrange(0, n), n))
    } else {
        None
    }
}

/// Consumes a line that holds only spaces and tabs, with its terminator, and
/// yields them. The input must sit at the start of the line.
pub fn blank_line<'a>(input: Span<'a>) -> (r: IResult<'a, String>)
    requires
        input.wf(),
    ensures
        parse_agrees(r, input, spec_blank_line(input)),
        r matches Ok((rest, _)) ==> rest.start > input.start && rest.at_boundary(),
{
    proof {
        assert(tail(input@, 0) =~= input@);
    }
    if !input.at_line_start() {
        return Err(
            LangParserError::from_ctx(&input, "Not at beginning of line").with_context(
                "Blank Line",
            ),
        );
    }
    let n = input.spaces_at(0);
    let e = input.line_ending_at(n);
    if e > 0 || (n >= 1 && n == input.len()) {
        let (rest, taken) = input.take_split(n + e);
        let spaces = input.take(n);
        proof {
            if e > 0 {
                assert(tail(input@, n as int)[e - 1] == '\n');
                assert(input@[n + e - 1] == '\n');
            }
        }
        Ok((rest, spaces.to_text()))
    } else {
        Err(LangParserError::from_ctx(&input, "Line is not blank").with_context("Blank Line"))
    }
}

/// What `any_line` yields: the characters of the current line before its
/// terminator, `"\n"` or `"\r\n"`, where the input sits at the start of a
/// line. The terminator is consumed and is no part of the line.
pub open spec fn spec_any_line(input: Span) -> Option<(Seq<char>, int)> {
    let s = input@;
    let n = line_len(s);
    if !input.spec_at_line_start() {
        None
    } else {
        Some((s.subrange(0, n), n + line_ending_len(tail(s, n))))
    }
}

/// Consumes one line with its terminator and yields its content. The input
/// must sit at the start of the line. At the end of the input it yields an
/// empty line and consumes nothing.
pub fn any_line<'a>(input: Span<'a>) -> (r: IResult<'a, String>)
    requires
        input.wf(),
    ensures
        parse_agrees(r, input, spec_any_line(input)),
        r matches Ok((rest, _)) ==> rest.at_boundary(),
{
    proof {
        assert(tail(input@, 0) =~= input@);
    }
    if !input.at_line_start() {
        return Err(
            LangParserError::from_ctx(&input, "Not at beginning of line").with_context(
                "Any Line",
            ),
        );
    }
    let n = input.line_len_at(0);
    let e = input.line_ending_at(n);
    let content = input.take(n);
    proof {
        lemma_line_len_stops(input@);
        if e > 0 {
            assert(tail(input@, n as int)[e - 1] == '\n');
            assert(input@[n + e - 1] == '\n');
        }
    }
    Ok((input.advance(n + e), content.to_text()))
}

/// What `non_blank_line` yields: as `any_line`, but nothing at the end of
/// the input or where the line is blank.
pub open spec fn spec_non_blank_line(input: Span) -> Option<(Seq<char>, int)> {
    if input@.len() == 0 || spec_blank_line(input) is Some {
        None
    } else {
        spec_any_line(input)
    }
}

/// A line that is not blank has content, so taking it makes progress.
pub proof fn lemma_non_blank_line_progress(input: Span)
    requires
        input.wf(),
        spec_non_blank_line(input) is Some,
    ensures
        spec_non_blank_line(input).unwrap().1 > 0,
        spec_non_blank_line(input).unwrap().0.len() > 0,
{
    let s = input@;
    let n = line_len(s);
    lemma_line_len_stops(s);
    lemma_tail_tail(s, 0, 0);
    if n == 0 {
        // the line is empty, so it begins with its terminator and is blank
        lemma_scan_len_unique(s, crate::parsers::scanning::while_space(), 0);
        assert(line_ending_len(tail(s, 0)) > 0);
        assert(false);
    }
}

/// Consumes one line that is not blank, with its terminator, and yields its
/// content.
pub fn non_blank_line<'a>(input: Span<'a>) -> (r: IResult<'a, String>)
    requires
        input.wf(),
    ensures
        parse_agrees(r, input, spec_non_blank_line(input)),
        r matches Ok((rest, _)) ==> rest.start > input.start && rest.at_boundary(),
{
    proof {
        if spec_non_blank_line(input) is Some {
            lemma_non_blank_line_progress(input);
        }
    }
    if input.is_empty() {
        return Err(
            LangParserError::from_ctx(&input, "End of input").with_context("Non Blank Line"),
        );
    }
    match blank_line(input) {
        Ok(_) => Err(
            LangParserError::from_ctx(&input, "Line is blank").with_context("Non Blank Line"),
        ),
        Err(_) => context("Non Blank Line", any_line(input)),
    }
}

/// What `take_line_until` takes: the characters of the current line before
/// the first place where one of `tags` begins.
pub open spec fn spec_take_line_until(s: Seq<char>, tags: Seq<Seq<char>>) -> Option<
    (int, int, int),
> {
    Some((0, line_until_len(s, tags), line_until_len(s, tags)))
}

/// As `spec_take_line_until`, but nothing where no character would be
/// taken.
pub open spec fn spec_take_line_until1(s: Seq<char>, tags: Seq<Seq<char>>) -> Option<
    (int, int, int),
> {
    if line_until_len(s, tags) > 0 {
        Some((0, line_until_len(s, tags), line_until_len(s, tags)))
    } else {
        None
    }
}

/// Takes the characters of the current line up to the first place where one
/// of `tags` begins. The line terminator is never taken.
pub fn take_line_until<'a>(input: Span<'a>, tags: &[&str]) -> (r: IResult<'a, Span<'a>>)
    requires
        input.wf(),
    ensures
        r is Ok,
        take_agrees(r, input, spec_take_line_until(input@, strs_view(tags@))),
{
    proof {
        assert(tail(input@, 0) =~= input@);
        input.lemma_skip(0);
    }
    let n = input.line_until_at(0, tags);
    let (rest, taken) = input.take_split(n);
    Ok((rest, taken))
}

/// As `take_line_until`, but fails where nothing would be taken.
pub fn take_line_until1<'a>(input: Span<'a>, tags: &[&str]) -> (r: IResult<'a, Span<'a>>)
    requires
        input.wf(),
    ensures
        take_agrees(r, input, spec_take_line_until1(input@, strs_view(tags@))),
{
    proof {
        assert(tail(input@, 0) =~= input@);
        input.lemma_skip(0);
    }
    let n = input.line_until_at(0, tags);
    if n == 0 {
        return Err(
            LangParserError::from_ctx(&input, "Nothing to take").with_context(
                "Take Line Until 1",
            ),
        );
    }
    let (rest, taken) = input.take_split(n);
    Ok((rest, taken))
}

/// Takes characters of the current line for as long as `pred` accepts the
/// input that is left. The line terminator is never taken. `pred` only
/// looks: each character taken is one on which it said yes.
pub fn take_line_while<'a, F: Fn(&Span<'a>) -> bool>(input: Span<'a>, pred: F) -> (r: IResult<
    'a,
    Span<'a>,
>)
    requires
        input.wf(),
        forall|s: Span<'a>| s.wf() ==> #[trigger] pred.requires((&s,)),
    ensures
        r matches Ok((rest, taken)) && ({
            let n = rest.start - input.start;
            &&& 0 <= n <= input.spec_len()
            &&& rest == input.skip(n)
            &&& taken == input.first(n)
            &&& rest.wf()
            &&& taken.wf()
            &&& forall|k: int|
                0 <= k < n ==> !at_end_of_line(#[trigger] input.skip(k)@) && pred.ensures(
                    (&input.skip(k),),
                    true,
                )
            &&& (at_end_of_line(rest@) || pred.ensures((&rest,), false))
        }),
{
    let mut cur = input;
    let mut n: usize = 0;
    let mut done = false;
    proof {
        input.lemma_skip(0);
    }
    while !done
        invariant
            input.wf(),
            cur.wf(),
            n <= input.spec_len(),
            cur == input.skip(n as int),
            forall|s: Span<'a>| s.wf() ==> #[trigger] pred.requires((&s,)),
            forall|k: int|
                0 <= k < n ==> !at_end_of_line(#[trigger] input.skip(k)@) && pred.ensures(
                    (&input.skip(k),),
                    true,
                ),
            done ==> at_end_of_line(cur@) || pred.ensures((&cur,), false),
        decreases input.spec_len() - n + (if done { 0int } else { 1int }),
    {
        proof {
            assert(tail(cur@, 0) =~= cur@);
            input.lemma_skip(n as int);
        }
        let ghost before = n;
        let ghost at = cur;
        let mut accepted = false;
        if !cur.end_of_line_at(0) {
            accepted = pred(&cur);
        }
        if accepted {
            proof {
                input.lemma_skip_skip(n as int, 1);
            }
            cur = cur.advance(1);
            n = n + 1;
        } else {
            done = true;
        }
        proof {
            assert forall|k: int| 0 <= k < n implies !at_end_of_line(#[trigger] input.skip(k)@)
                && pred.ensures((&input.skip(k),), true) by {
                if k == before {
                    assert(input.skip(k) == at);
                    assert(accepted);
                    assert(pred.ensures((&at,), true));
                    assert(!at_end_of_line(at@));
                } else {
                    assert(0 <= k < before);
                    assert(!at_end_of_line(input.skip(k)@));
                    assert(pred.ensures((&input.skip(k),), true));
                }
            }
        }
    }
    Ok((cur, input.take(n)))
}

/// As `take_line_while`, but fails where no character would be taken.
pub fn take_line_while1<'a, F: Fn(&Span<'a>) -> bool>(input: Span<'a>, pred: F) -> (r: IResult<
    'a,
    Span<'a>,
>)
    requires
        input.wf(),
        forall|s: Span<'a>| s.wf() ==> #[trigger] pred.requires((&s,)),
    ensures
        match r {
            Ok((rest, taken)) => {
                let n = rest.start - input.start;
                &&& 0 < n <= input.spec_len()
                &&& rest == input.skip(n)
                &&& taken == input.first(n)
                &&& rest.wf()
                &&& taken.wf()
                &&& forall|k: int|
                    0 <= k < n ==> !at_end_of_line(#[trigger] input.skip(k)@) && pred.ensures(
                        (&input.skip(k),),
                        true,
                    )
                &&& (at_end_of_line(rest@) || pred.ensures((&rest,), false))
            },
            Err(e) => {
                &&& e.kind == ErrorKind::Mismatch
                &&& e.met_at(input)
                &&& (at_end_of_line(input@) || pred.ensures((&input,), false))
            },
        },
{
    match take_line_while(input, pred) {
        Ok((rest, taken)) => {
            if rest.start_offset() == input.start_offset() {
                proof {
                    input.lemma_skip(0);
                }
                Err(
                    LangParserError::from_ctx(&input, "Nothing to take").with_context(
                        "Take Line While 1",
                    ),
                )
            } else {
                Ok((rest, taken))
            }
        },
        Err(e) => Err(e),
    }
}

/// Goes on while the line has not ended and `right` does not begin.
pub open spec fn while_no_right(right: Seq<char>) -> spec_fn(Seq<char>) -> bool {
    |t: Seq<char>| t[0] != '\n' && !right.is_prefix_of(t)
}

/// Where, in `s`, the content enclosed by a left side just consumed ends:
/// the first index, not 0, at which `right` stands, provided that the line
/// has not ended before or there.
pub open spec fn spec_surround_len(s: Seq<char>, right: Seq<char>) -> Option<int> {
    if s.len() == 0 || s[0] == '\n' {
        None
    } else {
        let q = 1 + scan_len(tail(s, 1), while_no_right(right));
        if q < s.len() && s[q] != '\n' && right.is_prefix_of(tail(s, q)) {
            Some(q)
        } else {
            None
        }
    }
}

/// What `surround_in_line1` takes: the content between `left`, which must
/// stand at the front, and the first `right` after at least one character of
/// content on the same line.
pub open spec fn spec_surround_in_line1(s: Seq<char>, left: Seq<char>, right: Seq<char>) -> Option<
    (int, int, int),
> {
    if !left.is_prefix_of(s) {
        None
    } else {
        match spec_surround_len(tail(s, left.len() as int), right) {
            Some(q) => Some((left.len() as int, q, left.len() + q + right.len())),
            None => None,
        }
    }
}

/// Takes what stands between `left` and `right` on the current line. Fails
/// where the input does not begin with `left`, or where no `right` follows
/// at least one character of content before the line ends.
pub fn surround_in_line1<'a>(input: Span<'a>, left: &str, right: &str) -> (r: IResult<
    'a,
    Span<'a>,
>)
    requires
        input.wf(),
        right@.len() > 0,
    ensures
        take_agrees(r, input, spec_surround_in_line1(input@, left@, right@)),
{
    if !input.starts_with(left) {
        return Err(
            LangParserError::from_ctx(&input, "left side not found").with_context(
                "Surround in Line",
            ),
        );
    }
    let l = left.unicode_len();
    let rl = right.unicode_len();
    let inner = input.advance(l);
    let len = inner.len();
    let ghost s = inner@;
    let ghost go = while_no_right(right@);
    proof {
        input.lemma_skip(l as int);
        assert(s == tail(input@, l as int));
    }
    if len == 0 || inner.get(0) == '\n' {
        return Err(
            LangParserError::from_ctx(&input, "end of line reached before right side").with_context(
                "Surround in Line",
            ),
        );
    }
    let mut k: usize = 1;
    let mut found = false;
    while k < len
        invariant_except_break
            !found,
        invariant
            inner.wf(),
            len == inner@.len(),
            s == inner@,
            1 <= k <= len,
            go == while_no_right(right@),
            forall|m: int| 0 <= m < k - 1 ==> go(#[trigger] tail(tail(s, 1), m)),
        ensures
            1 <= k <= len,
            forall|m: int| 0 <= m < k - 1 ==> go(#[trigger] tail(tail(s, 1), m)),
            found ==> k < len && s[k as int] != '\n' && right@.is_prefix_of(tail(s, k as int)),
            !found ==> (k == len || s[k as int] == '\n'),
        decreases len - k,
    {
        proof {
            lemma_tail_tail(s, 1, k - 1);
            assert(tail(s, k as int)[0] == s[k as int]);
        }
        if inner.get(k) == '\n' {
            break;
        }
        if inner.has_at(k, right) {
            found = true;
            break;
        }
        k += 1;
    }
    proof {
        if k < len {
            lemma_tail_tail(s, 1, k - 1);
            assert(tail(s, k as int)[0] == s[k as int]);
        }
        lemma_scan_len_unique(tail(s, 1), go, k - 1);
    }
    if found {
        let content = inner.take(k);
        proof {
            assert(right@.len() <= tail(s, k as int).len());
            input.lemma_skip_skip(l as int, k + rl);
        }
        let rest = inner.advance(k + rl);
        Ok((rest, content))
    } else {
        Err(
            LangParserError::from_ctx(&input, "right side not found").with_context(
                "Surround in Line",
            ),
        )
    }
}

/// What a parser may return on an input, as a relation.
pub open spec fn parser_relation<'a, T, P: Fn(Span<'a>) -> IResult<'a, T>>(parser: P) -> spec_fn(
    Span<'a>,
    IResult<'a, T>,
) -> bool {
    |s: Span<'a>, r: IResult<'a, T>| parser.ensures((s,), r)
}

/// Where a step function may leave the input, as a relation: at the start of
/// what it left, or nowhere if it failed.
pub open spec fn step_relation<'a, U, S: Fn(Span<'a>) -> IResult<'a, U>>(step: S) -> spec_fn(
    Span<'a>,
    Option<usize>,
) -> bool {
    |s: Span<'a>, o: Option<usize>|
        exists|r: IResult<'a, U>| #[trigger]
            step.ensures((s,), r) && o == (match r {
                Ok((rest, _)) => Some(rest.start),
                Err(_) => None,
            })
}

/// The step that passes one character and fails at the end of the input.
pub open spec fn char_step<'a>() -> spec_fn(Span<'a>, Option<usize>) -> bool {
    |s: Span<'a>, o: Option<usize>|
        o == (if s@.len() > 0 {
            Some((s.start + 1) as usize)
        } else {
            None::<usize>
        })
}

/// Whether moving from `cur` to the offset `to` consumes input of `cur`.
pub open spec fn advances(cur: Span, to: usize) -> bool {
    cur.start < to <= cur.end
}

/// `acc` followed by the items of `outcome`, if it has any.
pub open spec fn prepend<T>(acc: Seq<T>, outcome: Option<Seq<T>>) -> Option<Seq<T>> {
    match outcome {
        Some(items) => Some(acc + items),
        None => None,
    }
}

/// Whether a scan that starts at `cur` can end with `outcome`: `Some` of the
/// values that the parser yielded, in order, or `None` if a match or a step
/// did not advance.
///
/// At each position the parser is tried. If it matches, its value is
/// collected and the scan goes on where the match ended. If it does not,
/// the step is tried and the scan goes on where it ended; when the step
/// fails too, the scan is over.
pub open spec fn scan_run<'a, T>(
    parse: spec_fn(Span<'a>, IResult<'a, T>) -> bool,
    step: spec_fn(Span<'a>, Option<usize>) -> bool,
    cur: Span<'a>,
    outcome: Option<Seq<T>>,
) -> bool
    decreases cur.spec_len(),
{
    ||| exists|rest: Span<'a>, x: T| #[trigger]
        parse(cur, Ok((rest, x))) && (if advances(cur, rest.start) {
            match outcome {
                Some(items) => items.len() > 0 && items[0] == x && scan_run(
                    parse,
                    step,
                    cur.skip(rest.start - cur.start),
                    Some(items.drop_first()),
                ),
                None => scan_run(parse, step, cur.skip(rest.start - cur.start), None),
            }
        } else {
            outcome is None
        })
    ||| exists|e: LangParserError, o: Option<usize>| #[trigger]
        parse(cur, Err(e)) && #[trigger] step(cur, o) && (match o {
            Some(to) => if advances(cur, to) {
                scan_run(parse, step, cur.skip(to - cur.start), outcome)
            } else {
                outcome is None
            },
            None => outcome == Some(Seq::<T>::empty()),
        })
}

/// Applies `parser` across the whole input and collects the values of its
/// matches; the input itself is handed back unconsumed. After a match the
/// scan goes on where the match ended; elsewhere it moves on by `step`, and
/// ends when `step` fails. A match or a step that does not advance stops
/// the scan with a `NoProgress` error, since repeating it would never end.
pub fn scan_with_step<'a, T, U, P, S>(input: Span<'a>, parser: P, step: S) -> (r: IResult<
    'a,
    Vec<T>,
>) where P: Fn(Span<'a>) -> IResult<'a, T>, S: Fn(Span<'a>) -> IResult<'a, U>
    requires
        input.wf(),
        forall|s: Span<'a>| s.wf() ==> #[trigger] parser.requires((s,)),
        forall|s: Span<'a>| s.wf() ==> #[trigger] step.requires((s,)),
    ensures
        match r {
            Ok((rest, out)) => rest == input && scan_run(
                parser_relation(parser),
                step_relation(step),
                input,
                Some(out@),
            ),
            Err(e) => e.kind == ErrorKind::NoProgress && scan_run(
                parser_relation(parser),
                step_relation(step),
                input,
                None::<Seq<T>>,
            ),
        },
{
    let ghost parse = parser_relation(parser);
    let ghost steps = step_relation(step);
    let mut out: Vec<T> = Vec::new();
    let mut cur = input;
    // 0: scanning, 1: finished, 2: stalled
    let mut state: u8 = 0;
    proof {
        assert(out@ + Seq::<T>::empty() =~= Seq::<T>::empty());
        assert forall|o: Option<Seq<T>>| #[trigger]
            scan_run(parse, steps, cur, o) implies scan_run(parse, steps, input, prepend(out@, o)) by {
            if o is Some {
                assert(out@ + o->0 =~= o->0);
            }
        }
    }
    while state == 0
        invariant
            input.wf(),
            cur.wf(),
            state <= 2,
            parse == parser_relation(parser),
            steps == step_relation(step),
            forall|s: Span<'a>| s.wf() ==> #[trigger] parser.requires((s,)),
            forall|s: Span<'a>| s.wf() ==> #[trigger] step.requires((s,)),
            forall|o: Option<Seq<T>>| #[trigger]
                scan_run(parse, steps, cur, o) ==> scan_run(parse, steps, input, prepend(out@, o)),
            state == 1 ==> scan_run(parse, steps, input, Some(out@)),
            state == 2 ==> scan_run(parse, steps, input, None::<Seq<T>>),
        decreases cur.spec_len() + (if state == 0 { 1int } else { 0int }),
    {
        let ghost acc = out@;
        let attempt = parser(cur);
        match attempt {
            Ok((rest, item)) => {
                let to = rest.start_offset();
                assert(parse(cur, Ok((rest, item))));
                if cur.start_offset() < to && to <= cur.end_offset() {
                    let next = cur.advance(to - cur.start_offset());
                    out.push(item);
                    proof {
                        assert forall|o: Option<Seq<T>>| #[trigger]
                            scan_run(parse, steps, next, o) implies scan_run(
                            parse,
                            steps,
                            input,
                            prepend(out@, o),
                        ) by {
                            let here = prepend(seq![item], o);
                            if o is Some {
                                assert((seq![item] + o->0).drop_first() =~= o->0);
                                assert(acc + (seq![item] + o->0) =~= out@ + o->0);
                            }
                            assert(scan_run(parse, steps, cur, here));
                        }
                    }
                    cur = next;
                } else {
                    assert(scan_run(parse, steps, cur, None::<Seq<T>>));
                    state = 2;
                }
            },
            Err(e) => {
                assert(parse(cur, Err(e)));
                let moved = step(cur);
                match moved {
                    Ok((rest, _)) => {
                        let to = rest.start_offset();
                        assert(steps(cur, Some(to)));
                        if cur.start_offset() < to && to <= cur.end_offset() {
                            let next = cur.advance(to - cur.start_offset());
                            proof {
                                assert forall|o: Option<Seq<T>>| #[trigger]
                                    scan_run(parse, steps, next, o) implies scan_run(
                                    parse,
                                    steps,
                                    input,
                                    prepend(out@, o),
                                ) by {
                                    assert(scan_run(parse, steps, cur, o));
                                }
                            }
                            cur = next;
                        } else {
                            assert(scan_run(parse, steps, cur, None::<Seq<T>>));
                            state = 2;
                        }
                    },
                    Err(_) => {
                        assert(steps(cur, None::<usize>));
                        assert(scan_run(parse, steps, cur, Some(Seq::<T>::empty())));
                        assert(out@ + Seq::<T>::empty() =~= out@);
                        state = 1;
                    },
                }
            },
        }
    }
    if state == 1 {
        Ok((input, out))
    } else {
        Err(
            LangParserError::of_kind(
                ErrorKind::NoProgress,
                &cur,
                "scan detected infinite loop",
            ),
        )
    }
}

/// As `scan_with_step`, moving on by one character where `parser` does not
/// match.
pub fn scan<'a, T, P>(input: Span<'a>, parser: P) -> (r: IResult<'a, Vec<T>>) where
    P: Fn(Span<'a>) -> IResult<'a, T>,

    requires
        input.wf(),
        forall|s: Span<'a>| s.wf() ==> #[trigger] parser.requires((s,)),
    ensures
        match r {
            Ok((rest, out)) => rest == input && scan_run(
                parser_relation(parser),
                char_step(),
                input,
                Some(out@),
            ),
            Err(e) => e.kind == ErrorKind::NoProgress && scan_run(
                parser_relation(parser),
                char_step(),
                input,
                None::<Seq<T>>,
            ),
        },
{
    let ghost parse = parser_relation(parser);
    let ghost steps = char_step();
    let mut out: Vec<T> = Vec::new();
    let mut cur = input;
    // 0: scanning, 1: finished, 2: stalled
    let mut state: u8 = 0;
    proof {
        assert forall|o: Option<Seq<T>>| #[trigger]
            scan_run(parse, steps, cur, o) implies scan_run(parse, steps, input, prepend(out@, o)) by {
            if o is Some {
                assert(out@ + o->0 =~= o->0);
            }
        }
    }
    while state == 0
        invariant
            input.wf(),
            cur.wf(),
            state <= 2,
            parse == parser_relation(parser),
            steps == char_step::<'a>(),
            forall|s: Span<'a>| s.wf() ==> #[trigger] parser.requires((s,)),
            forall|o: Option<Seq<T>>| #[trigger]
                scan_run(parse, steps, cur, o) ==> scan_run(parse, steps, input, prepend(out@, o)),
            state == 1 ==> scan_run(parse, steps, input, Some(out@)),
            state == 2 ==> scan_run(parse, steps, input, None::<Seq<T>>),
        decreases cur.spec_len() + (if state == 0 { 1int } else { 0int }),
    {
        let ghost acc = out@;
        let attempt = parser(cur);
        match attempt {
            Ok((rest, item)) => {
                let to = rest.start_offset();
                assert(parse(cur, Ok((rest, item))));
                if cur.start_offset() < to && to <= cur.end_offset() {
                    let next = cur.advance(to - cur.start_offset());
                    out.push(item);
                    proof {
                        assert forall|o: Option<Seq<T>>| #[trigger]
                            scan_run(parse, steps, next, o) implies scan_run(
                            parse,
                            steps,
                            input,
                            prepend(out@, o),
                        ) by {
                            let here = prepend(seq![item], o);
                            if o is Some {
                                assert((seq![item] + o->0).drop_first() =~= o->0);
                                assert(acc + (seq![item] + o->0) =~= out@ + o->0);
                            }
                            assert(scan_run(parse, steps, cur, here));
                        }
                    }
                    cur = next;
                } else {
                    assert(scan_run(parse, steps, cur, None::<Seq<T>>));
                    state = 2;
                }
            },
            Err(e) => {
                assert(parse(cur, Err(e)));
                if cur.is_empty() {
                    assert(steps(cur, None::<usize>));
                    assert(scan_run(parse, steps, cur, Some(Seq::<T>::empty())));
                    assert(out@ + Seq::<T>::empty() =~= out@);
                    state = 1;
                } else {
                    let next = cur.advance(1);
                    proof {
                        let to = (cur.start + 1) as usize;
                        assert(steps(cur, Some(to)));
                        assert forall|o: Option<Seq<T>>| #[trigger]
                            scan_run(parse, steps, next, o) implies scan_run(
                            parse,
                            steps,
                            input,
                            prepend(out@, o),
                        ) by {
                            assert(scan_run(parse, steps, cur, o));
                        }
                    }
                    cur = next;
                }
            },
        }
    }
    if state == 1 {
        Ok((input, out))
    } else {
        Err(
            LangParserError::of_kind(
                ErrorKind::NoProgress,
                &cur,
                "scan detected infinite loop",
            ),
        )
    }
}

/// Length of what begins a URI at the front of `s`: `www.`, `//`, or a
/// scheme, which may be empty, with its `:`.
pub open spec fn spec_uri_prefix_len(s: Seq<char>) -> Option<int> {
    if "www."@.is_prefix_of(s) {
        Some("www."@.len() as int)
    } else if "//"@.is_prefix_of(s) {
        Some("//"@.len() as int)
    } else {
        let n = scan_len(s, while_scheme());
        if n < s.len() && s[n] == ':' {
            Some(n + 1)
        } else {
            None
        }
    }
}

/// Length of the URI at the front of `s`: what begins it, and at least one
/// character more, up to the next whitespace.
pub open spec fn spec_uri_len(s: Seq<char>) -> Option<int> {
    match spec_uri_prefix_len(s) {
        Some(p) => {
            let b = scan_len(tail(s, p), while_not_blank());
            if b > 0 {
                Some(p + b)
            } else {
                None
            }
        },
        None => None,
    }
}

/// The text to read as a URI in place of `text`: `www.` stands for a host
/// reached by `https`, and `//` for an absolute path of a file.
pub open spec fn spec_uri_text(text: Seq<char>) -> Seq<char> {
    if "www."@.is_prefix_of(text) {
        "https://"@ + text
    } else if "//"@.is_prefix_of(text) {
        "file:/"@ + text
    } else {
        text
    }
}

/// What `uri` yields: the URI that the text up to the next whitespace
/// spells.
pub open spec fn spec_uri(s: Seq<char>) -> Option<(UriView, int)> {
    match spec_uri_len(s) {
        Some(n) => match parsed_uri(spec_uri_text(s.subrange(0, n))) {
            Some(u) => Some((u, n)),
            None => None,
        },
        None => None,
    }
}

/// Parses a URI: a scheme with its `:`, or `www.`, or `//`, and what follows
/// up to the next whitespace, which must be at least one character.
pub fn uri<'a>(input: Span<'a>) -> (r: IResult<'a, Uri>)
    requires
        input.wf(),
    ensures
        parse_agrees(r, input, spec_uri(input@)),
        r matches Ok((rest, _)) ==> rest.start > input.start,
{
    proof {
        assert(tail(input@, 0) =~= input@);
    }
    let p: usize = if input.starts_with("www.") {
        "www.".unicode_len()
    } else if input.starts_with("//") {
        "//".unicode_len()
    } else {
        let n = input.scheme_len_at(0);
        if n < input.len() && input.get(n) == ':' {
            n + 1
        } else {
            return Err(LangParserError::from_ctx(&input, "No scheme").with_context("URI"));
        }
    };
    let b = input.non_blank_len_at(p);
    if b == 0 {
        return Err(LangParserError::from_ctx(&input, "Nothing after scheme").with_context("URI"));
    }
    let taken = input.take(p + b);
    let text = taken.to_text();
    let adjusted: String = if taken.starts_with("www.") {
        let mut t = "https://".to_owned();
        t.append(text.as_str());
        t
    } else if taken.starts_with("//") {
        let mut t = "file:/".to_owned();
        t.append(text.as_str());
        t
    } else {
        text
    };
    match Uri::parse(adjusted.as_str()) {
        Some(u) => Ok((input.advance(p + b), u)),
        None => Err(LangParserError::from_ctx(&input, "Not a URI").with_context("URI")),
    }
}

/// The value of a parse with the region that the parse consumed.
pub open spec fn spec_located<V>(input: Span, r: Option<(V, int)>) -> Option<(Located<V>, int)> {
    match r {
        Some((v, n)) => Some((Located { value: v, region: input.region_of(n) }, n)),
        None => None,
    }
}

/// `rest` is `input` after `n` characters were consumed.
pub open spec fn stepped(input: Span, rest: Span, n: int) -> bool {
    &&& rest.wf()
    &&& input.leads_to(rest)
    &&& rest.start - input.start == n
    &&& rest@ == tail(input@, n)
}

/// Passes the spaces and tabs at the front of the input.
pub fn skip_spaces<'a>(input: Span<'a>) -> (rest: Span<'a>)
    requires
        input.wf(),
    ensures
        stepped(input, rest, leading_spaces(input@)),
{
    proof {
        assert(tail(input@, 0) =~= input@);
    }
    let n = input.spaces_at(0);
    input.advance(n)
}

/// Passes `text`, if it stands at the front of the input.
pub fn skip_tag<'a>(input: Span<'a>, text: &str) -> (r: Option<Span<'a>>)
    requires
        input.wf(),
    ensures
        match r {
            Some(rest) => text@.is_prefix_of(input@) && stepped(input, rest, text@.len() as int),
            None => !text@.is_prefix_of(input@),
        },
{
    if input.starts_with(text) {
        Some(input.advance(text.unicode_len()))
    } else {
        None
    }
}

/// Passes the line terminator at the front of the input, or nothing at the
/// end of the input.
pub fn skip_eol<'a>(input: Span<'a>) -> (r: Option<Span<'a>>)
    requires
        input.wf(),
    ensures
        match r {
            Some(rest) => at_end_of_line(input@) && stepped(
                input,
                rest,
                line_ending_len(input@),
            ) && rest.at_boundary(),
            None => !at_end_of_line(input@),
        },
{
    proof {
        assert(tail(input@, 0) =~= input@);
    }
    if input.is_empty() {
        Some(input.advance(0))
    } else {
        let n = input.line_ending_at(0);
        if n > 0 {
            Some(input.advance(n))
        } else {
            None
        }
    }
}

/// Takes the characters of the current line before the first place where
/// one of `tags` begins.
pub fn take_until<'a>(input: Span<'a>, tags: &[&str]) -> (r: (Span<'a>, Span<'a>))
    requires
        input.wf(),
    ensures
        stepped(input, r.0, line_until_len(input@, strs_view(tags@))),
        r.1.wf(),
        r.1@ == input@.subrange(0, line_until_len(input@, strs_view(tags@))),
        r.1 == input.first(line_until_len(input@, strs_view(tags@))),
{
    proof {
        assert(tail(input@, 0) =~= input@);
    }
    let n = input.line_until_at(0, tags);
    input.take_split(n)
}

/// Takes the characters of the current line, up to its terminator.
pub fn take_line<'a>(input: Span<'a>) -> (r: (Span<'a>, Span<'a>))
    requires
        input.wf(),
    ensures
        stepped(input, r.0, line_len(input@)),
        r.1.wf(),
        r.1@ == input@.subrange(0, line_len(input@)),
        r.1 == input.first(line_len(input@)),
{
    proof {
        assert(tail(input@, 0) =~= input@);
    }
    let n = input.line_len_at(0);
    input.take_split(n)
}

/// Whether a text has a character other than a space, a tab or a carriage
/// return.
pub open spec fn has_content(s: Seq<char>) -> bool {
    exists|i: int| 0 <= i < s.len() && !is_blank_char(#[trigger] s[i])
}

/// A space, a tab or a carriage return.
pub open spec fn is_blank_char(c: char) -> bool {
    c == ' ' || c == '\t' || c == '\r'
}

/// Tells whether the input has a character other than a space, a tab or a
/// carriage return.
pub fn span_has_content<'a>(input: &Span<'a>) -> (r: bool)
    requires
        input.wf(),
    ensures
        r == has_content(input@),
{
    let mut i: usize = 0;
    while i < input.len()
        invariant
            input.wf(),
            i <= input@.len(),
            forall|k: int| 0 <= k < i ==> is_blank_char(#[trigger] input@[k]),
        decreases input@.len() - i,
    {
        let c = input.get(i);
        if !(c == ' ' || c == '\t' || c == '\r') {
            return true;
        }
        i += 1;
    }
    false
}

} // verus!
