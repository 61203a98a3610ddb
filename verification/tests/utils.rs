use vimwiki::error::{ErrorKind, LangParserError};
use vimwiki::parsers::utils::{
    any_line, beginning_of_line, blank_line, context, count_trailing_whitespace,
    end_of_line_or_input, le, non_blank_line, pstring, range, scan, scan_with_step,
    single_multispace, surround_in_line1, take_end, take_line_until, take_line_until1,
    take_line_while, take_line_while1, take_until_byte, take_until_byte1,
    take_until_end_of_line_or_input, trim_trailing_whitespace, trim_whitespace, unwrap_le, uri,
    IResult,
};
use vimwiki::span::Span;
use vimwiki::text::to_chars;

fn any_char<'a>(s: &Span<'a>) -> bool {
    s.peek().is_some()
}

fn is_char<'a>(c: char) -> impl Fn(&Span<'a>) -> bool {
    move |s: &Span<'a>| s.starts_with_char(c)
}

fn char_parser<'a>(c: char) -> impl Fn(Span<'a>) -> IResult<'a, char> {
    move |s: Span<'a>| {
        if s.starts_with_char(c) {
            Ok((s.advance(1), c))
        } else {
            Err(LangParserError::from_ctx(&s, "char"))
        }
    }
}

fn not_char_parser<'a>(c: char) -> impl Fn(Span<'a>) -> IResult<'a, ()> {
    move |s: Span<'a>| {
        if s.starts_with_char(c) {
            Err(LangParserError::from_ctx(&s, "not char"))
        } else {
            Ok((s, ()))
        }
    }
}

fn take<'a>(n: usize) -> impl Fn(Span<'a>) -> IResult<'a, Span<'a>> {
    move |s: Span<'a>| {
        if s.len() >= n {
            let (rest, taken) = s.take_split(n);
            Ok((rest, taken))
        } else {
            Err(LangParserError::from_ctx(&s, "take"))
        }
    }
}

#[test]
fn end_of_line_or_input_should_succeed_if_line_ending() {
    let a = to_chars("\n");
    assert!(end_of_line_or_input(Span::new(&a)).is_ok());
    let b = to_chars("\r\n");
    assert!(end_of_line_or_input(Span::new(&b)).is_ok());
}

#[test]
fn end_of_line_or_input_should_succeed_if_input_empty() {
    let a = to_chars("");
    assert!(end_of_line_or_input(Span::new(&a)).is_ok());
}

#[test]
fn beginning_of_line_should_fail_if_not_at_beginning_of_line() {
    let src = to_chars("1234");
    let input = Span::new(&src);
    let input = input.advance(1);
    assert!(beginning_of_line(input).is_err());
}

#[test]
fn beginning_of_line_should_succeed_if_at_beginning_of_first_line() {
    let src = to_chars("1234");
    let input = Span::new(&src);
    let (input, _) =
        beginning_of_line(input).expect("Unexpectedly think not at beginning of line");

    // Input shouldn't be consumed
    assert_eq!(input.to_text(), "1234");
}

#[test]
fn beginning_of_line_should_succeed_if_at_beginning_of_any_line() {
    let src = to_chars("abc\n1234");
    let input = Span::new(&src);
    let input = input.advance(4);
    let (input, _) =
        beginning_of_line(input).expect("Unexpectedly think not at beginning of line");

    // Input shouldn't be consumed
    assert_eq!(input.to_text(), "1234");
}

#[test]
fn blank_line_should_fail_if_line_contains_non_whitespace() {
    let src = to_chars("1234");
    assert!(blank_line(Span::new(&src)).is_err());
}

#[test]
fn blank_line_should_fail_if_input_empty_and_at_beginning_of_line() {
    let src = to_chars("");
    assert!(blank_line(Span::new(&src)).is_err());
}

#[test]
fn blank_line_should_succeed_if_has_whitespace_but_no_line_termination() {
    let src = to_chars(" ");
    let (input, s) = blank_line(Span::new(&src)).expect("Failed to parse blank line");
    assert!(input.is_empty(), "Did not consume blank line");
    assert_eq!(s, " ");
}

#[test]
fn blank_line_should_succeed_if_line_empty() {
    let src = to_chars("\nabcd");
    let (input, _) = blank_line(Span::new(&src)).expect("Failed to parse blank line");

    // Line including termination should be consumed
    assert_eq!(input.to_text(), "abcd");
}

#[test]
fn blank_line_should_succeed_if_line_only_has_whitespace() {
    let src = to_chars(" \t\nabcd");
    let (input, _) = blank_line(Span::new(&src)).expect("Failed to parse blank line");

    // Line including termination should be consumed
    assert_eq!(input.to_text(), "abcd");
}

#[test]
fn blank_line_should_succeed_if_on_last_line_and_only_whitespace() {
    let src = to_chars(" \t");
    let (input, _) = blank_line(Span::new(&src)).expect("Failed to parse blank line");

    // Line including termination should be consumed
    assert_eq!(input.to_text(), "");
}

#[test]
fn any_line_should_fail_if_not_at_beginning_of_line() {
    let src = to_chars("abc");
    let input = Span::new(&src).advance(1);
    assert!(any_line(input).is_err());
}

#[test]
fn any_line_should_return_empty_if_nothing_in_line() {
    let src = to_chars("\nabcd");
    let (input, content) = any_line(Span::new(&src)).expect("Failed to parse any line");
    assert_eq!(input.to_text(), "abcd");
    assert!(content.is_empty());
}

#[test]
fn any_line_should_return_all_content_update_to_newline() {
    let src = to_chars("test\nabcd");
    let (input, line) = any_line(Span::new(&src)).expect("Failed to parse any line");
    assert_eq!(input.to_text(), "abcd");
    assert_eq!(line, "test");
}

#[test]
fn any_line_should_return_all_content_remaining_if_no_more_newline() {
    let src = to_chars("test");
    let (input, line) = any_line(Span::new(&src)).expect("Failed to parse any line");
    assert_eq!(input.to_text(), "");
    assert_eq!(line, "test");
}

#[test]
fn single_multispace_should_fail_if_input_empty() {
    let src = to_chars("");
    assert!(single_multispace(Span::new(&src)).is_err());
}

#[test]
fn single_multispace_should_fail_if_not_multispace_character() {
    let src = to_chars("a");
    assert!(single_multispace(Span::new(&src)).is_err());
}

#[test]
fn single_multispace_should_succeed_if_tab() {
    let src = to_chars("\t abc");
    let (input, _) = single_multispace(Span::new(&src)).unwrap();
    assert_eq!(input.to_text(), " abc");
}

#[test]
fn single_multispace_should_succeed_if_space() {
    let src = to_chars("  abc");
    let (input, _) = single_multispace(Span::new(&src)).unwrap();
    assert_eq!(input.to_text(), " abc");
}

#[test]
fn single_multispace_should_succeed_if_crlf() {
    let src = to_chars("\r\n abc");
    let (input, _) = single_multispace(Span::new(&src)).unwrap();
    assert_eq!(input.to_text(), " abc");
}

#[test]
fn single_multispace_should_succeed_if_newline() {
    let src = to_chars("\n abc");
    let (input, _) = single_multispace(Span::new(&src)).unwrap();
    assert_eq!(input.to_text(), " abc");
}

#[test]
fn uri_should_fail_if_input_empty() {
    let src = to_chars("");
    assert!(uri(Span::new(&src)).is_err());
}

#[test]
fn uri_should_fail_if_no_scheme_and_not_www_or_absolute_path() {
    let src = to_chars("example.com");
    assert!(uri(Span::new(&src)).is_err());
}

#[test]
fn uri_should_succeed_if_starts_with_www_and_will_add_https_as_scheme() {
    let src = to_chars("www.example.com");
    let (input, u) = uri(Span::new(&src)).expect("Failed to parse uri");
    assert!(input.is_empty());
    assert_eq!(u.scheme(), "https");
    assert_eq!(u.host().unwrap().to_string(), "www.example.com");
}

#[test]
fn uri_should_succeed_if_starts_with_absolute_path_and_will_add_file_as_scheme() {
    let src = to_chars("//some/absolute/path");
    let (input, u) = uri(Span::new(&src)).expect("Failed to parse uri");
    assert!(input.is_empty());
    assert_eq!(u.scheme(), "file");
    assert_eq!(u.path(), "/some/absolute/path");
}

#[test]
fn uri_should_succeed_if_starts_with_scheme() {
    let src = to_chars("https://github.com/vimwiki/vimwiki.git");
    let (input, u) = uri(Span::new(&src)).expect("Failed to parse uri");
    assert!(input.is_empty());
    assert_eq!(u.scheme(), "https");
    assert_eq!(u.host().unwrap().to_string(), "github.com");
    assert_eq!(u.path(), "/vimwiki/vimwiki.git");

    let src = to_chars("mailto:habamax@gmail.com");
    let (input, u) = uri(Span::new(&src)).expect("Failed to parse uri");
    assert!(input.is_empty());
    assert_eq!(u.scheme(), "mailto");
    assert_eq!(u.path(), "habamax@gmail.com");

    let src = to_chars("ftp://vim.org");
    let (input, u) = uri(Span::new(&src)).expect("Failed to parse uri");
    assert!(input.is_empty());
    assert_eq!(u.scheme(), "ftp");
    assert_eq!(u.host().unwrap().to_string(), "vim.org");
}

#[test]
fn take_line_while_should_yield_empty_if_empty_input() {
    let src = to_chars("");
    let (_, taken) = take_line_while(Span::new(&src), any_char).unwrap();
    assert_eq!(taken.to_text(), "");
}

#[test]
fn take_line_while_should_yield_empty_if_line_termination_next() {
    let src = to_chars("\nabcd");
    let (input, taken) = take_line_while(Span::new(&src), any_char).unwrap();
    assert_eq!(input.to_text(), "\nabcd");
    assert_eq!(taken.to_text(), "");

    let src = to_chars("\r\nabcd");
    let (input, taken) = take_line_while(Span::new(&src), any_char).unwrap();
    assert_eq!(input.to_text(), "\r\nabcd");
    assert_eq!(taken.to_text(), "");
}

#[test]
fn take_line_while_should_yield_empty_if_stops_without_ever_succeeding() {
    let src = to_chars("aabb\nabcd");
    let (input, taken) = take_line_while(Span::new(&src), is_char('c')).unwrap();
    assert_eq!(input.to_text(), "aabb\nabcd");
    assert_eq!(taken.to_text(), "");
}

#[test]
fn take_line_while_should_take_until_provided_parser_fails() {
    let src = to_chars("aabb\nabcd");
    let (input, taken) = take_line_while(Span::new(&src), is_char('a')).unwrap();
    assert_eq!(input.to_text(), "bb\nabcd");
    assert_eq!(taken.to_text(), "aa");
}

#[test]
fn take_line_while_should_take_until_line_termination_reached() {
    let src = to_chars("aabb\nabcd");
    let (input, taken) = take_line_while(Span::new(&src), any_char).unwrap();
    assert_eq!(input.to_text(), "\nabcd");
    assert_eq!(taken.to_text(), "aabb");
}

#[test]
fn take_line_while_should_count_condition_parser_towards_consumption() {
    // An odd number of characters, so that taking two characters for each
    // one that the condition accepts would show
    let src = to_chars("-----");
    let (input, taken) = take_line_while(Span::new(&src), is_char('-')).unwrap();
    assert_eq!(input.to_text(), "");
    assert_eq!(taken.to_text(), "-----");
}

#[test]
fn take_line_while1_should_fail_if_empty_input() {
    let src = to_chars("");
    assert!(take_line_while1(Span::new(&src), any_char).is_err());
}

#[test]
fn take_line_while1_should_fail_if_line_termination_next() {
    let src = to_chars("\nabcd");
    assert!(take_line_while1(Span::new(&src), any_char).is_err());

    let src = to_chars("\r\nabcd");
    assert!(take_line_while1(Span::new(&src), any_char).is_err());
}

#[test]
fn take_line_while1_should_fail_if_stops_without_ever_succeeding() {
    let src = to_chars("aabb\nabcd");
    assert!(take_line_while1(Span::new(&src), is_char('c')).is_err());
}

#[test]
fn take_line_while1_should_take_until_provided_parser_fails() {
    let src = to_chars("aabb\nabcd");
    let (input, taken) = take_line_while1(Span::new(&src), is_char('a')).unwrap();
    assert_eq!(input.to_text(), "bb\nabcd");
    assert_eq!(taken.to_text(), "aa");
}

#[test]
fn take_line_while1_should_take_until_line_termination_reached() {
    let src = to_chars("aabb\nabcd");
    let (input, taken) = take_line_while1(Span::new(&src), any_char).unwrap();
    assert_eq!(input.to_text(), "\nabcd");
    assert_eq!(taken.to_text(), "aabb");
}

#[test]
fn take_line_while1_should_count_condition_parser_towards_consumption() {
    let src = to_chars("-----");
    let (input, taken) = take_line_while1(Span::new(&src), is_char('-')).unwrap();
    assert_eq!(input.to_text(), "");
    assert_eq!(taken.to_text(), "-----");
}

#[test]
fn scan_should_fail_if_no_advancement_is_made_with_parser() {
    let src = to_chars("aaa");
    let r = scan(Span::new(&src), not_char_parser('b'));
    assert!(r.is_err());
    assert_eq!(r.unwrap_err().kind, ErrorKind::NoProgress);
}

#[test]
fn scan_should_yield_an_empty_vec_if_input_empty() {
    let src = to_chars("");
    let (_, results) = scan(Span::new(&src), char_parser('a')).unwrap();
    assert!(results.is_empty(), "Unexpectedly found parser results");
}

#[test]
fn scan_should_consume_all_input() {
    // The scan looks at all of the input and hands it back as it was given
    let src = to_chars("abc");
    let (input, results) = scan(Span::new(&src), char_parser('c')).unwrap();
    assert_eq!(results, vec!['c'], "scan did not reach the end of the input");
    assert_eq!(input.to_text(), "abc");
    assert_eq!(input.start_offset(), 0);
}

#[test]
fn scan_should_yield_an_empty_vec_if_parser_never_succeeds() {
    let src = to_chars("bbb");
    let (input, results) = scan(Span::new(&src), char_parser('a')).unwrap();
    assert_eq!(input.to_text(), "bbb");
    assert!(results.is_empty(), "Unexpectedly found results");
}

#[test]
fn scan_should_yield_a_vec_containing_all_of_parser_successes() {
    let src = to_chars("aba");
    let (input, results) = scan(Span::new(&src), char_parser('a')).unwrap();
    assert_eq!(input.to_text(), "aba");
    assert_eq!(results, vec!['a', 'a']);
}

#[test]
fn range_should_include_the_starting_and_ending_offset_of_consumed_parser() {
    let src = to_chars("aba");
    let input = Span::new(&src);
    let (input, (r, results)) = range(&input, take(2)(input)).unwrap();
    assert_eq!(input.to_text(), "a", "offset did not consume expected input");
    assert_eq!(r.start, 0, "Start was wrong position");
    assert_eq!(r.end, 2, "End was wrong position");
    assert_eq!(results.to_text(), "ab", "Parser did not function properly");
}

#[test]
fn scan_with_step_moves_on_by_the_step() {
    // with a step of two characters, the match at offset 1 is passed over
    let src = to_chars("babba");
    let input = Span::new(&src);
    let (rest, results) =
        scan_with_step(input, range_of(char_parser('a')), take(2)).unwrap();
    assert_eq!(rest.start_offset(), 0);
    assert_eq!(results, vec![4]);
}

fn range_of<'a>(
    p: impl Fn(Span<'a>) -> IResult<'a, char>,
) -> impl Fn(Span<'a>) -> IResult<'a, usize> {
    move |s: Span<'a>| match p(s) {
        Ok((rest, _)) => Ok((rest, s.start_offset())),
        Err(e) => Err(e),
    }
}

#[test]
fn scan_with_step_fails_if_the_step_makes_no_progress() {
    let src = to_chars("bbb");
    let r = scan_with_step(Span::new(&src), char_parser('a'), not_char_parser('a'));
    assert_eq!(r.unwrap_err().kind, ErrorKind::NoProgress);
}

#[test]
fn context_adds_a_label_to_a_failure_only() {
    let src = to_chars("abc");
    let input = Span::new(&src);
    let ok: Result<u8, LangParserError> = context("Label", Ok(7));
    assert_eq!(ok.unwrap(), 7);
    let err: Result<u8, LangParserError> =
        context("Outer", context("Inner", Err(LangParserError::from_ctx(&input.advance(2), "m"))));
    let e = err.unwrap_err();
    assert_eq!(e.kind, ErrorKind::Mismatch);
    assert_eq!(e.contexts, vec!["Inner", "Outer"]);
    assert_eq!((e.offset, e.line, e.column), (2, 1, 3));
    assert_eq!(e.message(), "m");
}

#[test]
fn le_gives_the_region_consumed() {
    let src = to_chars("ab\ncd\nef");
    let input = Span::new(&src).advance(1);
    let (rest, located) = le(&input, take(5)(input)).unwrap();
    assert_eq!(rest.to_text(), "ef");
    let r = located.region();
    assert_eq!((r.offset, r.len), (1, 5));
    assert_eq!((r.start_line, r.start_col), (1, 2));
    // the last character consumed is the second line terminator
    assert_eq!((r.end_line, r.end_col), (2, 3));
    assert_eq!(located.into_inner().to_text(), "b\ncd\n");

    // a parser that consumes nothing gives an empty region at its place
    let (_, nothing) = le(&input, take(0)(input)).unwrap();
    let r = nothing.region();
    assert_eq!((r.offset, r.len), (1, 0));
    assert_eq!((r.start_line, r.start_col, r.end_line, r.end_col), (1, 2, 1, 2));

    let (rest, inner) = unwrap_le(le(&input, take(1)(input))).unwrap();
    assert_eq!(rest.start_offset(), 2);
    assert_eq!(inner.to_text(), "b");
    let e = unwrap_le(le(&input, take(50)(input))).unwrap_err();
    assert_eq!(e.contexts, vec!["LE", "LE Unwrap"]);
}

#[test]
fn span_tracks_lines_and_columns_across_terminators() {
    let src = to_chars("ab\r\ncd\n\nx");
    let input = Span::new(&src);
    assert_eq!((input.line(), input.column()), (1, 1));
    let s = input.advance(3);
    // on the line feed of the first terminator
    assert_eq!((s.line(), s.column(), s.consumed_len()), (1, 4, 3));
    let s = input.advance(4);
    assert_eq!((s.line(), s.column()), (2, 1));
    let s = input.advance(7);
    assert_eq!((s.line(), s.column()), (3, 1));
    let s = input.advance(8);
    assert_eq!((s.line(), s.column()), (4, 1));
    assert_eq!(s.to_text(), "x");
    assert_eq!(s.consumed_text(), "ab\r\ncd\n\n");
    assert!(s.at_line_start());
    assert!(!input.advance(1).at_line_start());
}

#[test]
fn pstring_gives_the_text_taken() {
    let src = to_chars("héllo wörld");
    let input = Span::new(&src);
    let (rest, s) = pstring(take(5)(input)).unwrap();
    assert_eq!(s, "héllo");
    assert_eq!(rest.start_offset(), 5);
}

#[test]
fn surround_in_line1_takes_what_is_enclosed() {
    let src = to_chars("{{a}b}} rest");
    let (rest, content) = surround_in_line1(Span::new(&src), "{{", "}}").unwrap();
    assert_eq!(content.to_text(), "a}b");
    assert_eq!(rest.to_text(), " rest");

    // the right side does not count directly after the left side
    let src = to_chars("$$x$");
    let (rest, content) = surround_in_line1(Span::new(&src), "$", "$").unwrap();
    assert_eq!(content.to_text(), "$x");
    assert!(rest.is_empty());

    for bad in ["a}}", "{{a", "{{a\n}}", "{{}}", "{{", "{{\n}}"] {
        let src = to_chars(bad);
        assert!(surround_in_line1(Span::new(&src), "{{", "}}").is_err(), "{:?}", bad);
    }
}

#[test]
fn take_until_end_of_line_stops_before_the_line_terminator() {
    let src = to_chars("ab\r\ncd");
    let (rest, taken) = take_until_end_of_line_or_input(Span::new(&src)).unwrap();
    assert_eq!(taken.to_text(), "ab");
    assert_eq!(rest.to_text(), "\r\ncd");
    let src = to_chars("ab\ncd");
    let (rest, taken) = take_until_end_of_line_or_input(Span::new(&src)).unwrap();
    assert_eq!((taken.to_text(), rest.to_text()), ("ab".to_string(), "\ncd".to_string()));
    // a carriage return that no line feed follows is part of the line
    let src = to_chars("a\rb\r");
    let (rest, taken) = take_until_end_of_line_or_input(Span::new(&src)).unwrap();
    assert_eq!((taken.to_text(), rest.to_text()), ("a\rb\r".to_string(), String::new()));
    let src = to_chars("abc");
    let (rest, taken) = take_until_end_of_line_or_input(Span::new(&src)).unwrap();
    assert_eq!(taken.to_text(), "abc");
    assert!(rest.is_empty());
}

#[test]
fn take_until_byte_takes_up_to_the_byte() {
    let src = to_chars("key=value");
    let (rest, taken) = take_until_byte(Span::new(&src), b'=').unwrap();
    assert_eq!(taken.to_text(), "key");
    assert_eq!(rest.to_text(), "=value");
    let (rest, taken) = take_until_byte(Span::new(&src), b'#').unwrap();
    assert_eq!(taken.to_text(), "key=value");
    assert!(rest.is_empty());
    assert!(take_until_byte1(Span::new(&src), b'k').is_err());
    let (_, taken) = take_until_byte1(Span::new(&src), b'e').unwrap();
    assert_eq!(taken.to_text(), "k");
}

#[test]
fn whitespace_is_counted_and_trimmed() {
    let src = to_chars(" \ta b \t ");
    let input = Span::new(&src);
    let (rest, n) = count_trailing_whitespace(input).unwrap();
    assert_eq!(n, 3);
    assert_eq!(rest.to_text(), " \ta b \t ");
    let (rest, _) = trim_trailing_whitespace(input).unwrap();
    assert_eq!(rest.to_text(), " \ta b");
    let (rest, _) = trim_whitespace(input).unwrap();
    assert_eq!(rest.to_text(), "a b");
    assert_eq!(input.trim().to_text(), "a b");
    let blank = to_chars(" \t ");
    let (rest, _) = trim_whitespace(Span::new(&blank)).unwrap();
    assert!(rest.is_empty());
}

#[test]
fn take_end_splits_off_the_end() {
    let src = to_chars("abcdef");
    let input = Span::new(&src);
    let (rest, end) = take_end(input, 2).unwrap();
    assert_eq!(rest.to_text(), "abcd");
    assert_eq!(end.to_text(), "ef");
    let (rest, end) = take_end(input, 6).unwrap();
    assert_eq!(rest.to_text(), "");
    assert_eq!(end.to_text(), "abcdef");
    assert!(take_end(input, 7).is_err());
}

#[test]
fn non_blank_line_takes_a_line_with_content() {
    let src = to_chars("some text\nmore");
    let (rest, line) = non_blank_line(Span::new(&src)).unwrap();
    assert_eq!(line, "some text");
    assert_eq!(rest.to_text(), "more");
    for bad in ["", "\nabc", "  \t\nabc", "   "] {
        let src = to_chars(bad);
        assert!(non_blank_line(Span::new(&src)).is_err(), "{:?}", bad);
    }
    let src = to_chars("ab");
    assert!(non_blank_line(Span::new(&src).advance(1)).is_err());
}

#[test]
fn take_line_until_stops_at_a_tag_or_at_the_end_of_the_line() {
    let src = to_chars("path#a|b]]");
    let input = Span::new(&src);
    let (rest, taken) = take_line_until(input, &["|", "#", "]]"]).unwrap();
    assert_eq!(taken.to_text(), "path");
    assert_eq!(rest.to_text(), "#a|b]]");
    let (rest, taken) = take_line_until(input, &["]]"]).unwrap();
    assert_eq!(taken.to_text(), "path#a|b");
    assert_eq!(rest.to_text(), "]]");
    let src = to_chars("ab\r\ncd]]");
    let (rest, taken) = take_line_until(Span::new(&src), &["]]"]).unwrap();
    assert_eq!(taken.to_text(), "ab");
    assert_eq!(rest.to_text(), "\r\ncd]]");
    let src = to_chars("]]x");
    assert!(take_line_until1(Span::new(&src), &["]]"]).is_err());
    let (_, taken) = take_line_until(Span::new(&src), &["]]"]).unwrap();
    assert_eq!(taken.to_text(), "");
}

#[test]
fn uri_keeps_its_text_and_each_of_its_parts() {
    let src = to_chars("https://user:pw@example.com:8080/a/b?q=1#top rest");
    let (input, u) = uri(Span::new(&src)).expect("Failed to parse uri");
    assert_eq!(input.to_text(), " rest");
    assert_eq!(u.text(), "https://user:pw@example.com:8080/a/b?q=1#top");
    assert_eq!(u.scheme(), "https");
    assert_eq!(u.authority(), Some("user:pw@example.com:8080"));
    assert_eq!(u.username(), Some("user"));
    assert_eq!(u.password(), Some("pw"));
    assert_eq!(u.host(), Some("example.com"));
    assert_eq!(u.port(), Some(8080));
    assert_eq!(u.path(), "/a/b");
    assert_eq!(u.query(), Some("q=1"));
    assert_eq!(u.fragment(), Some("top"));

    let src = to_chars("www.example.com/x");
    let (_, u) = uri(Span::new(&src)).expect("Failed to parse uri");
    assert_eq!(u.text(), "https://www.example.com/x");
    assert_eq!((u.username(), u.password(), u.port()), (None, None, None));
}

#[test]
fn any_line_takes_a_line_terminator_of_two_characters_whole() {
    let src = to_chars("test\r\nabcd");
    let (rest, line) = any_line(Span::new(&src)).expect("Failed to parse any line");
    assert_eq!(line, "test");
    assert_eq!(rest.to_text(), "abcd");
    assert_eq!((rest.line(), rest.column()), (2, 1));

    let src = to_chars("\r\nabcd");
    let (rest, line) = any_line(Span::new(&src)).unwrap();
    assert_eq!((line.as_str(), rest.to_text().as_str()), ("", "abcd"));

    // a carriage return that is no part of a terminator stays in the line
    let src = to_chars("a\rb\r\r\nc");
    let (rest, line) = any_line(Span::new(&src)).unwrap();
    assert_eq!((line.as_str(), rest.to_text().as_str()), ("a\rb\r", "c"));
}

#[test]
fn non_blank_line_gives_the_line_without_its_terminator() {
    let src = to_chars("ab\r\ncd");
    let (rest, line) = non_blank_line(Span::new(&src)).unwrap();
    assert_eq!(line, "ab");
    assert_eq!(rest.to_text(), "cd");
    let src = to_chars("ab\ncd");
    let (rest, line) = non_blank_line(Span::new(&src)).unwrap();
    assert_eq!((line.as_str(), rest.to_text().as_str()), ("ab", "cd"));
    for blank in ["\r\ncd", " \t\r\ncd", "\ncd", ""] {
        let src = to_chars(blank);
        assert!(non_blank_line(Span::new(&src)).is_err(), "{:?}", blank);
    }
}
