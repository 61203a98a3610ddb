use std::borrow::Cow;
use vimwiki::elements::inline::{
    DecoratedText, Decoration, InlineElement, Keyword, KeywordKind, MathInline, Tags, Text,
};
use vimwiki::elements::links::{Link, WikiLink};
use vimwiki::located::Located;
use vimwiki::parsers::blocks::paragraphs::{continue_paragraph, paragraph};
use vimwiki::parsers::inline::{
    decorated, decorated_text, inline_element, inline_element_container, keyword, math_inline,
    tags, text,
};
use vimwiki::region::Region;
use vimwiki::span::Span;
use vimwiki::text::to_chars;

fn plain(s: &'static str) -> InlineElement<'static> {
    InlineElement::Text(Text::from_str(s))
}

fn at_nowhere<T>(value: T) -> Located<T> {
    Located::new(value, Region::in_line(0, 0))
}

fn bold(s: &'static str) -> InlineElement<'static> {
    InlineElement::DecoratedText(DecoratedText::new(vec![at_nowhere(plain(s))], Decoration::Bold))
}

fn wiki(path: &'static str) -> InlineElement<'static> {
    InlineElement::Link(Link::Wiki(WikiLink::new(Cow::from(path), None, None)))
}

fn math(formula: &'static str) -> InlineElement<'static> {
    InlineElement::Math(MathInline::new(Cow::from(formula)))
}

fn values(elements: Vec<Located<InlineElement<'static>>>) -> Vec<InlineElement<'static>> {
    elements.into_iter().map(|c| c.value).collect::<Vec<InlineElement>>()
}

#[test]
fn paragraph_should_fail_if_on_blank_line() {
    let src = to_chars(" ");
    assert!(paragraph(Span::new(&src)).is_err());
}

#[test]
fn paragraph_should_fail_if_line_indented() {
    let src = to_chars(" some text");
    assert!(paragraph(Span::new(&src)).is_err());
}

#[test]
fn paragraph_should_parse_single_line() {
    let src = to_chars("Some paragraph with *decorations*, [[links]], $math$, and more\n");
    let (input, p) = paragraph(Span::new(&src)).unwrap();
    assert!(input.is_empty(), "Did not consume paragraph");

    assert_eq!(
        values(p.value.content.elements),
        vec![
            plain("Some paragraph with "),
            bold("decorations"),
            plain(", "),
            wiki("links"),
            plain(", "),
            math("math"),
            plain(", and more"),
        ],
    );
}

#[test]
fn paragraph_should_parse_multiple_lines() {
    let src = to_chars("Some paragraph with *decorations*,\n[[links]], $math$, and more\n");
    let (input, p) = paragraph(Span::new(&src)).unwrap();
    assert!(input.is_empty(), "Did not consume paragraph");

    assert_eq!(
        values(p.value.content.elements),
        vec![
            plain("Some paragraph with "),
            bold("decorations"),
            plain(","),
            wiki("links"),
            plain(", "),
            math("math"),
            plain(", and more"),
        ],
    );
}

#[test]
fn paragraph_should_support_whitespace_at_beginning_of_all_following_lines() {
    let src = to_chars("Some paragraph with *decorations*,\n  [[links]], $math$, and more\n");
    let (input, p) = paragraph(Span::new(&src)).unwrap();
    assert!(input.is_empty(), "Did not consume paragraph");

    assert_eq!(
        values(p.value.content.elements),
        vec![
            plain("Some paragraph with "),
            bold("decorations"),
            plain(","),
            plain("  "),
            wiki("links"),
            plain(", "),
            math("math"),
            plain(", and more"),
        ],
    );
}

#[test]
fn paragraph_should_stop_at_a_blank_line() {
    let src = to_chars(
        "Some paragraph with *decorations*,\n[[links]], $math$, and more\n\nAnd this would be a second paragraph\n",
    );
    let (input, p) = paragraph(Span::new(&src)).unwrap();
    assert_eq!(
        input.to_text(),
        "\nAnd this would be a second paragraph\n",
        "Unexpected consumption of input"
    );

    assert_eq!(
        values(p.value.content.elements),
        vec![
            plain("Some paragraph with "),
            bold("decorations"),
            plain(","),
            wiki("links"),
            plain(", "),
            math("math"),
            plain(", and more"),
        ],
    );
}

#[test]
fn paragraph_stops_where_another_block_begins() {
    for (source, left) in [
        ("text\n= header =\n", "= header =\n"),
        ("text\n- item\n", "- item\n"),
        ("text\n|cell|\n", "|cell|\n"),
        ("text\n{{{\ncode\n}}}\n", "{{{\ncode\n}}}\n"),
        ("text\n{{$\nx\n}}$\n", "{{$\nx\n}}$\n"),
        ("text\n> quote\n", "> quote\n"),
        ("text\n----\n", "----\n"),
        ("text\n%nohtml\n", "%nohtml\n"),
        ("text\nterm:: definition\n", "term:: definition\n"),
        ("text\n   \nmore", "   \nmore"),
        ("one\ntwo\r\nthree", ""),
        // an opening fence that is never closed belongs to the paragraph
        ("text\n{{{\ncode\n", ""),
    ] {
        let src = to_chars(source);
        let (rest, _) = paragraph(Span::new(&src)).unwrap();
        assert_eq!(rest.to_text(), left, "{:?}", source);
    }
    let src = to_chars("= header =\ntext");
    assert!(!continue_paragraph(Span::new(&src)));
    assert!(paragraph(Span::new(&src)).is_err());
    let src = to_chars("x\ntext");
    assert!(continue_paragraph(Span::new(&src)));
}

#[test]
fn paragraph_elements_have_their_regions() {
    let src = to_chars("ab *c*\nd");
    let (_, p) = paragraph(Span::new(&src)).unwrap();
    let regions: Vec<(usize, usize, usize, usize)> = p
        .value
        .content
        .elements
        .iter()
        .map(|e| (e.region.offset, e.region.len, e.region.start_line, e.region.start_col))
        .collect();
    assert_eq!(regions, vec![(0, 3, 1, 1), (3, 3, 1, 4), (7, 1, 2, 1)]);
    let r = p.region();
    assert_eq!((r.offset, r.len, r.end_line, r.end_col), (0, 8, 2, 1));
    match &p.value.content.elements[1].value {
        InlineElement::DecoratedText(d) => {
            assert_eq!(d.decoration, Decoration::Bold);
            let inner = &d.contents[0];
            assert_eq!((inner.region.offset, inner.region.len), (4, 1));
            assert_eq!(inner.value, plain("c"));
        },
        other => panic!("unexpected element {:?}", other),
    }
}

#[test]
fn decorations_nest_and_are_told_apart_by_their_markers() {
    let kinds = [
        ("*b*", Decoration::Bold),
        ("_i_", Decoration::Italic),
        ("~~s~~", Decoration::Strikethrough),
        ("^up^", Decoration::Superscript),
        (",,down,,", Decoration::Subscript),
    ];
    for (source, kind) in kinds {
        let src = to_chars(source);
        let (rest, d) = decorated(Span::new(&src)).unwrap();
        assert!(rest.is_empty(), "{:?}", source);
        assert_eq!(d.value.decoration, kind);
        assert_eq!(d.value.contents.len(), 1);
    }
    let src = to_chars("*bold _both_ TODO* after");
    let (rest, d) = decorated_text(Span::new(&src)).unwrap();
    assert_eq!(rest.to_text(), " after");
    let expected = InlineElement::DecoratedText(DecoratedText::new(
        vec![
            at_nowhere(plain("bold ")),
            at_nowhere(InlineElement::DecoratedText(DecoratedText::new(
                vec![at_nowhere(plain("both"))],
                Decoration::Italic,
            ))),
            at_nowhere(plain(" ")),
            at_nowhere(InlineElement::Keyword(Keyword::new(KeywordKind::Todo, None))),
        ],
        Decoration::Bold,
    ));
    assert_eq!(d.value, expected);
    assert_eq!(d.value.to_text(), "bold both TODO");
    for bad in ["*", "**", "*a", "a*b*", "*a\n*", "~~a~"] {
        let src = to_chars(bad);
        assert!(decorated_text(Span::new(&src)).is_err(), "{:?}", bad);
    }
}

#[test]
fn inline_elements_are_tried_in_order() {
    let parse = |s: &str| {
        let src = to_chars(s);
        let (rest, e) = inline_element(Span::new(&src)).unwrap();
        (e.value, rest.to_text())
    };
    assert_eq!(parse("$a$ b"), (math("a"), " b".to_string()));
    assert_eq!(
        parse(":one:two: x"),
        (InlineElement::Tags(Tags::new(vec![Cow::from("one"), Cow::from("two")])), " x".to_string())
    );
    assert_eq!(parse("[[p]]x"), (wiki("p"), "x".to_string()));
    assert_eq!(parse("DONE!"), (InlineElement::Keyword(Keyword::new(KeywordKind::Done, None)), "!".to_string()));
    assert_eq!(parse("FIXME"), (InlineElement::Keyword(Keyword::new(KeywordKind::Fixme, None)), String::new()));
    assert_eq!(parse("todo TODO"), (plain("todo "), "TODO".to_string()));
    assert_eq!(parse("a $ b\nc"), (plain("a $ b"), "\nc".to_string()));
    assert_eq!(parse("see https://e.com now"), (plain("see "), "https://e.com now".to_string()));
    for bad in ["", "\nx", "\r\nx"] {
        let src = to_chars(bad);
        assert!(inline_element(Span::new(&src)).is_err(), "{:?}", bad);
        assert!(inline_element_container(Span::new(&src)).is_err(), "{:?}", bad);
    }
    let src = to_chars("a *b* c\nd");
    let (rest, c) = inline_element_container(Span::new(&src)).unwrap();
    assert_eq!(rest.to_text(), "\nd");
    assert_eq!(values(c.value.elements), vec![plain("a "), bold("b"), plain(" c")]);
}

#[test]
fn single_inline_parsers() {
    let src = to_chars("XXX");
    assert_eq!(keyword(Span::new(&src)).unwrap().1.value, Keyword::new(KeywordKind::Xxx, None));
    let src = to_chars("STARTED FIXED");
    let (rest, k) = keyword(Span::new(&src)).unwrap();
    assert_eq!((k.value, k.value.as_str()), (Keyword::new(KeywordKind::Started, None), "STARTED"));
    assert_eq!(keyword(rest.advance(1)).unwrap().1.value, Keyword::new(KeywordKind::Fixed, None));
    let src = to_chars("Todo");
    assert!(keyword(Span::new(&src)).is_err());

    let src = to_chars("$x + y$");
    assert_eq!(math_inline(Span::new(&src)).unwrap().1.value, MathInline::new(Cow::from("x + y")));
    for bad in ["$$", "$x", "x$", "$x\n$"] {
        let src = to_chars(bad);
        assert!(math_inline(Span::new(&src)).is_err(), "{:?}", bad);
    }
    let src = to_chars(":a:b c:");
    let (rest, t) = tags(Span::new(&src)).unwrap();
    assert_eq!(rest.to_text(), "b c:");
    assert_eq!(t.value, Tags::new(vec![Cow::from("a")]));
    assert_eq!(InlineElement::Tags(t.value).to_text(), ":a:");
    for bad in [":", "::", ":a", "a:b:", ": a:"] {
        let src = to_chars(bad);
        assert!(tags(Span::new(&src)).is_err(), "{:?}", bad);
    }
    let src = to_chars("some text [[link]]");
    let (rest, t) = text(Span::new(&src)).unwrap();
    assert_eq!(t.value.as_str(), "some text ");
    assert_eq!(rest.to_text(), "[[link]]");
    assert!(text(rest).is_err());
}

#[test]
fn keyword_takes_the_level_of_completion_that_follows_it() {
    let parse = |text: &str| {
        let src = to_chars(text);
        let (rest, k) = keyword(Span::new(&src)).unwrap();
        (k.value, k.region.len(), rest.to_text())
    };
    assert_eq!(parse("TODO50 x"), (Keyword::new(KeywordKind::Todo, Some(50)), 6, " x".to_string()));
    assert_eq!(parse("DONE100"), (Keyword::new(KeywordKind::Done, Some(100)), 7, String::new()));
    assert_eq!(parse("STARTED007."), (Keyword::new(KeywordKind::Started, Some(7)), 10, ".".to_string()));
    assert_eq!(parse("FIXME 5"), (Keyword::new(KeywordKind::Fixme, None), 5, " 5".to_string()));
    assert_eq!(parse("XXX+5"), (Keyword::new(KeywordKind::Xxx, None), 3, "+5".to_string()));
    assert_eq!(
        parse("TODO4294967295"),
        (Keyword::new(KeywordKind::Todo, Some(4294967295)), 14, String::new())
    );
    assert_eq!(
        parse("TODO4294967296"),
        (Keyword::new(KeywordKind::Todo, None), 4, "4294967296".to_string())
    );
    assert_eq!(Keyword::new(KeywordKind::Fixed, Some(3)).as_str(), "FIXED");
}
