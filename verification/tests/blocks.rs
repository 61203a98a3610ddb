use std::borrow::Cow;
use vimwiki::elements::blocks::{
    BlockElement, Blockquote, Cell, DefinitionList, Divider, Header, ListItemKind, Row,
    TermAndDefinitions,
};
use vimwiki::elements::comments::{Comment, LineComment, MultiLineComment};
use vimwiki::elements::inline::{InlineElement, Text};
use vimwiki::parsers::blocks::blockquotes::blockquote;
use vimwiki::parsers::blocks::block_component;
use vimwiki::parsers::blocks::definitions::definition_list;
use vimwiki::parsers::blocks::dividers::divider;
use vimwiki::parsers::blocks::headers::header;
use vimwiki::parsers::blocks::lists::list;
use vimwiki::parsers::blocks::math::math_block;
use vimwiki::parsers::blocks::tables::table;
use vimwiki::parsers::comments::{comment, line_comment, multi_line_comment};
use vimwiki::parsers::page::page;
use vimwiki::span::Span;
use vimwiki::text::to_chars;

fn texts(cell: &Cell) -> Vec<String> {
    match cell {
        Cell::Content(c) => c.elements.iter().map(|e| e.value.to_text()).collect(),
        Cell::SpanLeft => vec![">".to_string()],
        Cell::SpanAbove => vec!["\\/".to_string()],
    }
}

#[test]
fn header_has_a_level_a_text_and_may_be_centered() {
    let parse = |s: &str| {
        let src = to_chars(s);
        header(Span::new(&src)).ok().map(|(rest, h)| (h.value, rest.to_text()))
    };
    assert_eq!(
        parse("= header ="),
        Some((Header::new(1, Cow::from("header"), false), String::new()))
    );
    assert_eq!(
        parse("===  Third level === \nnext"),
        Some((Header::new(3, Cow::from("Third level"), false), "next".to_string()))
    );
    assert_eq!(
        parse("  == Centered ==\r\n"),
        Some((Header::new(2, Cow::from("Centered"), true), String::new()))
    );
    assert_eq!(
        parse("====== six ======"),
        Some((Header::new(6, Cow::from("six"), false), String::new()))
    );
    assert_eq!(parse("=a = b="), Some((Header::new(1, Cow::from("a = b"), false), String::new())));
    for bad in [
        "======= seven =======",
        "== uneven =",
        "= uneven ==",
        "= no end",
        "no start =",
        "==",
        "====",
        "=  =",
        "",
        "= a =\u{a0}x",
    ] {
        assert_eq!(parse(bad), None, "{:?}", bad);
    }
    let src = to_chars("x= a =");
    assert!(header(Span::new(&src).advance(1)).is_err());
}

#[test]
fn divider_is_a_line_of_four_hyphens_or_more() {
    let parse = |s: &str| {
        let src = to_chars(s);
        divider(Span::new(&src)).ok().map(|(rest, d)| (d.value, d.region.len, rest.to_text()))
    };
    assert_eq!(parse("----"), Some((Divider {}, 4, String::new())));
    assert_eq!(parse("------\nx"), Some((Divider {}, 7, "x".to_string())));
    assert_eq!(parse("----\r\n"), Some((Divider {}, 6, String::new())));
    for bad in ["---", "---- ", "----x", " ----", "", "-- --"] {
        assert_eq!(parse(bad), None, "{:?}", bad);
    }
}

#[test]
fn blockquote_takes_the_lines_that_begin_with_the_mark() {
    let src = to_chars("> one\n>two\n>  three \n>\nnot\n> four");
    let (rest, q) = blockquote(Span::new(&src)).unwrap();
    assert_eq!(rest.to_text(), "not\n> four");
    assert_eq!(
        q.value,
        Blockquote::new(vec![
            Cow::from("one"),
            Cow::from("two"),
            Cow::from(" three "),
            Cow::from("")
        ])
    );
    assert_eq!((q.region.offset, q.region.len, q.region.end_line), (0, 23, 4));
    for bad in ["text", " > indented", ""] {
        let src = to_chars(bad);
        assert!(blockquote(Span::new(&src)).is_err(), "{:?}", bad);
    }
}

#[test]
fn definition_list_has_terms_with_their_definitions() {
    let src = to_chars("term one:: first \n:: second\n::third\nterm two::\n:: only\nbare::\nrest");
    let (rest, d) = definition_list(Span::new(&src)).unwrap();
    assert_eq!(rest.to_text(), "rest");
    assert_eq!(
        d.value,
        DefinitionList::new(vec![
            TermAndDefinitions {
                term: Cow::from("term one"),
                definitions: vec![Cow::from("first"), Cow::from("second"), Cow::from("third")],
            },
            TermAndDefinitions { term: Cow::from("term two"), definitions: vec![Cow::from("only")] },
            TermAndDefinitions { term: Cow::from("bare"), definitions: vec![] },
        ])
    );
    for bad in [":: definition", "term", "  :: x", "", "term:\n:: x"] {
        let src = to_chars(bad);
        assert!(definition_list(Span::new(&src)).is_err(), "{:?}", bad);
    }
}

#[test]
fn list_items_have_markers_and_levels() {
    let src = to_chars("- one\n  * two *bold*\n    1. three\n  2) four\n# five\nnot an item\n- six");
    let (rest, l) = list(Span::new(&src)).unwrap();
    assert_eq!(rest.to_text(), "not an item\n- six");
    let items: Vec<(ListItemKind, usize, Vec<String>)> = l
        .value
        .items
        .iter()
        .map(|i| (i.kind, i.level, i.content.elements.iter().map(|e| e.value.to_text()).collect()))
        .collect();
    assert_eq!(
        items,
        vec![
            (ListItemKind::Hyphen, 0, vec!["one".to_string()]),
            (ListItemKind::Asterisk, 2, vec!["two ".to_string(), "bold".to_string()]),
            (ListItemKind::Number, 4, vec!["three".to_string()]),
            (ListItemKind::Paren, 2, vec!["four".to_string()]),
            (ListItemKind::Pound, 0, vec!["five".to_string()]),
        ]
    );
    assert!(ListItemKind::Number.is_ordered() && ListItemKind::Pound.is_ordered());
    assert!(!ListItemKind::Hyphen.is_ordered() && !ListItemKind::Asterisk.is_ordered());
    for bad in ["-item", "- ", "-", "1 item", "a. item", ". item", "", "*bold* text", "----"] {
        let src = to_chars(bad);
        assert!(list(Span::new(&src)).is_err(), "{:?}", bad);
    }
}

#[test]
fn table_has_rows_of_cells() {
    let src = to_chars(
        " | Name | *Age* |\n |------+-------|\n | Ann  | 30 | \n || > | \\/ |\nafter",
    );
    let (rest, t) = table(Span::new(&src)).unwrap();
    assert_eq!(rest.to_text(), "after");
    assert!(t.value.centered);
    let rows: Vec<Option<Vec<Vec<String>>>> = t
        .value
        .rows
        .iter()
        .map(|r| match r {
            Row::Content { cells } => Some(cells.iter().map(texts).collect()),
            Row::Divider => None,
        })
        .collect();
    let s = |x: &str| x.to_string();
    assert_eq!(
        rows,
        vec![
            Some(vec![vec![s("Name")], vec![s("Age")]]),
            None,
            Some(vec![vec![s("Ann")], vec![s("30")]]),
            Some(vec![vec![], vec![s(">")], vec![s("\\/")]]),
        ]
    );
    let src = to_chars("|a|");
    let (_, t) = table(Span::new(&src)).unwrap();
    assert!(!t.value.centered);
    assert_eq!(t.value.rows.len(), 1);
    // a rule among other cells is a cell like any other
    let src = to_chars("|---|a|");
    let (_, t) = table(Span::new(&src)).unwrap();
    assert!(matches!(&t.value.rows[0], Row::Content { cells } if cells.len() == 2));
    for bad in ["|", "|a", "a|b|", "|a| b", "", "|a\n|"] {
        let src = to_chars(bad);
        assert!(table(Span::new(&src)).is_err(), "{:?}", bad);
    }
}

#[test]
fn math_block_has_lines_and_may_name_an_environment() {
    let src = to_chars("{{$\n\\sum_i a^2_i\n= 1\n}}$\nafter");
    let (rest, m) = math_block(Span::new(&src)).unwrap();
    assert_eq!(rest.to_text(), "after");
    assert_eq!(m.value.lines, vec![Cow::from("\\sum_i a^2_i"), Cow::from("= 1")]);
    assert_eq!(m.value.environment, None);
    let src = to_chars("  {{$%align%  \n x \n  }}$");
    let (rest, m) = math_block(Span::new(&src)).unwrap();
    assert!(rest.is_empty());
    assert_eq!(m.value.lines, vec![Cow::from(" x ")]);
    assert_eq!(m.value.environment, Some(Cow::from("align")));
    for bad in ["{{$\nx\n", "{{$ x\n}}$", "{{$%%\n}}$", "x\n}}$", "{{$\nx}}$", "{{$\nx\n}}}"] {
        let src = to_chars(bad);
        assert!(math_block(Span::new(&src)).is_err(), "{:?}", bad);
    }
}

#[test]
fn comments_of_both_kinds() {
    let src = to_chars("%% some comment\nnext");
    let (rest, c) = line_comment(Span::new(&src)).unwrap();
    assert_eq!(rest.to_text(), "\nnext");
    assert_eq!(c.value, LineComment::new(Cow::from(" some comment")));
    let src = to_chars("%%+ one\n two +%% after");
    let (rest, c) = multi_line_comment(Span::new(&src)).unwrap();
    assert_eq!(rest.to_text(), " after");
    assert_eq!(c.value, MultiLineComment::new(vec![Cow::from(" one"), Cow::from(" two ")]));
    assert_eq!((c.region.len, c.region.end_line, c.region.end_col), (16, 2, 8));
    // a line terminator of two characters is no part of a line
    let src = to_chars("%%+ one\r\n two\n\r\n+%%");
    let (_, c) = multi_line_comment(Span::new(&src)).unwrap();
    assert_eq!(
        c.value,
        MultiLineComment::new(vec![Cow::from(" one"), Cow::from(" two"), Cow::from(""), Cow::from("")])
    );
    let src = to_chars("%% some comment\r\nnext");
    let (rest, c) = line_comment(Span::new(&src)).unwrap();
    assert_eq!(rest.to_text(), "\r\nnext");
    assert_eq!(c.value, LineComment::new(Cow::from(" some comment")));
    let src = to_chars("%%++%%");
    let (_, c) = comment(Span::new(&src)).unwrap();
    assert_eq!(c.value, Comment::MultiLine(MultiLineComment::new(vec![Cow::from("")])));
    // not closed: a comment of one line
    let src = to_chars("%%+ open\nmore");
    let (rest, c) = comment(Span::new(&src)).unwrap();
    assert_eq!(c.value, Comment::Line(LineComment::new(Cow::from("+ open"))));
    assert_eq!(rest.to_text(), "\nmore");
    assert!(multi_line_comment(Span::new(&src)).is_err());
    for bad in ["% comment", "", " %% x"] {
        let src = to_chars(bad);
        assert!(comment(Span::new(&src)).is_err(), "{:?}", bad);
    }
}

#[test]
fn block_elements_are_tried_in_order() {
    let kind = |s: &str| {
        let src = to_chars(s);
        match block_component(Span::new(&src)) {
            Ok((_, b)) => match b.value {
                BlockElement::BlankLine => "blank",
                BlockElement::Blockquote(_) => "quote",
                BlockElement::DefinitionList(_) => "definitions",
                BlockElement::Divider(_) => "divider",
                BlockElement::Header(_) => "header",
                BlockElement::List(_) => "list",
                BlockElement::Math(_) => "math",
                BlockElement::NonBlankLine(_) => "line",
                BlockElement::Paragraph(_) => "paragraph",
                BlockElement::Placeholder(_) => "placeholder",
                BlockElement::CodeBlock(_) => "code",
                BlockElement::Table(_) => "table",
            },
            Err(_) => "none",
        }
    };
    assert_eq!(kind("= a =\n"), "header");
    // a header that also looks like a term with its definition
    assert_eq!(kind("= a:: b =\n"), "header");
    assert_eq!(kind("a:: b\n"), "definitions");
    assert_eq!(kind("- a:: b\n"), "definitions");
    assert_eq!(kind("- a\n"), "list");
    assert_eq!(kind("|a|\n"), "table");
    assert_eq!(kind("{{{\n}}}\n"), "code");
    assert_eq!(kind("{{$\n}}$\n"), "math");
    assert_eq!(kind("  \n"), "blank");
    assert_eq!(kind("\n"), "blank");
    assert_eq!(kind("> a\n"), "quote");
    assert_eq!(kind("-----\n"), "divider");
    assert_eq!(kind("%title a\n"), "placeholder");
    assert_eq!(kind("text\n"), "paragraph");
    // an indented line is no paragraph
    assert_eq!(kind("  text\n"), "line");
    assert_eq!(kind(""), "none");
    let src = to_chars("ab");
    assert!(block_component(Span::new(&src).advance(1)).is_err());
}

#[test]
fn page_is_consumed_to_its_end_and_its_blocks_cover_it() {
    let source = "= Title =\n\n%date 2012-03-05\nSome *text*\nand more %% a note\n\n  stray line\n- item\n%%+ long\nnote +%%\n{{{\nnever closed";
    let src = to_chars(source);
    let (rest, p) = page(Span::new(&src)).unwrap();
    assert!(rest.is_empty());
    assert_eq!((p.region.offset, p.region.len), (0, src.len()));
    let mut next = 0;
    let mut covered = String::new();
    for block in &p.value.elements {
        assert_eq!(block.region.offset, next);
        covered.push_str(&source.chars().skip(block.region.offset).take(block.region.len).collect::<String>());
        next = block.region.offset + block.region.len;
    }
    assert_eq!(next, src.len());
    assert_eq!(covered, source);
    let kinds: Vec<&str> = p
        .value
        .elements
        .iter()
        .map(|b| match &b.value {
            BlockElement::Header(_) => "header",
            BlockElement::BlankLine => "blank",
            BlockElement::Placeholder(_) => "placeholder",
            BlockElement::Paragraph(_) => "paragraph",
            BlockElement::NonBlankLine(_) => "line",
            BlockElement::List(_) => "list",
            _ => "other",
        })
        .collect();
    assert_eq!(
        kinds,
        vec!["header", "blank", "placeholder", "paragraph", "blank", "line", "list", "paragraph"]
    );
    match &p.value.elements[5].value {
        BlockElement::NonBlankLine(l) => assert_eq!(l, "  stray line"),
        other => panic!("unexpected block {:?}", other),
    }
    let notes: Vec<(usize, &Comment)> =
        p.value.comments.iter().map(|c| (c.region.offset, &c.value)).collect();
    assert_eq!(notes.len(), 2);
    assert_eq!(notes[0], (49, &Comment::Line(LineComment::new(Cow::from(" a note")))));
    assert_eq!(
        notes[1],
        (80, &Comment::MultiLine(MultiLineComment::new(vec![Cow::from(" long"), Cow::from("note ")])))
    );

    let empty = to_chars("");
    let (rest, p) = page(Span::new(&empty)).unwrap();
    assert!(rest.is_empty() && p.value.elements.is_empty() && p.value.comments.is_empty());
    assert_eq!(p.region.len, 0);

    // a page that does not begin at the start of a line is left unconsumed
    let src = to_chars("ab\ncd");
    let (rest, p) = page(Span::new(&src).advance(1)).unwrap();
    assert_eq!(rest.to_text(), "b\ncd");
    assert!(p.value.elements.is_empty());
}

#[test]
fn text_of_a_block_keeps_its_characters() {
    let src = to_chars("ünï çødé ✓\n");
    let (rest, b) = block_component(Span::new(&src)).unwrap();
    assert!(rest.is_empty());
    assert_eq!(b.region.len, 11);
    match b.value {
        BlockElement::Paragraph(p) => {
            assert_eq!(
                p.content.elements[0].value,
                InlineElement::Text(Text::from_str("ünï çødé ✓"))
            );
        },
        other => panic!("unexpected block {:?}", other),
    }
}

#[test]
fn list_item_goes_on_over_deeper_indented_lines() {
    let src = to_chars(
        "- [[https://github.com/vimwiki/testwikis|Test wikis]] - sample wikis in each of\n  the 3 syntax variants. Used for testing and development.\n    - nested\n  and *more*\nnot indented\n",
    );
    let (rest, l) = list(Span::new(&src)).unwrap();
    // the line after the nested item is not deeper indented than its marker
    assert_eq!(rest.to_text(), "  and *more*\nnot indented\n");
    let items: Vec<(usize, Vec<String>)> = l
        .value
        .items
        .iter()
        .map(|i| (i.level, i.content.elements.iter().map(|e| e.value.to_text()).collect()))
        .collect();
    let s = |x: &str| x.to_string();
    assert_eq!(
        items,
        vec![
            (
                0,
                vec![
                    s("Test wikis"),
                    s(" - sample wikis in each of"),
                    s("the 3 syntax variants. Used for testing and development."),
                ]
            ),
            (4, vec![s("nested")]),
        ]
    );
    let src = to_chars("  - a\n  b\n");
    let (rest, l) = list(Span::new(&src)).unwrap();
    assert_eq!(rest.to_text(), "  b\n");
    assert_eq!(l.value.items.len(), 1);
    let src = to_chars("- a\n \n b\n");
    let (rest, _) = list(Span::new(&src)).unwrap();
    assert_eq!(rest.to_text(), " \n b\n");
}
