use std::convert::TryInto;
use vimwiki::elements::blocks::{
    BlockElement, Blockquote, DefinitionList, Divider, Header, List, MathBlock, Paragraph,
    Placeholder, Table,
};
use vimwiki::elements::code::CodeBlock;
use vimwiki::elements::comments::{Comment, LineComment, MultiLineComment};
use vimwiki::elements::inline::{
    DecoratedText, InlineElement, InlineElementContainer, Keyword, MathInline, Tags, Text,
};
use vimwiki::elements::links::{
    DiaryLink, ExternalFileLink, InterWikiLink, Link, RawLink, TransclusionLink, WikiLink,
};
use vimwiki::elements::page::Page;
use vimwiki::error::ErrorKind;
use vimwiki::lang::RawStr;
use vimwiki::located::Located;

#[test]
fn try_from_raw_str_to_lc_page() {
    let input = RawStr::Vimwiki("some text");
    let _result: Located<Page> = input.try_into().expect("Failed to parse");
}

#[test]
fn try_from_raw_str_to_lc_block_component() {
    let input = RawStr::Vimwiki("some text");
    let _result: Located<BlockElement> = input.try_into().expect("Failed to parse");
}

#[test]
fn try_from_raw_str_to_lc_inline_component_container() {
    let input = RawStr::Vimwiki("some text");
    let _result: Located<InlineElementContainer> = input.try_into().expect("Failed to parse");
}

#[test]
fn try_from_raw_str_to_lc_inline_component() {
    let input = RawStr::Vimwiki("some text");
    let _result: Located<InlineElement> = input.try_into().expect("Failed to parse");
}

#[test]
fn try_from_raw_str_to_lc_blockquote() {
    let input = RawStr::Vimwiki("> some text");
    let _result: Located<Blockquote> = input.try_into().expect("Failed to parse");
}

#[test]
fn try_from_raw_str_to_lc_comment() {
    let input = RawStr::Vimwiki("%% some comment");
    let _result: Located<Comment> = input.try_into().expect("Failed to parse");
}

#[test]
fn try_from_raw_str_to_lc_line_comment() {
    let input = RawStr::Vimwiki("%% some comment");
    let _result: Located<LineComment> = input.try_into().expect("Failed to parse");
}

#[test]
fn try_from_raw_str_to_lc_multi_line_comment() {
    let input = RawStr::Vimwiki("%%+ some comment +%%");
    let _result: Located<MultiLineComment> = input.try_into().expect("Failed to parse");
}

#[test]
fn try_from_raw_str_to_lc_definition_list() {
    let input = RawStr::Vimwiki("term:: definition");
    let _result: Located<DefinitionList> = input.try_into().expect("Failed to parse");
}

#[test]
fn try_from_raw_str_to_lc_divider() {
    let input = RawStr::Vimwiki("----");
    let _result: Located<Divider> = input.try_into().expect("Failed to parse");
}

#[test]
fn try_from_raw_str_to_lc_header() {
    let input = RawStr::Vimwiki("= header =");
    let _result: Located<Header> = input.try_into().expect("Failed to parse");
}

#[test]
fn try_from_raw_str_to_lc_link() {
    let input = RawStr::Vimwiki("[[link]]");
    let _result: Located<Link> = input.try_into().expect("Failed to parse");
}

#[test]
fn try_from_raw_str_to_lc_diary_link() {
    let input = RawStr::Vimwiki("[[diary:2012-03-05]]");
    let _result: Located<DiaryLink> = input.try_into().expect("Failed to parse");
}

#[test]
fn try_from_raw_str_to_lc_external_file_link() {
    let input = RawStr::Vimwiki("[[file:path/to/file]]");
    let _result: Located<ExternalFileLink> = input.try_into().expect("Failed to parse");
}

#[test]
fn try_from_raw_str_to_lc_raw_link() {
    let input = RawStr::Vimwiki("https://example.com");
    let _result: Located<RawLink> = input.try_into().expect("Failed to parse");
}

#[test]
fn try_from_raw_str_to_lc_transclusion_link() {
    let input = RawStr::Vimwiki("{{https://example.com/img.jpg}}");
    let _result: Located<TransclusionLink> = input.try_into().expect("Failed to parse");
}

#[test]
fn try_from_raw_str_to_lc_wiki_link() {
    let input = RawStr::Vimwiki("[[link]]");
    let _result: Located<WikiLink> = input.try_into().expect("Failed to parse");
}

#[test]
fn try_from_raw_str_to_lc_inter_wiki_link() {
    let input = RawStr::Vimwiki("[[wiki1:link]]");
    let _result: Located<InterWikiLink> = input.try_into().expect("Failed to parse");
}

#[test]
fn try_from_raw_str_to_lc_list() {
    let input = RawStr::Vimwiki("- some list item");
    let _result: Located<List> = input.try_into().expect("Failed to parse");
}

#[test]
fn try_from_raw_str_to_lc_math_inline() {
    let input = RawStr::Vimwiki("$math$");
    let _result: Located<MathInline> = input.try_into().expect("Failed to parse");
}

#[test]
fn try_from_raw_str_to_lc_math_block() {
    let input = RawStr::Vimwiki("{{$\nmath\n}}$");
    let _result: Located<MathBlock> = input.try_into().expect("Failed to parse");
}

#[test]
fn try_from_raw_str_to_lc_paragraph() {
    let input = RawStr::Vimwiki("some text");
    let _result: Located<Paragraph> = input.try_into().expect("Failed to parse");
}

#[test]
fn try_from_raw_str_to_lc_placeholder() {
    let input = RawStr::Vimwiki("%title some text");
    let _result: Located<Placeholder> = input.try_into().expect("Failed to parse");
}

#[test]
fn try_from_raw_str_to_lc_preformatted_text() {
    let input = RawStr::Vimwiki("{{{\nsome code\n}}}");
    let _result: Located<CodeBlock> = input.try_into().expect("Failed to parse");
}

#[test]
fn try_from_raw_str_to_lc_table() {
    let input = RawStr::Vimwiki("|cell|");
    let _result: Located<Table> = input.try_into().expect("Failed to parse");
}

#[test]
fn try_from_raw_str_to_lc_tags() {
    let input = RawStr::Vimwiki(":tag:");
    let _result: Located<Tags> = input.try_into().expect("Failed to parse");
}

#[test]
fn try_from_raw_str_to_lc_string() {
    let input = RawStr::Vimwiki("some text");
    let _result: Located<Text> = input.try_into().expect("Failed to parse");
}

#[test]
fn try_from_raw_str_to_lc_decorated_text() {
    let input = RawStr::Vimwiki("*some text*");
    let _result: Located<DecoratedText> = input.try_into().expect("Failed to parse");
}

#[test]
fn try_from_raw_str_to_lc_keyword() {
    let input = RawStr::Vimwiki("TODO");
    let _result: Located<Keyword> = input.try_into().expect("Failed to parse");
}

#[test]
fn other_dialects_are_unsupported() {
    let r: Result<Located<Page>, _> = RawStr::Markdown("some text").try_into();
    assert_eq!(r.unwrap_err().kind, ErrorKind::Unsupported);
    let r: Result<Located<WikiLink>, _> = RawStr::Mediawiki("[[link]]").try_into();
    assert_eq!(r.unwrap_err().kind, ErrorKind::Unsupported);
}

#[test]
fn failures_say_what_kind_they_are() {
    let r: Result<Located<Header>, _> = RawStr::Vimwiki("no header").try_into();
    let e = r.unwrap_err();
    assert_eq!(e.kind(), ErrorKind::Mismatch);
    assert!(e.is_recoverable());
    assert_eq!((e.offset, e.line, e.column), (0, 1, 1));
    assert_eq!(e.contexts.last(), Some(&"Header"));

    let e = vimwiki::error::LangParserError::unsupported();
    assert_eq!((e.kind(), e.message(), e.is_recoverable()), (ErrorKind::Unsupported, "Unsupported!", false));

    // no text that fits in memory is too large: the failure is only built here
    let e = vimwiki::error::LangParserError::too_large();
    assert_eq!((e.kind(), e.is_recoverable()), (ErrorKind::TooLarge, false));
    assert_eq!((e.offset, e.line, e.column), (0, 1, 1));
    assert!(e.contexts.is_empty());
}
