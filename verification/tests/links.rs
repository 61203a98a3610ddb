use std::borrow::Cow;
use vimwiki::elements::date::Date;
use vimwiki::elements::links::{
    Anchor, Description, ExternalFileLinkScheme, InterWikiLink, Link, WikiLink,
};
use vimwiki::elements::uri::Uri;
use vimwiki::parsers::links::diary::{diary_link, parse_date_from_path};
use vimwiki::parsers::links::external::external_file_link;
use vimwiki::parsers::links::interwiki::{
    inter_wiki_link, parse_index_from_path, parse_name_from_path,
};
use vimwiki::parsers::links::link;
use vimwiki::parsers::links::raw::raw_link;
use vimwiki::parsers::links::transclusion::transclusion_link;
use vimwiki::parsers::links::wiki::{anchor, description, wiki_link, wiki_link_internal};
use vimwiki::parsers::numbers::parse_u32;
use vimwiki::span::Span;
use vimwiki::text::to_chars;

fn anchor_of(segments: &[&'static str]) -> Anchor<'static> {
    Anchor::new(segments.iter().map(|s| Cow::from(*s)).collect())
}

fn text(s: &'static str) -> Description<'static> {
    Description::Text(Cow::from(s))
}

#[test]
fn inter_wiki_link_with_index_should_support_numbered_prefix() {
    let src = to_chars("[[wiki1:This is a link]]");
    let (input, link) = inter_wiki_link(Span::new(&src)).unwrap();
    assert!(input.is_empty(), "Did not consume link");
    assert_eq!(link.value.index(), Some(1), "Wrong index detected");
    assert_eq!(link.value.link().path(), "This is a link");
    assert_eq!(link.value.link().description, None);
    assert_eq!(link.value.link().anchor, None);
}

#[test]
fn inter_wiki_link_with_index_should_support_description() {
    let src = to_chars("[[wiki1:This is a link source|Description of the link]]");
    let (input, link) = inter_wiki_link(Span::new(&src)).unwrap();
    assert!(input.is_empty(), "Did not consume link");
    assert_eq!(link.value.index(), Some(1), "Wrong index detected");
    assert_eq!(link.value.link().path(), "This is a link source");
    assert_eq!(link.value.link().description, Some(text("Description of the link")));
    assert_eq!(link.value.link().anchor, None);
}

#[test]
fn inter_wiki_link_with_index_should_support_anchors() {
    let src = to_chars("[[wiki1:This is a link source#anchor]]");
    let (input, link) = inter_wiki_link(Span::new(&src)).unwrap();
    assert!(input.is_empty(), "Did not consume link");
    assert_eq!(link.value.index(), Some(1), "Wrong index detected");
    assert_eq!(link.value.link().path(), "This is a link source");
    assert_eq!(link.value.link().description, None);
    assert_eq!(link.value.link().anchor, Some(anchor_of(&["anchor"])));
}

#[test]
fn inter_wiki_link_with_index_should_support_description_and_anchors() {
    let src = to_chars("[[wiki1:This is a link source#anchor|Description of the link]]");
    let (input, link) = inter_wiki_link(Span::new(&src)).unwrap();
    assert!(input.is_empty(), "Did not consume link");
    assert_eq!(link.value.index(), Some(1), "Wrong index detected");
    assert_eq!(link.value.link().path(), "This is a link source");
    assert_eq!(link.value.link().description, Some(text("Description of the link")));
    assert_eq!(link.value.link().anchor, Some(anchor_of(&["anchor"])));
}

#[test]
fn inter_wiki_link_with_name_should_support_named_wikis() {
    let src = to_chars("[[wn.My Name:This is a link]]");
    let (input, link) = inter_wiki_link(Span::new(&src)).unwrap();
    assert!(input.is_empty(), "Did not consume link");
    assert_eq!(link.value.name(), Some("My Name"), "Wrong name detected");
    assert_eq!(link.value.link().path(), "This is a link");
    assert_eq!(link.value.link().description, None);
    assert_eq!(link.value.link().anchor, None);
}

#[test]
fn inter_wiki_link_with_name_should_support_description() {
    let src = to_chars("[[wn.My Name:This is a link|Description of the link]]");
    let (input, link) = inter_wiki_link(Span::new(&src)).unwrap();
    assert!(input.is_empty(), "Did not consume link");
    assert_eq!(link.value.name(), Some("My Name"), "Wrong name detected");
    assert_eq!(link.value.link().path(), "This is a link");
    assert_eq!(link.value.link().description, Some(text("Description of the link")));
    assert_eq!(link.value.link().anchor, None);
}

#[test]
fn inter_wiki_link_with_name_should_support_anchors() {
    let src = to_chars("[[wn.My Name:This is a link#anchor]]");
    let (input, link) = inter_wiki_link(Span::new(&src)).unwrap();
    assert!(input.is_empty(), "Did not consume link");
    assert_eq!(link.value.name(), Some("My Name"), "Wrong name detected");
    assert_eq!(link.value.link().path(), "This is a link");
    assert_eq!(link.value.link().description, None);
    assert_eq!(link.value.link().anchor, Some(anchor_of(&["anchor"])));
}

#[test]
fn inter_wiki_link_with_name_should_support_description_and_anchors() {
    let src = to_chars("[[wn.My Name:This is a link#anchor|Description of the link]]");
    let (input, link) = inter_wiki_link(Span::new(&src)).unwrap();
    assert!(input.is_empty(), "Did not consume link");
    assert_eq!(link.value.name(), Some("My Name"), "Wrong name detected");
    assert_eq!(link.value.link().path(), "This is a link");
    assert_eq!(link.value.link().description, Some(text("Description of the link")));
    assert_eq!(link.value.link().anchor, Some(anchor_of(&["anchor"])));
}

#[test]
fn diary_link_should_fail_if_not_using_diary_scheme() {
    let src = to_chars("[[notdiary:2012-03-05]]");
    assert!(diary_link(Span::new(&src)).is_err());
}

#[test]
fn diary_link_should_fail_if_not_using_correct_date_format() {
    let src = to_chars("[[diary:2012/03/05]]");
    assert!(diary_link(Span::new(&src)).is_err());
}

#[test]
fn diary_link_should_support_diary_scheme() {
    let src = to_chars("[[diary:2012-03-05]]");
    let (input, link) = diary_link(Span::new(&src)).expect("Parser unexpectedly failed");

    // Link should be consumed
    assert!(input.is_empty());

    assert_eq!(link.value.date, Date::new(2012, 03, 05));
    assert_eq!(link.value.description, None);
    assert_eq!(link.value.anchor, None);
}

#[test]
fn diary_link_should_support_a_description() {
    let src = to_chars("[[diary:2012-03-05|some description]]");
    let (input, link) = diary_link(Span::new(&src)).expect("Parser unexpectedly failed");

    // Link should be consumed
    assert!(input.is_empty());

    assert_eq!(link.value.date, Date::new(2012, 03, 05));
    assert_eq!(link.value.description, Some(text("some description")));
    assert_eq!(link.value.anchor, None);
}

#[test]
fn diary_link_should_support_an_anchor() {
    let src = to_chars("[[diary:2012-03-05#Tomorrow]]");
    let (input, link) = diary_link(Span::new(&src)).expect("Parser unexpectedly failed");

    // Link should be consumed
    assert!(input.is_empty());

    assert_eq!(link.value.date, Date::new(2012, 03, 05));
    assert_eq!(link.value.description, None);
    assert_eq!(link.value.anchor, Some(anchor_of(&["Tomorrow"])));
}

#[test]
fn diary_link_should_support_an_anchor_and_description() {
    let src = to_chars("[[diary:2012-03-05#Tomorrow|Tasks for tomorrow]]");
    let (input, link) = diary_link(Span::new(&src)).expect("Parser unexpectedly failed");

    // Link should be consumed
    assert!(input.is_empty());

    assert_eq!(link.value.date, Date::new(2012, 03, 05));
    assert_eq!(link.value.description, Some(text("Tasks for tomorrow")));
    assert_eq!(link.value.anchor, Some(anchor_of(&["Tomorrow"])));
}

#[test]
fn wiki_link_should_fail_if_does_not_have_proper_prefix() {
    let src = to_chars("link]]");
    assert!(wiki_link(Span::new(&src)).is_err());
}

#[test]
fn wiki_link_should_fail_if_does_not_have_proper_suffix() {
    let src = to_chars("[[link");
    assert!(wiki_link(Span::new(&src)).is_err());
}

#[test]
fn wiki_link_should_not_consume_across_lines() {
    let src = to_chars("[[link\n]]");
    assert!(wiki_link(Span::new(&src)).is_err());
}

#[test]
fn wiki_link_should_support_plain_link() {
    let src = to_chars("[[This is a link]]");
    let (input, link) = wiki_link(Span::new(&src)).expect("Parser unexpectedly failed");

    // Link should be consumed
    assert!(input.is_empty());

    assert!(link.value.is_path_relative(), "Not detected as relative");
    assert_eq!(link.value.path(), "This is a link");
    assert_eq!(link.value.description, None);
    assert_eq!(link.value.anchor, None);
}

#[test]
fn wiki_link_should_support_description() {
    let src = to_chars("[[This is a link source|Description of the link]]");
    let (input, link) = wiki_link(Span::new(&src)).expect("Parser unexpectedly failed");

    // Link should be consumed
    assert!(input.is_empty());

    assert!(link.value.is_path_relative(), "Not detected as relative");
    assert_eq!(link.value.path(), "This is a link source");
    assert_eq!(
        link.value.description,
        Some(Description::Text(Cow::from("Description of the link".to_string())))
    );
    assert_eq!(link.value.anchor, None);
}

#[test]
fn wiki_link_should_support_thumbnail_description() {
    let src = to_chars("[[This is a link source|{{https://example.com/img.jpg}}]]");
    let (input, link) = wiki_link(Span::new(&src)).expect("Parser unexpectedly failed");

    // Link should be consumed
    assert!(input.is_empty());

    assert!(link.value.is_path_relative(), "Not detected as relative");
    assert_eq!(link.value.path(), "This is a link source");
    assert_eq!(
        link.value.description,
        Some(Description::Uri(Uri::parse("https://example.com/img.jpg").unwrap()))
    );
    assert_eq!(link.value.anchor, None);
}

#[test]
fn wiki_link_should_support_sources_in_subdirectories() {
    let src = to_chars("[[projects/Important Project 1]]");
    let (input, link) = wiki_link(Span::new(&src)).expect("Parser unexpectedly failed");

    // Link should be consumed
    assert!(input.is_empty());

    assert!(link.value.is_path_relative(), "Not detected as relative");
    assert_eq!(link.value.path(), "projects/Important Project 1");
    assert_eq!(link.value.description, None);
    assert_eq!(link.value.anchor, None);
}

#[test]
fn wiki_link_should_support_relative_sources() {
    let src = to_chars("[[../index]]");
    let (input, link) = wiki_link(Span::new(&src)).expect("Parser unexpectedly failed");

    // Link should be consumed
    assert!(input.is_empty());

    assert!(link.value.is_path_relative(), "Not detected as relative");
    assert_eq!(link.value.path(), "../index");
    assert_eq!(link.value.description, None);
    assert_eq!(link.value.anchor, None);
}

#[test]
fn wiki_link_should_support_absolute_source_for_wiki_root() {
    let src = to_chars("[[/index]]");
    let (input, link) = wiki_link(Span::new(&src)).expect("Parser unexpectedly failed");

    // Link should be consumed
    assert!(input.is_empty());

    assert!(link.value.is_path_absolute(), "Not detected as absolute");
    assert_eq!(link.value.path(), "/index");
    assert_eq!(link.value.description, None);
    assert_eq!(link.value.anchor, None);
}

#[test]
fn wiki_link_should_support_source_being_subdirectory() {
    let src = to_chars("[[a subdirectory/|Other files]]");
    let (input, link) = wiki_link(Span::new(&src)).expect("Parser unexpectedly failed");

    // Link should be consumed
    assert!(input.is_empty());

    assert!(link.value.is_path_dir(), "Not detected as subdirectory");
    assert_eq!(link.value.path(), "a subdirectory/");
    assert_eq!(
        link.value.description,
        Some(Description::Text(Cow::from("Other files".to_string())))
    );
    assert_eq!(link.value.anchor, None);
}

#[test]
fn wiki_link_should_support_an_anchor() {
    let src = to_chars("[[Todo List#Tomorrow]]");
    let (input, link) = wiki_link(Span::new(&src)).expect("Parser unexpectedly failed");

    // Link should be consumed
    assert!(input.is_empty());

    assert_eq!(link.value.path(), "Todo List");
    assert_eq!(link.value.description, None);
    assert_eq!(link.value.anchor, Some(Anchor::new(vec![Cow::from("Tomorrow".to_string())])));
}

#[test]
fn wiki_link_should_support_multiple_anchors() {
    let src = to_chars("[[Todo List#Tomorrow#Later]]");
    let (input, link) = wiki_link(Span::new(&src)).expect("Parser unexpectedly failed");

    // Link should be consumed
    assert!(input.is_empty());

    assert_eq!(link.value.path(), "Todo List");
    assert_eq!(link.value.description, None);
    assert_eq!(
        link.value.anchor,
        Some(Anchor::new(vec![
            Cow::from("Tomorrow".to_string()),
            Cow::from("Later".to_string())
        ]))
    );
}

#[test]
fn wiki_link_should_support_an_anchor_and_a_description() {
    let src = to_chars("[[Todo List#Tomorrow|Tasks for tomorrow]]");
    let (input, link) = wiki_link(Span::new(&src)).expect("Parser unexpectedly failed");

    // Link should be consumed
    assert!(input.is_empty());

    assert_eq!(link.value.path(), "Todo List");
    assert_eq!(
        link.value.description,
        Some(Description::Text(Cow::from("Tasks for tomorrow".to_string())))
    );
    assert_eq!(link.value.anchor, Some(Anchor::new(vec![Cow::from("Tomorrow".to_string())])));
}

#[test]
fn wiki_link_should_support_multiple_anchors_and_a_description() {
    let src = to_chars("[[Todo List#Tomorrow#Later|Tasks for tomorrow]]");
    let (input, link) = wiki_link(Span::new(&src)).expect("Parser unexpectedly failed");

    // Link should be consumed
    assert!(input.is_empty());

    assert_eq!(link.value.path(), "Todo List");
    assert_eq!(
        link.value.description,
        Some(Description::Text(Cow::from("Tasks for tomorrow".to_string())))
    );
    assert_eq!(
        link.value.anchor,
        Some(Anchor::new(vec![
            Cow::from("Tomorrow".to_string()),
            Cow::from("Later".to_string())
        ]))
    );
}

#[test]
fn wiki_link_should_support_anchor_only() {
    let src = to_chars("[[#Tomorrow]]");
    let (input, link) = wiki_link(Span::new(&src)).expect("Parser unexpectedly failed");

    // Link should be consumed
    assert!(input.is_empty());

    assert!(link.value.is_local_anchor(), "Not detected as local anchor");
    assert_eq!(link.value.path(), "");
    assert_eq!(link.value.description, None);
    assert_eq!(link.value.anchor, Some(Anchor::new(vec![Cow::from("Tomorrow".to_string())])));
}

#[test]
fn raw_link_should_support_http_scheme() {
    let src = to_chars("http://example.com");
    let (input, link) = raw_link(Span::new(&src)).expect("Failed to parse uri");

    // Link should be consumed
    assert!(input.is_empty());

    assert_eq!(link.value.uri.scheme(), "http");
    assert_eq!(link.value.uri.host().unwrap().to_string(), "example.com");
}

#[test]
fn raw_link_should_support_https_scheme() {
    let src = to_chars("https://example.com");
    let (input, link) = raw_link(Span::new(&src)).expect("Failed to parse uri");

    // Link should be consumed
    assert!(input.is_empty());

    assert_eq!(link.value.uri.scheme(), "https");
    assert_eq!(link.value.uri.host().unwrap().to_string(), "example.com");
}

#[test]
fn raw_link_should_support_no_scheme_with_www() {
    let src = to_chars("www.example.com");
    let (input, link) = raw_link(Span::new(&src)).expect("Failed to parse uri");

    // Link should be consumed
    assert!(input.is_empty());

    assert_eq!(link.value.uri.scheme(), "https");
    assert_eq!(link.value.uri.host().unwrap().to_string(), "www.example.com");
}

#[test]
fn raw_link_should_support_ftp_scheme() {
    let src = to_chars("ftp://example.com");
    let (input, link) = raw_link(Span::new(&src)).expect("Failed to parse uri");

    // Link should be consumed
    assert!(input.is_empty());

    assert_eq!(link.value.uri.scheme(), "ftp");
    assert_eq!(link.value.uri.host().unwrap().to_string(), "example.com");
}

#[test]
fn raw_link_should_support_file_scheme() {
    let src = to_chars("file:///some/path");
    let (input, link) = raw_link(Span::new(&src)).expect("Failed to parse uri");

    // Link should be consumed
    assert!(input.is_empty());

    assert_eq!(link.value.uri.scheme(), "file");
    assert_eq!(link.value.uri.path(), "/some/path");
}

#[test]
fn raw_link_should_support_local_scheme() {
    let src = to_chars("local:///some/path");
    let (input, link) = raw_link(Span::new(&src)).expect("Failed to parse uri");

    // Link should be consumed
    assert!(input.is_empty());

    assert_eq!(link.value.uri.scheme(), "local");
    assert_eq!(link.value.uri.path(), "/some/path");
}

#[test]
fn raw_link_should_support_mailto_scheme() {
    let src = to_chars("mailto:person@example.com");
    let (input, link) = raw_link(Span::new(&src)).expect("Failed to parse uri");

    // Link should be consumed
    assert!(input.is_empty());

    assert_eq!(link.value.uri.scheme(), "mailto");
    assert_eq!(link.value.uri.path(), "person@example.com");
}

#[test]
fn raw_link_rejects_other_schemes_and_stops_at_whitespace() {
    for bad in ["tag:something", "ssh://example.com", "note:", "http:", ":x"] {
        let src = to_chars(bad);
        assert!(raw_link(Span::new(&src)).is_err(), "{:?}", bad);
    }
    let src = to_chars("https://example.com/a?b=c#d and more");
    let (rest, link) = raw_link(Span::new(&src)).unwrap();
    assert_eq!(rest.to_text(), " and more");
    assert_eq!(link.value.uri.query(), Some("b=c"));
    assert_eq!(link.value.uri.fragment(), Some("d"));
    assert_eq!(link.value.uri.authority(), Some("example.com"));
    assert_eq!(link.value.uri.port(), None);
    assert_eq!(link.region().len, 27);
}

#[test]
fn wiki_link_with_anchor_and_description_has_its_region() {
    let src = to_chars("x [[Todo List#Tomorrow|Tasks for tomorrow]] y");
    let input = Span::new(&src).advance(2);
    let (rest, link) = wiki_link(input).unwrap();
    assert_eq!(rest.to_text(), " y");
    assert_eq!(link.value.path(), "Todo List");
    assert_eq!(link.value.anchor, Some(anchor_of(&["Tomorrow"])));
    assert_eq!(link.value.description, Some(text("Tasks for tomorrow")));
    let r = link.region();
    assert_eq!((r.offset, r.len), (2, 41));
    assert_eq!((r.start_line, r.start_col, r.end_line, r.end_col), (1, 3, 1, 43));
}

#[test]
fn wiki_link_parts_are_taken_as_the_grammar_says() {
    // an anchor without segments
    let src = to_chars("[[page#]]");
    let (_, l) = wiki_link(Span::new(&src)).unwrap();
    assert_eq!(l.value.anchor, Some(anchor_of(&[])));
    // a `#` that no segment follows ends the anchor, and the link is not closed
    let src = to_chars("[[page#a#]]");
    assert!(wiki_link(Span::new(&src)).is_err());
    // a description must not be empty
    let src = to_chars("[[page|]]");
    assert!(wiki_link(Span::new(&src)).is_err());
    let src = to_chars("[[]]");
    assert!(wiki_link(Span::new(&src)).is_err());
    let src = to_chars("[[|text]]");
    assert!(wiki_link(Span::new(&src)).is_err());
    // a description that is not a URI in braces stays text
    let src = to_chars("[[page|{{not a uri}}]]");
    let (_, l) = wiki_link(Span::new(&src)).unwrap();
    assert_eq!(l.value.description, Some(text("{{not a uri}}")));
    let src = to_chars("[[page|{{https://e.com/i.png}} x]]");
    let (_, l) = wiki_link(Span::new(&src)).unwrap();
    assert_eq!(
        l.value.description,
        Some(Description::Uri(Uri::parse("https://e.com/i.png").unwrap()))
    );

    let src = to_chars("a#b|c]]");
    let (rest, l) = wiki_link_internal(Span::new(&src)).unwrap();
    assert_eq!(rest.to_text(), "]]");
    assert_eq!(l, WikiLink::new(Cow::from("a"), Some(text("c")), Some(anchor_of(&["b"]))));
    let src = to_chars("#x#y|z");
    let (rest, a) = anchor(Span::new(&src)).unwrap();
    assert_eq!(rest.to_text(), "|z");
    assert_eq!(a, anchor_of(&["x", "y"]));
    let (rest, d) = description(rest).unwrap();
    assert!(rest.is_empty());
    assert_eq!(d, text("z"));
}

#[test]
fn inter_wiki_link_needs_a_number_or_a_name() {
    for bad in ["[[wiki:page]]", "[[wikix:page]]", "[[wiki-1:page]]", "[[wn.:page]]", "[[page]]",
        "[[wiki99999999999:page]]", "[[wiki1]]"]
    {
        let src = to_chars(bad);
        assert!(inter_wiki_link(Span::new(&src)).is_err(), "{:?}", bad);
    }
    let src = to_chars("[[wiki042:a:b]]");
    let (_, l) = inter_wiki_link(Span::new(&src)).unwrap();
    assert_eq!(l.value.index(), Some(42));
    assert_eq!(l.value.link().path(), "a:b");
    assert_eq!(l.value.name(), None);
    assert!(matches!(l.value, InterWikiLink::Indexed(_)));

    assert_eq!(parse_index_from_path("wiki+7:x"), Some(("x".to_string(), 7)));
    assert_eq!(parse_index_from_path("wiki4294967295:"), Some((String::new(), 4294967295)));
    assert_eq!(parse_index_from_path("wiki4294967296:x"), None);
    assert_eq!(parse_index_from_path("wn.a:x"), None);
    assert_eq!(parse_name_from_path("wn.a b:x:y"), Some(("x:y".to_string(), "a b".to_string())));
    assert_eq!(parse_name_from_path("wn.ab"), None);
    assert_eq!(parse_name_from_path("wiki1:x"), None);
}

#[test]
fn numbers_are_read_as_decimal() {
    let read = |s: &str| parse_u32(&to_chars(s));
    assert_eq!(read("0"), Some(0));
    assert_eq!(read("007"), Some(7));
    assert_eq!(read("+12"), Some(12));
    assert_eq!(read("4294967295"), Some(u32::MAX));
    assert_eq!(read("4294967296"), None);
    assert_eq!(read("99999999999999999999999"), None);
    for bad in ["", "+", "-1", "1a", " 1", "1 ", "++1", "٣"] {
        assert_eq!(read(bad), None, "{:?}", bad);
    }
}

#[test]
fn diary_link_reads_the_date_with_chrono() {
    assert_eq!(parse_date_from_path("diary:2012-03-05"), Some(Date::new(2012, 3, 5)));
    assert_eq!(parse_date_from_path("diary:2020-02-29"), Some(Date::new(2020, 2, 29)));
    for bad in ["diary:2021-02-29", "diary:2012-13-01", "diary:", "diary:today", "2012-03-05",
        "Diary:2012-03-05", "diary:2012/03/05"]
    {
        assert_eq!(parse_date_from_path(bad), None, "{:?}", bad);
    }
    assert_eq!(Date::parse("2012-03-05"), Some(Date::new(2012, 3, 5)));
    assert_eq!(Date::parse("2012-03-05").map(|d| (d.year(), d.month(), d.day())), Some((2012, 3, 5)));
    assert_eq!(Date::parse("not a date"), None);
}

#[test]
fn external_file_link_is_classified_by_its_scheme() {
    let src = to_chars("[[file:/home/a b/c.txt|The file]]");
    let (rest, l) = external_file_link(Span::new(&src)).unwrap();
    assert!(rest.is_empty());
    assert_eq!(l.value.scheme, ExternalFileLinkScheme::File);
    assert_eq!(l.value.path, "/home/a b/c.txt");
    assert_eq!(l.value.description, Some(text("The file")));

    let src = to_chars("[[local:rel/path]]");
    let (_, l) = external_file_link(Span::new(&src)).unwrap();
    assert_eq!(l.value.scheme, ExternalFileLinkScheme::Local);
    assert_eq!(l.value.path, "rel/path");
    assert_eq!(l.value.description, None);

    let src = to_chars("[[//abs/path]]");
    let (_, l) = external_file_link(Span::new(&src)).unwrap();
    assert_eq!(l.value.scheme, ExternalFileLinkScheme::Absolute);
    assert_eq!(l.value.path, "/abs/path");

    for bad in ["[[file:]]", "[[page]]", "[[/abs]]", "[[local:x", "[[file:x|]]", "file:x"] {
        let src = to_chars(bad);
        assert!(external_file_link(Span::new(&src)).is_err(), "{:?}", bad);
    }
}

#[test]
fn transclusion_link_has_a_uri_a_description_and_properties() {
    let src = to_chars("{{https://example.com/img.jpg}}");
    let (rest, l) = transclusion_link(Span::new(&src)).unwrap();
    assert!(rest.is_empty());
    assert_eq!(l.value.uri.path(), "/img.jpg");
    assert_eq!(l.value.description, None);
    assert!(l.value.properties.is_empty());

    let src =
        to_chars("{{file:../i.png|An image|style=\"width:150px\"|class=\"big\"|class=\"center\"}} x");
    let (rest, l) = transclusion_link(Span::new(&src)).unwrap();
    assert_eq!(rest.to_text(), " x");
    assert_eq!(l.value.uri.scheme(), "file");
    assert_eq!(l.value.description, Some(text("An image")));
    assert_eq!(l.value.properties.len(), 2);
    assert_eq!(l.value.properties.get("style"), Some(&Cow::from("width:150px")));
    assert_eq!(l.value.properties.get("class"), Some(&Cow::from("center")));

    // no description, and properties all the same
    let src = to_chars("{{www.example.com/i.png||style=\"\"}}");
    let (_, l) = transclusion_link(Span::new(&src)).unwrap();
    assert_eq!(l.value.uri.scheme(), "https");
    assert_eq!(l.value.description, None);
    assert_eq!(l.value.properties.get("style"), Some(&Cow::from("")));

    for bad in ["{{}}", "{{not a uri}}", "{{https://e.com", "{{https://e.com|a|b}}",
        "{{https://e.com|a|k=\"v}}", "{{https://e.com\n}}"]
    {
        let src = to_chars(bad);
        assert!(transclusion_link(Span::new(&src)).is_err(), "{:?}", bad);
    }
}

#[test]
fn link_takes_the_most_specific_kind_that_matches() {
    let kind = |s: &str| {
        let src = to_chars(s);
        let (rest, l) = link(Span::new(&src)).unwrap();
        assert!(rest.is_empty(), "{:?}", s);
        match l.value {
            Link::Wiki(_) => "wiki",
            Link::InterWiki(_) => "interwiki",
            Link::Diary(_) => "diary",
            Link::Raw(_) => "raw",
            Link::ExternalFile(_) => "file",
            Link::Transclusion(_) => "transclusion",
        }
    };
    assert_eq!(kind("[[diary:2012-03-05]]"), "diary");
    // not a date: an ordinary wiki link
    assert_eq!(kind("[[diary:2012/03/05]]"), "wiki");
    assert_eq!(kind("[[wiki1:This is a link]]"), "interwiki");
    assert_eq!(kind("[[wn.name:page]]"), "interwiki");
    assert_eq!(kind("[[wiki:page]]"), "wiki");
    assert_eq!(kind("[[file:a.txt]]"), "file");
    assert_eq!(kind("[[page#a|b]]"), "wiki");
    assert_eq!(kind("{{https://example.com/i.png}}"), "transclusion");
    assert_eq!(kind("mailto:a@example.com"), "raw");
    let src = to_chars("plain text");
    assert!(link(Span::new(&src)).is_err());

    let src = to_chars("[[diary:2012/03/05]]");
    let (_, l) = link(Span::new(&src)).unwrap();
    match l.value {
        Link::Wiki(w) => assert_eq!(w.path(), "diary:2012/03/05"),
        other => panic!("unexpected link {:?}", other),
    }
}
