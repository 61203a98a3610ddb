use std::borrow::Cow;
use vimwiki::elements::blocks::Placeholder;
use vimwiki::elements::date::Date;
use vimwiki::parsers::blocks::placeholders::{
    placeholder, placeholder_date, placeholder_nohtml, placeholder_other, placeholder_template,
    placeholder_title,
};
use vimwiki::span::Span;
use vimwiki::text::to_chars;

#[test]
fn placeholder_should_fail_if_input_empty() {
    let src = to_chars("");
    assert!(placeholder(Span::new(&src)).is_err());
}

#[test]
fn placeholder_should_fail_title_with_no_text() {
    let src = to_chars("%title");
    assert!(placeholder(Span::new(&src)).is_err());
}

#[test]
fn placeholder_should_succeed_if_title_with_text_input() {
    let src = to_chars("%title some title");
    let (input, placeholder) = placeholder(Span::new(&src)).unwrap();
    assert!(input.is_empty(), "Did not consume placeholder");
    assert_eq!(placeholder.value, Placeholder::Title(Cow::from("some title".to_string())));
}

#[test]
fn placeholder_should_fail_if_nohtml_with_text() {
    let src = to_chars("%nohtml something");
    assert!(placeholder(Span::new(&src)).is_err());
}

#[test]
fn placeholder_should_succeed_if_nohtml_with_no_text_input() {
    let src = to_chars("%nohtml");
    let (input, placeholder) = placeholder(Span::new(&src)).unwrap();
    assert!(input.is_empty(), "Did not consume placeholder");
    assert_eq!(placeholder.value, Placeholder::NoHtml);
}

#[test]
fn placeholder_should_fail_if_template_with_no_text() {
    let src = to_chars("%template");
    assert!(placeholder(Span::new(&src)).is_err());
}

#[test]
fn placeholder_should_succeed_if_template_with_text_input() {
    let src = to_chars("%template my_template");
    let (input, placeholder) = placeholder(Span::new(&src)).unwrap();
    assert!(input.is_empty(), "Did not consume placeholder");
    assert_eq!(placeholder.value, Placeholder::Template(Cow::from("my_template".to_string())),);
}

#[test]
fn placeholder_should_fail_if_date_with_no_text() {
    let src = to_chars("%date");
    assert!(placeholder(Span::new(&src)).is_err());
}

#[test]
fn placeholder_should_fail_if_date_with_non_date_input() {
    let src = to_chars("%date something");
    assert!(placeholder(Span::new(&src)).is_err());
}

#[test]
fn placeholder_should_succeed_if_date_with_date_input() {
    let src = to_chars("%date 2012-03-05");
    let (input, placeholder) = placeholder(Span::new(&src)).unwrap();
    assert!(input.is_empty(), "Did not consume placeholder");
    assert_eq!(placeholder.value, Placeholder::Date(Date::new(2012, 3, 5)),);
}

#[test]
fn placeholder_fallback_should_fail_if_double_percent_at_start() {
    let src = to_chars("%%other something else");
    assert!(placeholder(Span::new(&src)).is_err());
}

#[test]
fn placeholder_fallback_should_fail_if_no_space_between_name_and_value() {
    let src = to_chars("%othervalue");
    assert!(placeholder(Span::new(&src)).is_err());
}

#[test]
fn placeholder_fallback_should_fail_if_no_name_provided() {
    let src = to_chars("% value");
    assert!(placeholder(Span::new(&src)).is_err());
}

#[test]
fn placeholder_fallback_should_fail_if_percent_found_in_name() {
    let src = to_chars("%oth%er value");
    assert!(placeholder(Span::new(&src)).is_err());
}

#[test]
fn placeholder_fallback_should_fail_if_percent_found_at_end_of_name() {
    let src = to_chars("%other% value");
    assert!(placeholder(Span::new(&src)).is_err());
}

#[test]
fn placeholder_fallback_should_fail_if_no_value_after_name() {
    let src = to_chars("%other");
    assert!(placeholder(Span::new(&src)).is_err());
}

#[test]
fn placeholder_fallback_should_succeed_if_percent_followed_by_name_space_and_value() {
    let src = to_chars("%other something else");
    let (input, placeholder) = placeholder(Span::new(&src)).unwrap();
    assert!(input.is_empty(), "Did not consume placeholder");
    assert_eq!(
        placeholder.value,
        Placeholder::Other {
            name: Cow::from("other".to_string()),
            value: Cow::from("something else".to_string())
        },
    );
}

#[test]
fn placeholder_takes_its_line_with_the_terminator() {
    let src = to_chars("%title  A title \r\nnext");
    let (rest, p) = placeholder(Span::new(&src)).unwrap();
    assert_eq!(rest.to_text(), "next");
    // the value is what stands after the spaces, as it stands, without
    // the line terminator
    assert_eq!(p.value, Placeholder::Title(Cow::from("A title ")));
    let r = p.region();
    assert_eq!((r.offset, r.len), (0, 18));
    assert_eq!((r.start_line, r.start_col, r.end_line, r.end_col), (1, 1, 1, 18));

    // not at the start of a line
    let src = to_chars(" %nohtml");
    assert!(placeholder(Span::new(&src).advance(1)).is_err());
    // a blank value
    let src = to_chars("%title   \t");
    assert!(placeholder(Span::new(&src)).is_err());
    let src = to_chars("%nohtml  \nx");
    let (rest, p) = placeholder(Span::new(&src)).unwrap();
    assert_eq!(rest.to_text(), "x");
    assert_eq!(p.value, Placeholder::NoHtml);
}

#[test]
fn placeholder_forms_are_told_apart_by_their_names() {
    let src = to_chars("%title a\nrest");
    let (rest, p) = placeholder_title(Span::new(&src)).unwrap();
    assert_eq!(rest.to_text(), "\nrest");
    assert_eq!(p, Placeholder::Title(Cow::from("a")));
    assert!(placeholder_template(Span::new(&src)).is_err());
    assert!(placeholder_nohtml(Span::new(&src)).is_err());
    assert!(placeholder_date(Span::new(&src)).is_err());
    // a name that a known one begins is not a name of its own
    assert!(placeholder_other(Span::new(&src)).is_err());
    let src = to_chars("%titles a");
    assert!(placeholder_other(Span::new(&src)).is_err());
    let src = to_chars("%dat 2012-03-05");
    let (_, p) = placeholder_other(Span::new(&src)).unwrap();
    assert_eq!(p, Placeholder::Other { name: Cow::from("dat"), value: Cow::from("2012-03-05") });
    let src = to_chars("%date 2012-03-05 ");
    assert!(placeholder_date(Span::new(&src)).is_err());
    let src = to_chars("%date\t2012-02-30");
    assert!(placeholder_date(Span::new(&src)).is_err());
    let src = to_chars("%template\tt");
    let (_, p) = placeholder_template(Span::new(&src)).unwrap();
    assert_eq!(p, Placeholder::Template(Cow::from("t")));
}
