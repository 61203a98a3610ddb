use std::borrow::Cow;
use vimwiki::error::ErrorKind;
use vimwiki::elements::code::CodeBlock;
use vimwiki::elements::metadata::{Metadata, Property};
use vimwiki::parsers::blocks::code::{code_block, code_block_end, code_block_start};
use vimwiki::span::Span;
use vimwiki::text::to_chars;

fn lines_of<'a>(b: &'a CodeBlock<'a>) -> Vec<&'a str> {
    b.lines.iter().map(AsRef::as_ref).collect::<Vec<&str>>()
}

#[test]
fn code_block_should_fail_if_does_not_have_starting_line() {
    let src = to_chars("some code\n}}}\n");
    assert!(code_block(Span::new(&src)).is_err());
}

#[test]
fn code_block_should_fail_if_starting_block_not_on_own_line() {
    let src = to_chars("{{{some code\n}}}\n");
    assert!(code_block(Span::new(&src)).is_err());
}

#[test]
fn code_block_should_fail_if_does_not_have_ending_line() {
    let src = to_chars("{{{\nsome code\n");
    assert!(code_block(Span::new(&src)).is_err());
}

#[test]
fn code_block_should_fail_if_ending_block_not_on_own_line() {
    let src = to_chars("{{{\nsome code}}}\n");
    assert!(code_block(Span::new(&src)).is_err());
}

#[test]
fn code_block_should_support_having_no_lines() {
    let src = to_chars("{{{\n}}}\n");
    let (input, p) = code_block(Span::new(&src)).unwrap();
    assert!(input.is_empty(), "Did not consume code block");
    assert!(p.value.lang.is_none(), "Has unexpected language");
    assert!(p.value.lines.is_empty(), "Has unexpected lines");
    assert!(p.value.metadata.is_empty(), "Has unexpected metadata");
}

#[test]
fn code_block_should_support_lang_shorthand() {
    let src = to_chars("{{{c++\nsome code\n}}}\n");
    let (input, p) = code_block(Span::new(&src)).unwrap();
    assert!(input.is_empty(), "Did not consume code block");
    assert_eq!(p.value.lang.as_deref(), Some("c++"));
    assert_eq!(lines_of(&p.value), vec!["some code"]);
    assert!(p.value.metadata.is_empty(), "Has unexpected metadata");
}

#[test]
fn code_block_should_support_lang_shorthand_with_metadata() {
    let src = to_chars("{{{c++ key=\"value\"\nsome code\n}}}\n");
    let (input, p) = code_block(Span::new(&src)).unwrap();
    assert!(input.is_empty(), "Did not consume code block");
    assert_eq!(p.value.lang.as_deref(), Some("c++"));
    assert_eq!(lines_of(&p.value), vec!["some code"]);
    assert_eq!(p.value.metadata.get("key"), Some(&Cow::from("value")));
}

#[test]
fn code_block_should_parse_all_lines_between() {
    let src = to_chars(
        "{{{\nTyger! Tyger! burning bright\n In the forests of the night,\n  What immortal hand or eye\n   Could frame thy fearful symmetry?\nIn what distant deeps or skies\n Burnt the fire of thine eyes?\n  On what wings dare he aspire?\n   What the hand dare sieze the fire?\n}}}\n",
    );
    let (input, p) = code_block(Span::new(&src)).unwrap();
    assert!(input.is_empty(), "Did not consume code block");
    assert_eq!(
        lines_of(&p.value),
        vec![
            "Tyger! Tyger! burning bright",
            " In the forests of the night,",
            "  What immortal hand or eye",
            "   Could frame thy fearful symmetry?",
            "In what distant deeps or skies",
            " Burnt the fire of thine eyes?",
            "  On what wings dare he aspire?",
            "   What the hand dare sieze the fire?",
        ]
    );
    assert!(p.value.lang.is_none(), "Has unexpected language");
    assert!(p.value.metadata.is_empty(), "Has unexpected metadata");
}

#[test]
fn code_block_should_support_single_metadata() {
    let src = to_chars(
        "{{{class=\"brush: python\"\ndef hello(world):\n    for x in range(10):\n        print(\"Hello {0} number {1}\".format(world, x))\n}}}\n",
    );
    let (input, p) = code_block(Span::new(&src)).unwrap();
    assert!(input.is_empty(), "Did not consume code block");
    assert_eq!(
        lines_of(&p.value),
        vec![
            r#"def hello(world):"#,
            r#"    for x in range(10):"#,
            r#"        print("Hello {0} number {1}".format(world, x))"#,
        ]
    );
    assert_eq!(p.value.metadata.get("class"), Some(&Cow::from("brush: python")));
}

#[test]
fn code_block_should_support_multiple_metadata() {
    let src = to_chars(
        "{{{class=\"brush: python\" style=\"position: relative\"\ndef hello(world):\n    for x in range(10):\n        print(\"Hello {0} number {1}\".format(world, x))\n}}}\n",
    );
    let (input, p) = code_block(Span::new(&src)).unwrap();
    assert!(input.is_empty(), "Did not consume code block");
    assert_eq!(
        lines_of(&p.value),
        vec![
            r#"def hello(world):"#,
            r#"    for x in range(10):"#,
            r#"        print("Hello {0} number {1}".format(world, x))"#,
        ]
    );
    assert!(p.value.lang.is_none(), "Has unexpected language");
    assert_eq!(p.value.metadata.get("class"), Some(&Cow::from("brush: python")));
    assert_eq!(p.value.metadata.get("style"), Some(&Cow::from("position: relative")));
}

#[test]
fn code_block_region_covers_all_that_was_consumed() {
    let src = to_chars("{{{c++\nsome code\n}}}\nafter");
    let (rest, p) = code_block(Span::new(&src)).unwrap();
    assert_eq!(rest.to_text(), "after");
    let r = p.region();
    assert_eq!((r.offset, r.len), (0, 21));
    assert_eq!((r.start_line, r.start_col, r.end_line, r.end_col), (1, 1, 3, 4));
}

#[test]
fn code_block_fences_may_be_indented_and_end_the_input() {
    let src = to_chars("  {{{  \r\n\r\n  x\r\n  }}}  ");
    let (rest, p) = code_block(Span::new(&src)).unwrap();
    assert!(rest.is_empty());
    // a line terminator of two characters is no part of the line
    assert_eq!(lines_of(&p.value), vec!["", "  x"]);
}

#[test]
fn code_block_start_and_end_lines() {
    let src = to_chars("{{{rust a=\"1\"  b=\"\"\nx");
    let (rest, (lang, pairs)) = code_block_start(Span::new(&src)).unwrap();
    assert_eq!(rest.to_text(), "x");
    assert_eq!(lang.as_deref(), Some("rust"));
    let pairs: Vec<(&str, &str)> =
        pairs.iter().map(|p| (p.key.as_ref(), p.value.as_ref())).collect();
    assert_eq!(pairs, vec![("a", "1"), ("b", "")]);

    for bad in ["{{{a=b", "{{{ a=\"1\" junk", "{{{rust a=\"1", "x{{{", "{{"] {
        let src = to_chars(bad);
        assert!(code_block_start(Span::new(&src)).is_err(), "{:?}", bad);
    }
    let src = to_chars(" }}} \nx");
    let (rest, _) = code_block_end(Span::new(&src)).unwrap();
    assert_eq!(rest.to_text(), "x");
    for bad in ["}}} x", "}}", "x}}}"] {
        let src = to_chars(bad);
        assert!(code_block_end(Span::new(&src)).is_err(), "{:?}", bad);
    }
}

#[test]
fn code_block_metadata_takes_the_later_of_two_values_for_a_key() {
    let src = to_chars("{{{k=\"1\" j=\"2\" k=\"3\"\n}}}");
    let (_, p) = code_block(Span::new(&src)).unwrap();
    assert_eq!(p.value.metadata.len(), 2);
    assert_eq!(p.value.metadata.get("k"), Some(&Cow::from("3")));
    assert_eq!(p.value.metadata.get("j"), Some(&Cow::from("2")));
    assert_eq!(p.value.metadata.get("x"), None);
    assert_eq!(p.value.metadata.entry(0), ("k", "3"));
}

#[test]
fn code_block_conversions_keep_what_the_block_holds() {
    let mut metadata = Metadata::new();
    metadata.insert(Cow::from("a".to_string()), Cow::from("1"));
    metadata.insert(Cow::from("b"), Cow::from("2".to_string()));
    let block = CodeBlock::new(
        Some(Cow::from("rust".to_string())),
        metadata,
        vec![Cow::from("one"), Cow::from("two".to_string())],
    );
    let borrowed = block.to_borrowed();
    assert!(matches!(borrowed.lang, Some(Cow::Borrowed("rust"))));
    assert!(borrowed.lines.iter().all(|l| matches!(l, Cow::Borrowed(_))));
    assert_eq!((borrowed.lines.len(), borrowed.metadata.len()), (2, 2));
    for i in 0..borrowed.metadata.len() {
        let p = borrowed.metadata.property(i);
        assert!(matches!(p.key, Cow::Borrowed(_)) && matches!(p.value, Cow::Borrowed(_)));
        assert_eq!(p, block.metadata.property(i));
    }
    assert!(matches!(borrowed.metadata.get("a"), Some(Cow::Borrowed("1"))));
    assert!(matches!(borrowed.metadata.get("b"), Some(Cow::Borrowed("2"))));
    assert!(matches!(block.metadata.property(0).key, Cow::Owned(_)));
    assert_eq!(borrowed, block);
    assert!(borrowed.strict_eq(&block));
    let owned = borrowed.into_owned();
    assert!(matches!(owned.lang, Some(Cow::Owned(_))));
    assert!(owned.lines.iter().all(|l| matches!(l, Cow::Owned(_))));
    for i in 0..owned.metadata.len() {
        let p = owned.metadata.property(i);
        assert!(matches!(p.key, Cow::Owned(_)) && matches!(p.value, Cow::Owned(_)));
    }
    assert!(matches!(owned.metadata.get("a"), Some(Cow::Owned(_))));
    let copy = block.owned_copy();
    assert!(matches!(copy.metadata.property(1).key, Cow::Owned(_)));
    assert!(matches!(copy.metadata.property(0).value, Cow::Owned(_)));
    assert_eq!(owned, block);
    assert!(owned.strict_eq(&block));
    let other = block.clone().into_owned();
    let back = other.to_borrowed();
    assert_eq!(back, block);

    let plain = CodeBlock::from_lines(vec![Cow::from("one"), Cow::from("two")]);
    assert!(plain.lang.is_none());
    assert!(plain.metadata.is_empty());
    assert_eq!(lines_of(&plain), vec!["one", "two"]);
    assert!(!plain.strict_eq(&block));
    assert_ne!(plain, block);
}

#[test]
fn metadata_is_equal_whatever_the_order_of_its_keys() {
    let a = Metadata::from_pairs(vec![
        Property::new(Cow::from("x"), Cow::from("1")),
        Property::new(Cow::from("y"), Cow::from("2")),
    ]);
    let b = Metadata::from_pairs(vec![
        Property::new(Cow::from("y"), Cow::from("0")),
        Property::new(Cow::from("y"), Cow::from("2")),
        Property::new(Cow::from("x".to_string()), Cow::from("1")),
    ]);
    assert_eq!(a, b);
    assert!(a.same_as(&b) && a.is_within(&b));
    let c = Metadata::from_pairs(vec![Property::new(Cow::from("x"), Cow::from("1"))]);
    assert!(c.is_within(&a) && !a.is_within(&c));
    assert_ne!(a, c);
    assert_eq!(b.entry(0), ("y", "2"));
    assert_eq!(b.to_borrowed(), b.clone().into_owned());
}

#[test]
fn code_block_written_out_is_read_back() {
    let source = "{{{rust class=\"brush: rust\" style=\"a=b\"\nfn main() {\n}\n  }}} not the end\n\n}}}\n";
    let src = to_chars(source);
    let (_, first) = code_block(Span::new(&src)).unwrap();
    let text = first.value.to_text();
    assert_eq!(text, source);
    let again = to_chars(&text);
    let (rest, second) = code_block(Span::new(&again)).unwrap();
    assert!(rest.is_empty());
    assert_eq!(second.value, first.value);
    assert_eq!(lines_of(&second.value), vec!["fn main() {", "}", "  }}} not the end", ""]);
    assert!(second.value.strict_eq(&first.value));

    // written out, the parts stand in one form, whatever form they were read from
    let src = to_chars("  {{{c++   b=\"2\"  a=\"1\"  b=\"3\" \nx\r\n }}} \n");
    let (_, first) = code_block(Span::new(&src)).unwrap();
    let text = first.value.to_text();
    assert_eq!(lines_of(&first.value), vec!["x"]);
    assert_eq!(text, "{{{c++ b=\"3\" a=\"1\"\nx\n}}}\n");
    let again = to_chars(&text);
    let (_, second) = code_block(Span::new(&again)).unwrap();
    assert_eq!(second.value, first.value);
    assert_eq!(second.value.metadata.get("b"), Some(&Cow::from("3")));

    let plain = CodeBlock::from_lines(vec![Cow::from("a"), Cow::from(" b ")]);
    assert_eq!(plain.to_text(), "{{{\na\n b \n}}}\n");
    let again = to_chars(&plain.to_text());
    assert_eq!(code_block(Span::new(&again)).unwrap().1.value, plain);
}

#[test]
fn code_block_that_cannot_be_written_is_not_read_back() {
    // a language tag that ends in a carriage return, with the end of the
    // line after it
    let src = to_chars("{{{c\r \n}}}\n");
    let (_, first) = code_block(Span::new(&src)).unwrap();
    assert_eq!(first.value.lang.as_deref(), Some("c\r"));
    let text = first.value.to_text();
    assert_eq!(text, "{{{c\r\n}}}\n");
    let again = to_chars(&text);
    let (_, second) = code_block(Span::new(&again)).unwrap();
    assert_eq!(second.value.lang.as_deref(), Some("c"));

    // a line that ends in a carriage return, which the line feed written
    // after it joins to one line terminator
    let src = to_chars("{{{\nx\r\r\n}}}\n");
    let (_, first) = code_block(Span::new(&src)).unwrap();
    assert_eq!(lines_of(&first.value), vec!["x\r"]);
    let text = first.value.to_text();
    assert_eq!(text, "{{{\nx\r\n}}}\n");
    let again = to_chars(&text);
    let (_, second) = code_block(Span::new(&again)).unwrap();
    assert_eq!(lines_of(&second.value), vec!["x"]);

    // a line that holds the closing fence alone
    let made = CodeBlock::from_lines(vec![Cow::from("a"), Cow::from("}}}"), Cow::from("b")]);
    let again = to_chars(&made.to_text());
    let (rest, second) = code_block(Span::new(&again)).unwrap();
    assert_eq!(lines_of(&second.value), vec!["a"]);
    assert_eq!(rest.to_text(), "b\n}}}\n");
}

#[test]
fn code_block_failure_names_its_place_and_the_parsers_at_work() {
    let src = to_chars("x\n{{{\nabc");
    let input = Span::new(&src).advance(2);
    let e = code_block(input).unwrap_err();
    assert_eq!(e.kind(), ErrorKind::Mismatch);
    assert!(e.is_recoverable());
    // the failure lies where the lines begin that no fence closes
    assert_eq!((e.offset, e.line, e.column), (6, 3, 1));
    assert_eq!(e.contexts, vec!["LE", "Preformatted Text"]);
    assert_eq!(e.message(), "No closing fence");
}
