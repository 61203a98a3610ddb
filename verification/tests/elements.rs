use std::borrow::Cow;
use std::convert::TryInto;
use vimwiki::elements::blocks::{BlockElement, Paragraph};
use vimwiki::elements::inline::{
    DecoratedText, Decoration, InlineElement, InlineElementContainer, Keyword, KeywordKind, Text,
};
use vimwiki::elements::links::{Anchor, Description, Link, WikiLink};
use vimwiki::elements::page::{Element, Page};
use vimwiki::lang::RawStr;
use vimwiki::located::Located;
use vimwiki::region::Region;
use vimwiki::text::{
    borrow_text, borrow_texts, clone_text, own_text, own_texts, string_from_chars, text_eq,
    texts_eq, to_chars,
};

const SOURCE: &str = "= Header =\n%title A page\n%date 2020-02-29\nterm:: definition\n:: another\n- a [[link#anchor|text]] and [[wiki1:other]]\n  1. deeper *bold _italic_ TODO* $x^2$\n|cell|{{https://e.com/i.png|image|style=\"w:1\"}}|\n|----|---|\n> quote\n----\n{{{rust k=\"v\"\nfn main() {}\n}}}\n{{$%align%\na &= b\n}}$\n\nA paragraph with :tags: and [[diary:2020-02-29]]\n[[file:a.txt]] https://example.com ~~gone~~ ^up^ ,,down,,\n   stray\n";

fn parse(source: &str) -> Located<Page<'static>> {
    RawStr::Vimwiki(source).try_into().expect("Failed to parse")
}

#[test]
fn borrowing_and_owning_keep_every_element() {
    let page = parse(SOURCE);
    assert_eq!(page.value.elements.len(), 12);
    let borrowed = page.value.to_borrowed();
    assert_eq!(borrowed, page.value);
    let owned = borrowed.into_owned();
    assert_eq!(owned, page.value);
    for block in &page.value.elements {
        let borrowed = block.value.to_borrowed();
        assert_eq!(borrowed, block.value, "{:?}", block.value);
        let owned: BlockElement<'static> = borrowed.into_owned();
        assert_eq!(owned, block.value);
        // the other way round
        let owned = block.value.owned_copy();
        let reborrowed = owned.to_borrowed();
        assert_eq!(reborrowed, block.value);
        let element = Element::Block(block.value.owned_copy());
        assert_eq!(element.to_borrowed().into_owned(), element);
        assert_eq!(element.clone(), element);
        for child in block.value.children() {
            let inline: &InlineElement = &child.value;
            assert_eq!(inline.to_borrowed().into_owned(), *inline);
            assert_eq!(inline.owned_copy().to_borrowed(), *inline);
            assert_eq!(inline.clone(), *inline);
        }
    }
}

#[test]
fn borrowed_and_owned_text_are_equal() {
    let owned = InlineElement::Text(Text::from_string("same".to_string()));
    let borrowed = InlineElement::Text(Text::from_str("same"));
    assert_eq!(owned, borrowed);
    assert!(matches!(owned.to_borrowed(), InlineElement::Text(Text { text: Cow::Borrowed("same") })));
    assert!(matches!(borrowed.into_owned(), InlineElement::Text(Text { text: Cow::Owned(_) })));
    assert_ne!(owned, InlineElement::Text(Text::from_str("other")));

    let c: Cow<str> = Cow::Owned("x".to_string());
    assert!(matches!(borrow_text(&c), Cow::Borrowed("x")));
    assert!(matches!(own_text(Cow::Borrowed("x")), Cow::Owned(_)));
    assert!(matches!(clone_text(&Cow::Borrowed("x")), Cow::Borrowed("x")));
    assert!(matches!(clone_text(&c), Cow::Owned(_)));
    let list = vec![Cow::Borrowed("a"), Cow::Owned("b".to_string())];
    assert!(borrow_texts(&list).iter().all(|t| matches!(t, Cow::Borrowed(_))));
    assert!(own_texts(list.clone()).iter().all(|t| matches!(t, Cow::Owned(_))));
    assert!(texts_eq(&borrow_texts(&list), &own_texts(list.clone())));
    assert!(!texts_eq(&list, &vec![Cow::Borrowed("a")]));
    assert!(!texts_eq(&list, &vec![Cow::Borrowed("a"), Cow::Borrowed("c")]));
    assert!(text_eq("é", "é") && !text_eq("e", "é"));
    assert_eq!(to_chars("a✓é"), vec!['a', '✓', 'é']);
    assert_eq!(string_from_chars(&['a', '✓', 'é']), "a✓é");
}

#[test]
fn located_values_are_equal_when_their_values_are() {
    let a = Located::new(7, Region::in_line(1, 2));
    let b = Located::new(7, Region::in_line(30, 4));
    assert_eq!(a, b);
    assert_ne!(a.region(), b.region());
    assert_ne!(a, Located::new(8, Region::in_line(1, 2)));
    assert_eq!(a.map(|x| x + 1), Located::new(8, Region::in_line(0, 0)));
    assert_eq!(a.map(|x| x + 1).region(), a.region());
    assert_eq!(a.replace("x").region(), a.region());
    assert_eq!(*a.as_inner(), 7);
    assert_eq!(*a.as_ref().value, 7);
}

#[test]
fn regions_cover_offsets() {
    let r = Region::from_range(3, 9);
    assert_eq!((r.offset(), r.len(), r.is_empty()), (3, 6, false));
    assert_eq!((r.start_line, r.start_col, r.end_line, r.end_col), (1, 4, 1, 9));
    assert!(!r.contains_offset(2) && r.contains_offset(3) && r.contains_offset(8));
    assert!(!r.contains_offset(9));
    let empty = Region::from_range(5, 2);
    assert_eq!((empty.offset, empty.len, empty.is_empty()), (5, 0, true));
    assert_eq!((empty.start_col, empty.end_col), (6, 6));
    assert!(!empty.contains_offset(5));
    assert!(r.encloses(&Region::in_line(3, 6)) && r.encloses(&Region::in_line(8, 1)));
    assert!(r.encloses(&empty) && r.encloses(&Region::in_line(9, 0)));
    assert!(!r.encloses(&Region::in_line(2, 2)) && !r.encloses(&Region::in_line(8, 2)));
    assert!(!Region::in_line(0, usize::MAX).contains_offset(usize::MAX));
    assert!(Region::in_line(1, usize::MAX).contains_offset(usize::MAX));
    assert_eq!(Region::in_line(usize::MAX, 3).end_col, usize::MAX);
    assert_eq!(Region::new(1, 2, 3, 4, 5, 6), Region {
        offset: 1,
        len: 2,
        start_line: 3,
        start_col: 4,
        end_line: 5,
        end_col: 6
    });
}

#[test]
fn elements_tell_their_children_and_their_text() {
    let link = InlineElement::Link(Link::Wiki(WikiLink::new(
        Cow::from("page"),
        Some(Description::Text(Cow::from("shown"))),
        Some(Anchor::new(vec![Cow::from("a")])),
    )));
    assert_eq!(link.to_text(), "shown");
    assert!(link.children().is_empty());
    let bare = InlineElement::Link(Link::Wiki(WikiLink::new(Cow::from("page"), None, None)));
    assert_eq!(bare.to_text(), "");
    assert_eq!(InlineElement::Keyword(Keyword::new(KeywordKind::Xxx, None)).to_text(), "XXX");
    let inner = vec![
        Located::new(InlineElement::Text(Text::from_str("a ")), Region::in_line(1, 2)),
        Located::new(link, Region::in_line(3, 9)),
    ];
    let outer = InlineElement::DecoratedText(DecoratedText::new(inner, Decoration::Italic));
    assert_eq!(outer.to_text(), "a shown");
    let children = outer.children();
    assert_eq!(children.len(), 2);
    assert_eq!(children[1].region(), Region::in_line(3, 9));
    let block = BlockElement::Paragraph(Paragraph::new(InlineElementContainer::new(vec![
        Located::new(outer.clone(), Region::in_line(0, 12)),
    ])));
    let element = Element::Block(block);
    let below = element.children();
    assert_eq!(below.len(), 1);
    assert_eq!(below[0].value, Element::Inline(outer.clone()));
    assert_eq!(below[0].region(), Region::in_line(0, 12));
    assert!(element.as_block_element().is_some() && element.as_inline_element().is_none());
    assert_eq!(Element::Inline(outer).children().len(), 2);
    assert!(Element::Block(BlockElement::BlankLine).children().is_empty());

    let page = parse("- a *b*\n- c\n|d|e $f$|\n");
    let counts: Vec<usize> = page.value.elements.iter().map(|b| b.value.children().len()).collect();
    assert_eq!(counts, vec![3, 3]);
    let texts: Vec<String> =
        page.value.elements[1].value.children().iter().map(|c| c.value.to_text()).collect();
    assert_eq!(texts, vec!["d", "e ", "f"]);
}

#[test]
fn should_fully_populate_from_vimwiki_element() {
    let element: Located<Text> = RawStr::Vimwiki("some text").try_into().unwrap();
    let region = element.region;
    let ent = vimwiki::data::Text::from_vimwiki_element(999, Some(123), element);

    assert_eq!(ent.region(), &region);
    assert_eq!(ent.content(), "some text");
    assert_eq!(ent.page_id(), 999);
    assert_eq!(ent.parent_id(), Some(123));
    assert_eq!((region.offset, region.len), (0, 9));
}
