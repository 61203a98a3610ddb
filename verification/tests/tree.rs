use std::borrow::Cow;
use std::sync::atomic::{AtomicUsize, Ordering};
use vimwiki::elements::blocks::{BlockElement, Paragraph};
use vimwiki::elements::inline::{
    DecoratedText, Decoration, InlineElement, InlineElementContainer, Text,
};
use vimwiki::elements::page::Element;
use vimwiki::located::Located;
use vimwiki::region::Region;
use vimwiki::tree::{all_distinct, ElementNode, ElementTree};

fn text(s: &'static str) -> InlineElement<'static> {
    InlineElement::Text(Text::from_str(s))
}

fn bold(contents: Vec<Located<InlineElement<'static>>>) -> InlineElement<'static> {
    InlineElement::DecoratedText(DecoratedText::new(contents, Decoration::Bold))
}

fn test_element() -> Located<Element<'static>> {
    // Representing
    //
    // abc*bold*def*bold2*ghi
    // | |||  ||| |||   ||| |
    // 0 |3|  7|9 ||13  ||19|
    //   2 4   8  |12   |18 20
    //            11    17
    Located::new(
        Element::Block(BlockElement::Paragraph(Paragraph::new(InlineElementContainer::new(
            vec![
                Located::new(text("abc"), Region::from_range(0, 3)),
                Located::new(
                    bold(vec![Located::new(text("bold"), Region::from_range(4, 8))]),
                    Region::from_range(3, 9),
                ),
                Located::new(text("def"), Region::from_range(9, 12)),
                Located::new(
                    bold(vec![Located::new(text("bold2"), Region::from_range(13, 18))]),
                    Region::from_range(12, 19),
                ),
                Located::new(text("ghi"), Region::from_range(19, 21)),
            ],
        )))),
        Region::from_range(0, 21),
    )
}

fn elements<'a>(nodes: Vec<&'a ElementNode<'a>>) -> Vec<Element<'a>> {
    nodes.into_iter().map(|node| node.as_element().clone()).collect::<Vec<Element<'_>>>()
}

#[test]
fn find_at_offset_should_return_deepest_tree_node_possible() {
    let element = test_element();
    let tree = ElementTree::from_element(element);

    // Cursor on top of bold text in paragraph
    let node = tree.find_at_offset(4).expect("Failed to find node");
    assert_eq!(
        node.as_element().as_inline_element().expect("Didn't find inline element").to_text(),
        "bold"
    );
}

#[test]
fn find_at_offset_should_return_none_if_no_tree_node_is_found() {
    let element = test_element();
    let tree = ElementTree::from_element(element);

    assert!(tree.find_at_offset(999).is_none());
}

#[test]
fn root_should_return_reference_to_root_tree_node() {
    let element = test_element();
    let tree = ElementTree::from_element(element);

    // Verify root node loaded (this is the paragraph)
    let root = tree.root();
    let root_element = root.as_element();

    // Verify the actual element to be safe
    assert!(
        matches!(
            root_element.as_block_element().expect("Didn't find block element"),
            BlockElement::Paragraph(_)
        ),
        "Unexpected element: {:?}",
        root_element
    );
}

#[test]
fn parent_should_return_parent_tree_node_of_given_tree_node() {
    let element = test_element();
    let tree = ElementTree::from_element(element);

    // Get a child at the very bottom of paragraph -> bold -> text
    let node = tree.find_at_offset(4).expect("Failed to find node");

    // Verify parent node loaded (this is the bold text container)
    let parent = tree.parent(node).expect("Failed to get parent");
    let parent_element = parent.as_element();

    // Check that we loaded the right element
    assert!(
        matches!(
            parent_element.as_inline_element().expect("Didn't find inline element"),
            InlineElement::DecoratedText(_)
        ),
        "Unexpected element: {:?}",
        parent_element
    );
}

#[test]
fn parent_should_return_none_if_given_tree_node_is_root() {
    let element = test_element();
    let tree = ElementTree::from_element(element);
    let root = tree.root();

    assert!(tree.parent(root).is_none());
}

#[test]
fn ancestors_should_return_iterator_through_all_ancestor_nodes_in_order() {
    let element = test_element();
    let tree = ElementTree::from_element(element);

    // Get a child at the very bottom of paragraph -> bold -> text
    let node = tree.find_at_offset(4).expect("Failed to find node");

    // Verify parent node loaded (this is the bold text container)
    let found = tree.ancestors(node);
    let mut it = found.iter();

    let ancestor = it.next().expect("Missing first ancestor");
    assert!(
        matches!(
            ancestor.as_element().as_inline_element().expect("Didn't find inline element"),
            InlineElement::DecoratedText(_)
        ),
        "Unexpected element: {:?}",
        ancestor.as_element()
    );

    let ancestor = it.next().expect("Missing second ancestor");
    assert!(
        matches!(
            ancestor.as_element().as_block_element().expect("Didn't find block element"),
            BlockElement::Paragraph(_)
        ),
        "Unexpected element: {:?}",
        ancestor.as_element()
    );

    assert!(it.next().is_none(), "Unexpectedly got an extra ancestor");
}

#[test]
fn children_should_return_all_children_tree_nodes_of_given_tree_node() {
    let element = test_element();
    let tree = ElementTree::from_element(element);

    // Load paragraph children, which should be text and bold text
    let children = elements(tree.children(tree.root()));

    assert_eq!(
        children,
        vec![
            Element::Inline(text("abc")),
            Element::Inline(bold(vec![Located::new(text("bold"), Region::from_range(4, 8))])),
            Element::Inline(text("def")),
            Element::Inline(bold(vec![Located::new(text("bold2"), Region::from_range(12, 19))])),
            Element::Inline(text("ghi")),
        ]
    );
}

#[test]
fn descendants_should_return_iterator_through_all_descendants_one_level_at_a_time() {
    let element = test_element();
    let tree = ElementTree::from_element(element);
    let found = tree.descendants(tree.root());
    let mut it = found.iter();

    let descendant = it.next().expect("Missing first descendant");
    assert_eq!(descendant.as_element().clone(), Element::Inline(text("abc")));

    let descendant = it.next().expect("Missing second descendant");
    assert_eq!(
        descendant.as_element().clone(),
        Element::Inline(bold(vec![Located::new(text("bold"), Region::from_range(4, 8))])),
    );

    let descendant = it.next().expect("Missing third descendant");
    assert_eq!(descendant.as_element().clone(), Element::Inline(text("def")));

    let descendant = it.next().expect("Missing fourth descendant");
    assert_eq!(
        descendant.as_element().clone(),
        Element::Inline(bold(vec![Located::new(text("bold2"), Region::from_range(12, 19))])),
    );

    let descendant = it.next().expect("Missing fifth descendant");
    assert_eq!(descendant.as_element().clone(), Element::Inline(text("ghi")));

    let descendant = it.next().expect("Missing sixth descendant");
    assert_eq!(descendant.as_element().clone(), Element::Inline(text("bold")));

    let descendant = it.next().expect("Missing seventh descendant");
    assert_eq!(descendant.as_element().clone(), Element::Inline(text("bold2")));

    assert!(it.next().is_none(), "Unexpectedly got an extra descendant");
}

#[test]
fn siblings_should_return_all_sibling_tree_nodes_of_given_tree_node() {
    let element = test_element();
    let tree = ElementTree::from_element(element);

    // Get paragraph -> center text
    let node = tree.find_at_offset(9).expect("Failed to find node");

    let siblings = elements(tree.siblings(node));

    assert_eq!(
        siblings,
        vec![
            Element::Inline(text("abc")),
            Element::Inline(bold(vec![Located::new(text("bold"), Region::from_range(3, 9))])),
            Element::Inline(bold(vec![Located::new(text("bold2"), Region::from_range(12, 19))])),
            Element::Inline(text("ghi")),
        ]
    );
}

#[test]
fn siblings_before_should_return_all_sibling_tree_nodes_before_given_tree_node() {
    let element = test_element();
    let tree = ElementTree::from_element(element);

    // Get paragraph -> center text
    let node = tree.find_at_offset(9).expect("Failed to find node");

    let siblings = elements(tree.siblings_before(node));

    assert_eq!(
        siblings,
        vec![
            Element::Inline(text("abc")),
            Element::Inline(bold(vec![Located::new(text("bold"), Region::from_range(3, 9))])),
        ]
    );
}

#[test]
fn siblings_after_should_return_all_sibling_tree_nodes_after_given_tree_node() {
    let element = test_element();
    let tree = ElementTree::from_element(element);

    // Get paragraph -> center text
    let node = tree.find_at_offset(9).expect("Failed to find node");

    let siblings = elements(tree.siblings_after(node));

    assert_eq!(
        siblings,
        vec![
            Element::Inline(bold(vec![Located::new(text("bold2"), Region::from_range(12, 19))])),
            Element::Inline(text("ghi")),
        ]
    );
}

#[test]
fn tree_numbers_its_nodes_going_deep_first() {
    let tree = ElementTree::from_element(test_element());
    assert_eq!(tree.len(), 8);
    let shape: Vec<(usize, Option<usize>, Vec<usize>, usize)> = (0..8)
        .map(|id| {
            let n = tree.node(id).unwrap();
            (n.id(), n.parent_id(), n.children_ids().clone(), n.depth())
        })
        .collect();
    assert_eq!(
        shape,
        vec![
            (0, None, vec![1, 2, 4, 5, 7], 0),
            (1, Some(0), vec![], 1),
            (2, Some(0), vec![3], 1),
            (3, Some(2), vec![], 2),
            (4, Some(0), vec![], 1),
            (5, Some(0), vec![6], 1),
            (6, Some(5), vec![], 2),
            (7, Some(0), vec![], 1),
        ]
    );
    assert!(tree.node(8).is_none());
    assert_eq!(tree.root().id(), 0);
    let mut ids: Vec<usize> = tree.nodes().iter().map(|n| n.id()).collect();
    ids.sort();
    assert_eq!(ids, (0..8).collect::<Vec<usize>>());
    assert_eq!(tree.root().data().region(), Region::from_range(0, 21));
    let depths: Vec<usize> = tree.descendants(tree.root()).iter().map(|n| n.depth()).collect();
    assert_eq!(depths, vec![1, 1, 1, 1, 1, 2, 2]);
    let below: Vec<usize> =
        tree.descendants(tree.node(2).unwrap()).iter().map(|n| n.id()).collect();
    assert_eq!(below, vec![3]);
    assert!(tree.descendants(tree.node(3).unwrap()).is_empty());
    assert!(tree.siblings(tree.root()).is_empty());
    assert!(tree.ancestors(tree.root()).is_empty());
    assert!(tree.has_nested_regions());
}

#[test]
fn find_at_offset_prefers_the_deepest_and_then_the_last() {
    let tree = ElementTree::from_element(test_element());
    let id_at = |offset: usize| tree.find_at_offset(offset).map(|n| n.id());
    assert_eq!(id_at(0), Some(1));
    // inside the bold element and outside the text within it
    assert_eq!(id_at(3), Some(2));
    assert_eq!(id_at(8), Some(2));
    assert_eq!(id_at(4), Some(3));
    assert_eq!(id_at(7), Some(3));
    assert_eq!(id_at(12), Some(5));
    assert_eq!(id_at(20), Some(7));
    assert_eq!(id_at(21), None);
    assert!(tree.node(2).unwrap().contains_offset(8));
    assert!(!tree.node(2).unwrap().contains_offset(9));

    // two children cover the offset, equally deep: the later one is found
    let overlapping = Located::new(
        Element::Inline(bold(vec![
            Located::new(text("ab"), Region::from_range(0, 2)),
            Located::new(text("bc"), Region::from_range(1, 3)),
        ])),
        Region::from_range(0, 5),
    );
    let tree = ElementTree::from_element(overlapping);
    assert_eq!(tree.find_at_offset(1).map(|n| n.id()), Some(2));
    assert_eq!(tree.find_at_offset(0).map(|n| n.id()), Some(1));
    assert_eq!(tree.find_at_offset(4).map(|n| n.id()), Some(0));

    // a child outside the region of its parent is not looked at
    let escaped = Located::new(
        Element::Inline(bold(vec![Located::new(text("x"), Region::from_range(7, 9))])),
        Region::from_range(0, 5),
    );
    let tree = ElementTree::from_element(escaped);
    assert!(!tree.has_nested_regions());
    assert_eq!(tree.find_at_offset(8).map(|n| n.id()), None);
}

#[test]
fn tree_is_built_with_the_ids_handed_out() {
    let counter = AtomicUsize::new(10);
    let tree =
        ElementTree::build(test_element(), move || counter.fetch_add(5, Ordering::Relaxed))
            .expect("ids are distinct");
    assert_eq!(tree.root().id(), 10);
    let children: Vec<usize> = tree.children(tree.root()).iter().map(|n| n.id()).collect();
    assert_eq!(children, vec![15, 20, 30, 35, 45]);
    assert_eq!(tree.find_at_offset(13).map(|n| n.id()), Some(40));
    assert_eq!(tree.parent(tree.node(40).unwrap()).map(|n| n.id()), Some(35));

    // an id handed out twice
    assert!(ElementTree::build(test_element(), || 7).is_none());
    // one node takes one id, so no id comes twice
    let single = Located::new(Element::Inline(text("a")), Region::from_range(0, 1));
    let tree = ElementTree::build(single, || 7).expect("one id cannot repeat");
    assert_eq!((tree.root().id(), tree.len()), (7, 1));
    let ids = [9, 8, 7, 6, 5, 4, 3, 2, 1, 0];
    let tree = ElementTree::from_ids(test_element(), &ids).unwrap();
    assert_eq!(tree.root().id(), 9);
    assert_eq!(tree.len(), 8);
    assert!(tree.node(1).is_none());
    assert_eq!(tree.node(2).unwrap().parent_id(), Some(9));
    assert!(ElementTree::from_ids(test_element(), &ids[..7]).is_none());
    assert!(ElementTree::from_ids(test_element(), &[1, 2, 3, 4, 5, 6, 7, 1]).is_none());
    assert!(ElementTree::from_ids(test_element(), &[]).is_none());
    assert!(all_distinct(&ids));
    assert!(!all_distinct(&[1, 2, 1]));
}

#[test]
fn tree_conversions_keep_the_nodes() {
    let tree = ElementTree::from_element(Located::new(
        Element::Inline(bold(vec![Located::new(
            InlineElement::Text(Text::new(Cow::from("owned".to_string()))),
            Region::from_range(1, 6),
        )])),
        Region::from_range(0, 7),
    ));
    let borrowed = tree.to_borrowed();
    assert_eq!(borrowed.len(), 2);
    assert_eq!(borrowed.root().id(), tree.root().id());
    match borrowed.node(1).unwrap().as_element() {
        Element::Inline(InlineElement::Text(t)) => {
            assert!(matches!(t.text, Cow::Borrowed("owned")));
        },
        other => panic!("unexpected element {:?}", other),
    }
    let owned = borrowed.owned_copy();
    for id in 0..2 {
        let (a, b) = (tree.node(id).unwrap(), owned.node(id).unwrap());
        assert_eq!(a.as_element(), b.as_element());
        assert_eq!(a.data().region(), b.data().region());
        assert_eq!((a.parent_id(), a.children_ids(), a.depth()), (b.parent_id(), b.children_ids(), b.depth()));
    }
    let detached = tree.into_owned();
    assert_eq!(detached.find_at_offset(3).map(|n| n.id()), Some(1));
}

#[test]
fn tree_of_a_parsed_block_has_nested_regions() {
    let texts = [
        "abc *bold _both_ more* def\nsecond ~~line~~ here\n",
        "- one *a*\n  goes _on_\n    - deeper ^x^\n",
        "| a *b* | c |\n|---|---|\n| ,,d,, | > |\n",
    ];
    for source in texts {
        let chars = vimwiki::text::to_chars(source);
        let (_, block) =
            vimwiki::parsers::blocks::block_component(vimwiki::span::Span::new(&chars)).unwrap();
        let region = block.region;
        let element = Located::new(Element::Block(block.value), region);
        let n = vimwiki::tree::count_element_nodes(&element.value).unwrap();
        let tree = ElementTree::from_element(element);
        assert_eq!(tree.len(), n, "{:?}", source);
        assert!(n > 3, "{:?}", source);
        assert!(tree.has_nested_regions(), "{:?}", source);
        for node in tree.nodes() {
            let kids = tree.children(node);
            for pair in kids.windows(2) {
                let (left, right) = (pair[0].data.region, pair[1].data.region);
                assert!(left.offset + left.len <= right.offset, "{:?}", source);
            }
        }
        for offset in 0..chars.len() {
            match tree.find_at_offset(offset) {
                Some(found) => {
                    assert!(found.data.region.contains_offset(offset));
                    for child in tree.children(found) {
                        assert!(!child.data.region.contains_offset(offset));
                    }
                }
                None => panic!("no node at {} of {:?}", offset, source),
            }
        }
    }
}

#[test]
fn nodes_are_counted_with_those_inside() {
    let element = test_element();
    assert_eq!(vimwiki::tree::count_element_nodes(&element.value), Some(8));
    let inner = bold(vec![
        Located::new(text("a"), Region::from_range(1, 2)),
        Located::new(bold(vec![]), Region::from_range(2, 4)),
    ]);
    assert_eq!(vimwiki::tree::count_inline_nodes(&inner), Some(3));
    assert_eq!(vimwiki::tree::count_inline_nodes(&text("a")), Some(1));
    assert_eq!(vimwiki::tree::count_inline_list(&vec![]), Some(0));
}
