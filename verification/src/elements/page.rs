//! Whole pages, and elements of any kind.

use crate::elements::blocks::{BlockElement, BlockElementView};
use crate::elements::comments::{Comment, CommentView};
use crate::elements::inline::{
    inline_nested, inline_views, inlines_within, InlineElement, InlineElementView,
};
use crate::located::{located_views, Located};
use vstd::prelude::*;

verus! {

/// A page: its block elements from top to bottom, and the comments found in
/// its source.
#[derive(Debug, PartialEq, Eq)]
pub struct Page<'a> {
    pub elements: Vec<Located<BlockElement<'a>>>,
    pub comments: Vec<Located<Comment<'a>>>,
}

/// What a `Page` holds.
pub struct PageView {
    pub elements: Seq<Located<BlockElementView>>,
    pub comments: Seq<Located<CommentView>>,
}

impl<'a> View for Page<'a> {
    type V = PageView;

    open spec fn view(&self) -> PageView {
        PageView {
            elements: located_views(self.elements@),
            comments: located_views(self.comments@),
        }
    }
}

impl<'a> Page<'a> {
    pub fn new(elements: Vec<Located<BlockElement<'a>>>, comments: Vec<Located<Comment<'a>>>) -> (r:
        Page<'a>)
        ensures
            r.elements == elements,
            r.comments == comments,
    {
        Page { elements, comments }
    }

    pub fn to_borrowed<'b>(&'b self) -> (r: Page<'b>)
        ensures
            r@ == self@,
    {
        let mut elements: Vec<Located<BlockElement<'b>>> = Vec::new();
        let mut i: usize = 0;
        while i < self.elements.len()
            invariant
                i <= self.elements@.len(),
                elements@.len() == i,
                forall|k: int| 0 <= k < i ==> (#[trigger] elements@[k])@ == self.elements@[k]@,
            decreases self.elements@.len() - i,
        {
            elements.push(
                Located {
                    value: self.elements[i].value.to_borrowed(),
                    region: self.elements[i].region,
                },
            );
            i += 1;
        }
        let mut comments: Vec<Located<Comment<'b>>> = Vec::new();
        let mut j: usize = 0;
        while j < self.comments.len()
            invariant
                j <= self.comments@.len(),
                comments@.len() == j,
                forall|k: int| 0 <= k < j ==> (#[trigger] comments@[k])@ == self.comments@[k]@,
            decreases self.comments@.len() - j,
        {
            comments.push(
                Located {
                    value: self.comments[j].value.to_borrowed(),
                    region: self.comments[j].region,
                },
            );
            j += 1;
        }
        assert(located_views(elements@) =~= located_views(self.elements@));
        assert(located_views(comments@) =~= located_views(self.comments@));
        Page { elements, comments }
    }

    pub fn owned_copy(&self) -> (r: Page<'static>)
        ensures
            r@ == self@,
    {
        let mut elements: Vec<Located<BlockElement<'static>>> = Vec::new();
        let mut i: usize = 0;
        while i < self.elements.len()
            invariant
                i <= self.elements@.len(),
                elements@.len() == i,
                forall|k: int| 0 <= k < i ==> (#[trigger] elements@[k])@ == self.elements@[k]@,
            decreases self.elements@.len() - i,
        {
            elements.push(
                Located {
                    value: self.elements[i].value.owned_copy(),
                    region: self.elements[i].region,
                },
            );
            i += 1;
        }
        let mut comments: Vec<Located<Comment<'static>>> = Vec::new();
        let mut j: usize = 0;
        while j < self.comments.len()
            invariant
                j <= self.comments@.len(),
                comments@.len() == j,
                forall|k: int| 0 <= k < j ==> (#[trigger] comments@[k])@ == self.comments@[k]@,
            decreases self.comments@.len() - j,
        {
            comments.push(
                Located {
                    value: self.comments[j].value.owned_copy(),
                    region: self.comments[j].region,
                },
            );
            j += 1;
        }
        assert(located_views(elements@) =~= located_views(self.elements@));
        assert(located_views(comments@) =~= located_views(self.comments@));
        Page { elements, comments }
    }

    pub fn into_owned(self) -> (r: Page<'static>)
        ensures
            r@ == self@,
    {
        self.owned_copy()
    }
}

/// An element of any kind.
#[derive(Debug, PartialEq, Eq)]
pub enum Element<'a> {
    Block(BlockElement<'a>),
    Inline(InlineElement<'a>),
}

/// What an `Element` holds.
pub enum ElementView {
    Block(BlockElementView),
    Inline(InlineElementView),
}

/// Whether the elements inside `e`, at any depth, are nested: each lies
/// within the region of the element that it stands in directly, and those
/// that stand in one element stand one after the other.
pub open spec fn element_nested(e: Located<ElementView>) -> bool {
    match e.value {
        ElementView::Block(b) => inlines_within(b.children(), e.region),
        ElementView::Inline(i) => inline_nested(Located { value: i, region: e.region }),
    }
}

/// Inline elements, seen as elements of any kind.
pub open spec fn as_elements(v: Seq<Located<InlineElementView>>) -> Seq<Located<ElementView>> {
    v.map_values(
        |x: Located<InlineElementView>|
            Located { value: ElementView::Inline(x.value), region: x.region },
    )
}

impl ElementView {
    /// The elements directly inside this one, in source order.
    pub open spec fn children(&self) -> Seq<Located<ElementView>> {
        match self {
            ElementView::Block(b) => as_elements(b.children()),
            ElementView::Inline(i) => as_elements(
                match i {
                    InlineElementView::DecoratedText(_, contents) => *contents,
                    _ => Seq::empty(),
                },
            ),
        }
    }
}

impl<'a> View for Element<'a> {
    type V = ElementView;

    open spec fn view(&self) -> ElementView {
        match self {
            Element::Block(b) => ElementView::Block(b@),
            Element::Inline(i) => ElementView::Inline(i@),
        }
    }
}

impl<'a> Element<'a> {
    pub fn to_borrowed<'b>(&'b self) -> (r: Element<'b>)
        ensures
            r@ == self@,
            converted(*self, r),
    {
        match self {
            Element::Block(b) => Element::Block(b.to_borrowed()),
            Element::Inline(i) => Element::Inline(i.to_borrowed()),
        }
    }

    pub fn owned_copy(&self) -> (r: Element<'static>)
        ensures
            r@ == self@,
    {
        match self {
            Element::Block(b) => Element::Block(b.owned_copy()),
            Element::Inline(i) => Element::Inline(i.owned_copy()),
        }
    }

    pub fn into_owned(self) -> (r: Element<'static>)
        ensures
            r@ == self@,
            converted(self, r),
    {
        self.owned_copy()
    }

    /// The block element that this is, if it is one.
    pub fn as_block_element(&self) -> (r: Option<&BlockElement<'a>>)
        ensures
            match r {
                Some(b) => *self == Element::Block(*b),
                None => *self is Inline,
            },
    {
        match self {
            Element::Block(b) => Some(b),
            Element::Inline(_) => None,
        }
    }

    /// The inline element that this is, if it is one.
    pub fn as_inline_element(&self) -> (r: Option<&InlineElement<'a>>)
        ensures
            match r {
                Some(i) => *self == Element::Inline(*i),
                None => *self is Block,
            },
    {
        match self {
            Element::Block(_) => None,
            Element::Inline(i) => Some(i),
        }
    }

    /// Copies of the elements directly inside this one, in source order.
    pub fn children(&self) -> (r: Vec<Located<Element<'static>>>)
        ensures
            located_views(r@) == self@.children(),
    {
        let inner = match self {
            Element::Block(b) => b.children(),
            Element::Inline(i) => i.children(),
        };
        let ghost views = inline_views(inner@);
        let mut inner = inner;
        let mut rev: Vec<Located<Element<'static>>> = Vec::new();
        while inner.len() > 0
            invariant
                inline_views(inner@) == views.take(inner@.len() as int),
                rev@.len() + inner@.len() == views.len(),
                forall|k: int|
                    0 <= k < rev@.len() ==> (#[trigger] rev@[k])@ == (Located {
                        value: ElementView::Inline(views[views.len() - 1 - k].value),
                        region: views[views.len() - 1 - k].region,
                    }),
            decreases inner@.len(),
        {
            let ghost before = inner@;
            let x = inner.pop().unwrap();
            proof {
                assert(inline_views(before)[inner@.len() as int].value == x.value@);
                assert(inline_views(inner@) =~= views.take(inner@.len() as int));
            }
            rev.push(Located { value: Element::Inline(x.value), region: x.region });
        }
        let mut out: Vec<Located<Element<'static>>> = Vec::new();
        while rev.len() > 0
            invariant
                out@.len() + rev@.len() == views.len(),
                forall|k: int|
                    0 <= k < rev@.len() ==> (#[trigger] rev@[k])@ == (Located {
                        value: ElementView::Inline(views[views.len() - 1 - k].value),
                        region: views[views.len() - 1 - k].region,
                    }),
                forall|k: int|
                    0 <= k < out@.len() ==> (#[trigger] out@[k])@ == (Located {
                        value: ElementView::Inline(views[k].value),
                        region: views[k].region,
                    }),
            decreases rev@.len(),
        {
            let x = rev.pop().unwrap();
            out.push(x);
        }
        assert(located_views(out@) =~= as_elements(views));
        out
    }
}

/// Whether `to` is what a conversion of `from` between borrowed and owned
/// text may give: an element that holds what `from` holds, region by
/// region. It is what `to_borrowed` and `into_owned` promise of their
/// result.
pub open spec fn converted(from: Element, to: Element) -> bool {
    to@ == from@
}

/// Borrowing and then taking ownership, or taking ownership and then
/// borrowing, gives an element equal to the one started from, whatever
/// kind of element it is: two conversions in a row keep what the element
/// holds.
pub proof fn lemma_conversions_round_trip(element: Element, first: Element, second: Element)
    requires
        converted(element, first),
        converted(first, second),
    ensures
        converted(element, second),
        second@ == element@,
{
}

/// Borrows the text of an element and takes ownership of it again.
pub fn borrowed_then_owned(element: &Element<'_>) -> (r: Element<'static>)
    ensures
        converted(*element, r),
{
    let borrowed = element.to_borrowed();
    borrowed.into_owned()
}

impl<'a> Clone for Element<'a> {
    fn clone(&self) -> (r: Self)
        ensures
            r@ == self@,
    {
        self.owned_copy()
    }
}

} // verus!
