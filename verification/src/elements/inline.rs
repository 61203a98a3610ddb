//! Elements that stand in the flow of a line.

use crate::elements::links::{Description, Link, LinkView};
use crate::located::Located;
use crate::region::Region;
use crate::text::{
    borrow_text, borrow_texts, clone_text, clone_texts, own_text, own_texts, text_str,
    texts_view,
};
use std::borrow::Cow;
use vstd::prelude::*;

verus! {

/// Plain text.
#[derive(Debug, PartialEq, Eq)]
pub struct Text<'a> {
    pub text: Cow<'a, str>,
}

impl<'a> View for Text<'a> {
    type V = Seq<char>;

    open spec fn view(&self) -> Seq<char> {
        self.text@
    }
}

impl<'a> Text<'a> {
    pub fn new(text: Cow<'a, str>) -> (r: Text<'a>)
        ensures
            r@ == text@,
    {
        Text { text }
    }

    /// Text that borrows `s`.
    pub fn from_str(s: &'a str) -> (r: Text<'a>)
        ensures
            r@ == s@,
    {
        Text { text: Cow::Borrowed(s) }
    }

    /// Text that owns `s`.
    pub fn from_string(s: String) -> (r: Text<'static>)
        ensures
            r@ == s@,
    {
        Text { text: Cow::Owned(s) }
    }

    pub fn as_str(&self) -> (r: &str)
        ensures
            r@ == self@,
    {
        text_str(&self.text)
    }

    pub fn to_borrowed<'b>(&'b self) -> (r: Text<'b>)
        ensures
            r@ == self@,
    {
        Text { text: borrow_text(&self.text) }
    }

    pub fn owned_copy(&self) -> (r: Text<'static>)
        ensures
            r@ == self@,
    {
        Text { text: own_text(clone_text(&self.text)) }
    }

    pub fn into_owned(self) -> (r: Text<'static>)
        ensures
            r@ == self@,
    {
        Text { text: own_text(self.text) }
    }
}

impl<'a> Clone for Text<'a> {
    fn clone(&self) -> (r: Self)
        ensures
            r@ == self@,
    {
        self.owned_copy()
    }
}

/// A formula within a line: `$formula$`.
#[derive(Debug, PartialEq, Eq)]
pub struct MathInline<'a> {
    pub formula: Cow<'a, str>,
}

impl<'a> View for MathInline<'a> {
    type V = Seq<char>;

    open spec fn view(&self) -> Seq<char> {
        self.formula@
    }
}

impl<'a> MathInline<'a> {
    pub fn new(formula: Cow<'a, str>) -> (r: MathInline<'a>)
        ensures
            r@ == formula@,
    {
        MathInline { formula }
    }

    pub fn to_borrowed<'b>(&'b self) -> (r: MathInline<'b>)
        ensures
            r@ == self@,
    {
        MathInline { formula: borrow_text(&self.formula) }
    }

    pub fn owned_copy(&self) -> (r: MathInline<'static>)
        ensures
            r@ == self@,
    {
        MathInline { formula: own_text(clone_text(&self.formula)) }
    }

    pub fn into_owned(self) -> (r: MathInline<'static>)
        ensures
            r@ == self@,
    {
        MathInline { formula: own_text(self.formula) }
    }
}

impl<'a> Clone for MathInline<'a> {
    fn clone(&self) -> (r: Self)
        ensures
            r@ == self@,
    {
        self.owned_copy()
    }
}

/// A run of tags: `:one:two:`.
#[derive(Debug, PartialEq, Eq)]
pub struct Tags<'a> {
    pub tags: Vec<Cow<'a, str>>,
}

impl<'a> View for Tags<'a> {
    type V = Seq<Seq<char>>;

    open spec fn view(&self) -> Seq<Seq<char>> {
        texts_view(self.tags@)
    }
}

impl<'a> Tags<'a> {
    pub fn new(tags: Vec<Cow<'a, str>>) -> (r: Tags<'a>)
        ensures
            r@ == texts_view(tags@),
    {
        Tags { tags }
    }

    pub fn to_borrowed<'b>(&'b self) -> (r: Tags<'b>)
        ensures
            r@ == self@,
    {
        Tags { tags: borrow_texts(&self.tags) }
    }

    pub fn owned_copy(&self) -> (r: Tags<'static>)
        ensures
            r@ == self@,
    {
        Tags { tags: own_texts(clone_texts(&self.tags)) }
    }

    pub fn into_owned(self) -> (r: Tags<'static>)
        ensures
            r@ == self@,
    {
        Tags { tags: own_texts(self.tags) }
    }
}

impl<'a> Clone for Tags<'a> {
    fn clone(&self) -> (r: Self)
        ensures
            r@ == self@,
    {
        self.owned_copy()
    }
}

/// A word that marks the state of a task.
#[derive(Clone, Copy, Debug, PartialEq, Eq, Hash, Structural)]
pub enum KeywordKind {
    Done,
    Fixed,
    Fixme,
    Started,
    Todo,
    Xxx,
}

/// A keyword as it stands in a text: the word, and the level of completion
/// where a number follows the word directly, as in `TODO50`.
#[derive(Clone, Copy, Debug, PartialEq, Eq, Hash, Structural)]
pub struct Keyword {
    pub kind: KeywordKind,
    pub completion: Option<u32>,
}

/// How a piece of text is set off.
#[derive(Clone, Copy, Debug, PartialEq, Eq, Hash, Structural)]
pub enum Decoration {
    Bold,
    Italic,
    Underline,
    Strikethrough,
    Superscript,
    Subscript,
}

/// Text set off by a pair of markers, such as `*bold*`. What stands between
/// the markers is inline content of its own, so decorations nest.
#[derive(Debug, PartialEq, Eq)]
pub struct DecoratedText<'a> {
    pub decoration: Decoration,
    pub contents: Vec<Located<InlineElement<'a>>>,
}

/// An element within a line.
#[derive(Debug, PartialEq, Eq)]
pub enum InlineElement<'a> {
    Text(Text<'a>),
    DecoratedText(DecoratedText<'a>),
    Keyword(Keyword),
    Link(Link<'a>),
    Tags(Tags<'a>),
    Math(MathInline<'a>),
}

/// What an `InlineElement` holds.
pub enum InlineElementView {
    Text(Seq<char>),
    DecoratedText(Decoration, Seq<Located<InlineElementView>>),
    Keyword(Keyword),
    Link(LinkView),
    Tags(Seq<Seq<char>>),
    Math(Seq<char>),
}

/// Whether `items` stand one after the other: each ends where the next
/// begins, or before.
pub open spec fn in_order(items: Seq<Located<InlineElementView>>) -> bool {
    forall|i: int, j: int|
        0 <= i < j < items.len() ==> (#[trigger] items[i]).region.spec_end() <= (
        #[trigger] items[j]).region.offset
}

/// Whether the elements inside `e`, at any depth, are nested: each lies
/// within the region of the element that it stands in directly, and those
/// that stand in one element stand one after the other.
pub open spec fn inline_nested(e: Located<InlineElementView>) -> bool
    decreases e,
{
    match e.value {
        InlineElementView::DecoratedText(_, contents) => in_order(contents) && forall|i: int|
            0 <= i < contents.len() ==> e.region.spec_encloses((#[trigger] contents[i]).region)
                && inline_nested(contents[i]),
        _ => true,
    }
}

/// Whether `items` stand one after the other within `region`, with what is
/// inside each nested in turn.
pub open spec fn inlines_within(items: Seq<Located<InlineElementView>>, region: Region) -> bool {
    &&& in_order(items)
    &&& forall|i: int|
        0 <= i < items.len() ==> region.spec_encloses((#[trigger] items[i]).region)
            && inline_nested(items[i])
}

/// The views of a list of located inline elements.
pub open spec fn inline_views<'a>(v: Seq<Located<InlineElement<'a>>>) -> Seq<
    Located<InlineElementView>,
>
    decreases v,
{
    Seq::new(
        v.len(),
        |i: int|
            if 0 <= i < v.len() {
                Located { value: v[i].value.spec_view(), region: v[i].region }
            } else {
                Located { value: InlineElementView::Text(Seq::empty()), region: v[0].region }
            },
    )
}

impl<'a> InlineElement<'a> {
    /// What the element holds.
    pub open spec fn spec_view(&self) -> InlineElementView
        decreases self,
    {
        match self {
            InlineElement::Text(t) => InlineElementView::Text(t@),
            InlineElement::DecoratedText(d) => InlineElementView::DecoratedText(
                d.decoration,
                inline_views(d.contents@),
            ),
            InlineElement::Keyword(k) => InlineElementView::Keyword(*k),
            InlineElement::Link(l) => InlineElementView::Link(l@),
            InlineElement::Tags(t) => InlineElementView::Tags(t@),
            InlineElement::Math(m) => InlineElementView::Math(m@),
        }
    }
}

impl<'a> View for InlineElement<'a> {
    type V = InlineElementView;

    open spec fn view(&self) -> InlineElementView {
        self.spec_view()
    }
}

impl<'a> View for DecoratedText<'a> {
    type V = (Decoration, Seq<Located<InlineElementView>>);

    open spec fn view(&self) -> (Decoration, Seq<Located<InlineElementView>>) {
        (self.decoration, inline_views(self.contents@))
    }
}

/// Copies of the elements of `v` whose text borrows from `v`.
#[verifier::loop_isolation(false)]
pub fn borrow_inlines<'b, 'a>(v: &'b Vec<Located<InlineElement<'a>>>) -> (r: Vec<
    Located<InlineElement<'b>>,
>)
    ensures
        inline_views(r@) == inline_views(v@),
    decreases v,
{
    let mut out: Vec<Located<InlineElement<'b>>> = Vec::new();
    let mut i: usize = 0;
    while i < v.len()
        invariant
            i <= v@.len(),
            out@.len() == i,
            forall|k: int|
                0 <= k < i ==> (#[trigger] out@[k]).value.spec_view() == v@[k].value.spec_view()
                    && out@[k].region == v@[k].region,
        decreases v@.len() - i,
    {
        let x = Located { value: v[i].value.to_borrowed(), region: v[i].region };
        out.push(x);
        i += 1;
    }
    assert(inline_views(out@) =~= inline_views(v@));
    out
}

/// Copies of the elements of `v` that own their text.
#[verifier::loop_isolation(false)]
pub fn own_inlines<'a>(v: &Vec<Located<InlineElement<'a>>>) -> (r: Vec<
    Located<InlineElement<'static>>,
>)
    ensures
        inline_views(r@) == inline_views(v@),
    decreases v,
{
    let mut out: Vec<Located<InlineElement<'static>>> = Vec::new();
    let mut i: usize = 0;
    while i < v.len()
        invariant
            i <= v@.len(),
            out@.len() == i,
            forall|k: int|
                0 <= k < i ==> (#[trigger] out@[k]).value.spec_view() == v@[k].value.spec_view()
                    && out@[k].region == v@[k].region,
        decreases v@.len() - i,
    {
        let x = Located { value: v[i].value.owned_copy(), region: v[i].region };
        out.push(x);
        i += 1;
    }
    assert(inline_views(out@) =~= inline_views(v@));
    out
}

impl<'a> InlineElement<'a> {
    pub fn to_borrowed<'b>(&'b self) -> (r: InlineElement<'b>)
        ensures
            r@ == self@,
        decreases self,
    {
        match self {
            InlineElement::Text(t) => InlineElement::Text(t.to_borrowed()),
            InlineElement::DecoratedText(d) => InlineElement::DecoratedText(
                DecoratedText { decoration: d.decoration, contents: borrow_inlines(&d.contents) },
            ),
            InlineElement::Keyword(k) => InlineElement::Keyword(*k),
            InlineElement::Link(l) => InlineElement::Link(l.to_borrowed()),
            InlineElement::Tags(t) => InlineElement::Tags(t.to_borrowed()),
            InlineElement::Math(m) => InlineElement::Math(m.to_borrowed()),
        }
    }

    pub fn owned_copy(&self) -> (r: InlineElement<'static>)
        ensures
            r@ == self@,
        decreases self,
    {
        match self {
            InlineElement::Text(t) => InlineElement::Text(t.owned_copy()),
            InlineElement::DecoratedText(d) => InlineElement::DecoratedText(
                DecoratedText { decoration: d.decoration, contents: own_inlines(&d.contents) },
            ),
            InlineElement::Keyword(k) => InlineElement::Keyword(*k),
            InlineElement::Link(l) => InlineElement::Link(l.owned_copy()),
            InlineElement::Tags(t) => InlineElement::Tags(t.owned_copy()),
            InlineElement::Math(m) => InlineElement::Math(m.owned_copy()),
        }
    }

    pub fn into_owned(self) -> (r: InlineElement<'static>)
        ensures
            r@ == self@,
    {
        self.owned_copy()
    }

    /// The elements directly inside this one, in order: the contents of a
    /// decoration, and nothing for any other element.
    pub open spec fn spec_children(&self) -> Seq<Located<InlineElementView>> {
        match self {
            InlineElement::DecoratedText(d) => inline_views(d.contents@),
            _ => Seq::empty(),
        }
    }

    /// Copies of the elements directly inside this one, in order.
    pub fn children(&self) -> (r: Vec<Located<InlineElement<'static>>>)
        ensures
            inline_views(r@) == self.spec_children(),
    {
        match self {
            InlineElement::DecoratedText(d) => own_inlines(&d.contents),
            _ => {
                let r: Vec<Located<InlineElement<'static>>> = Vec::new();
                assert(inline_views(r@) =~= Seq::empty());
                r
            },
        }
    }
}

/// The word of a keyword.
pub open spec fn keyword_text(k: KeywordKind) -> Seq<char> {
    match k {
        KeywordKind::Done => "DONE"@,
        KeywordKind::Fixed => "FIXED"@,
        KeywordKind::Fixme => "FIXME"@,
        KeywordKind::Started => "STARTED"@,
        KeywordKind::Todo => "TODO"@,
        KeywordKind::Xxx => "XXX"@,
    }
}

impl Keyword {
    /// The keyword `kind` with the given level of completion.
    pub fn new(kind: KeywordKind, completion: Option<u32>) -> (r: Keyword)
        ensures
            r == (Keyword { kind, completion }),
    {
        Keyword { kind, completion }
    }

    /// The word of the keyword.
    pub fn as_str(&self) -> (r: &'static str)
        ensures
            r@ == keyword_text(self.kind),
    {
        self.kind.as_str()
    }
}

impl KeywordKind {
    /// The word as it is written.
    pub fn as_str(&self) -> (r: &'static str)
        ensures
            r@ == keyword_text(*self),
    {
        match self {
            KeywordKind::Done => "DONE",
            KeywordKind::Fixed => "FIXED",
            KeywordKind::Fixme => "FIXME",
            KeywordKind::Started => "STARTED",
            KeywordKind::Todo => "TODO",
            KeywordKind::Xxx => "XXX",
        }
    }
}

/// The text of a run of tags: each name with `:` before it, and `:` at the
/// end.
pub open spec fn tags_text(names: Seq<Seq<char>>) -> Seq<char>
    decreases names.len(),
{
    if names.len() == 0 {
        ":"@
    } else {
        tags_text(names.drop_last()) + names.last() + ":"@
    }
}

/// The text of a list of inline elements, element after element.
pub open spec fn inlines_text(items: Seq<Located<InlineElementView>>) -> Seq<char>
    decreases items, 0nat,
{
    if items.len() == 0 {
        Seq::empty()
    } else {
        inlines_text(items.drop_last()) + inline_text(items.last().value)
    }
}

/// The text that an inline element shows on the page: the text of plain
/// text and of what a decoration holds, the word of a keyword, the formula
/// of inline math, the tags as they are written, and the description of a
/// link.
pub open spec fn inline_text(v: InlineElementView) -> Seq<char>
    decreases v, 1nat,
{
    match v {
        InlineElementView::Text(t) => t,
        InlineElementView::DecoratedText(_, items) => inlines_text(items),
        InlineElementView::Keyword(k) => keyword_text(k.kind),
        InlineElementView::Link(l) => l.text(),
        InlineElementView::Tags(names) => tags_text(names),
        InlineElementView::Math(m) => m,
    }
}

/// Adds the text of a list of inline elements to `out`.
fn push_inlines_text(out: &mut String, items: &Vec<Located<InlineElement<'_>>>)
    ensures
        final(out)@ == old(out)@ + inlines_text(inline_views(items@)),
    decreases items, 0nat,
{
    let ghost views = inline_views(items@);
    let ghost start = out@;
    let mut i: usize = 0;
    proof {
        assert(views.take(0) =~= Seq::empty());
        assert(start + Seq::<char>::empty() =~= start);
    }
    while i < items.len()
        invariant
            i <= items@.len(),
            views == inline_views(items@),
            out@ == start + inlines_text(views.take(i as int)),
        decreases items@.len() - i,
    {
        let ghost before = out@;
        items[i].value.push_text(out);
        proof {
            assert(views.take(i + 1).drop_last() =~= views.take(i as int));
            assert(views.take(i + 1).last() == views[i as int]);
            assert(views[i as int].value == items@[i as int].value@);
            assert(start + (inlines_text(views.take(i as int)) + inline_text(views[i as int].value))
                =~= before + inline_text(views[i as int].value));
        }
        i += 1;
    }
    proof {
        assert(views.take(views.len() as int) =~= views);
    }
}

impl<'a> InlineElement<'a> {
    /// Adds the text of the element to `out`.
    pub fn push_text(&self, out: &mut String)
        ensures
            final(out)@ == old(out)@ + inline_text(self@),
        decreases self, 1nat,
    {
        match self {
            InlineElement::Text(t) => {
                out.append(t.as_str());
            },
            InlineElement::DecoratedText(d) => {
                push_inlines_text(out, &d.contents);
            },
            InlineElement::Keyword(k) => {
                out.append(k.as_str());
            },
            InlineElement::Link(l) => {
                match l.description() {
                    Some(Description::Text(t)) => {
                        out.append(text_str(t));
                    },
                    _ => {
                        proof {
                            assert(out@ + Seq::<char>::empty() =~= out@);
                        }
                    },
                }
            },
            InlineElement::Tags(t) => {
                let ghost start = out@;
                let ghost names = texts_view(t.tags@);
                out.append(":");
                let mut i: usize = 0;
                proof {
                    assert(names.take(0) =~= Seq::empty());
                }
                while i < t.tags.len()
                    invariant
                        i <= t.tags@.len(),
                        names == texts_view(t.tags@),
                        out@ == start + tags_text(names.take(i as int)),
                    decreases t.tags@.len() - i,
                {
                    let ghost before = out@;
                    out.append(text_str(&t.tags[i]));
                    out.append(":");
                    proof {
                        assert(names.take(i + 1).drop_last() =~= names.take(i as int));
                        assert(names.take(i + 1).last() == names[i as int]);
                        assert(start + (tags_text(names.take(i as int)) + names[i as int] + ":"@)
                            =~= before + names[i as int] + ":"@);
                    }
                    i += 1;
                }
                proof {
                    assert(names.take(names.len() as int) =~= names);
                }
            },
            InlineElement::Math(m) => {
                out.append(text_str(&m.formula));
            },
        }
    }

    /// The text that the element shows on the page.
    pub fn to_text(&self) -> (r: String)
        ensures
            r@ == inline_text(self@),
    {
        let mut out = String::new();
        self.push_text(&mut out);
        proof {
            assert(Seq::<char>::empty() + inline_text(self@) =~= inline_text(self@));
        }
        out
    }
}

impl<'a> Clone for InlineElement<'a> {
    fn clone(&self) -> (r: Self)
        ensures
            r@ == self@,
    {
        self.owned_copy()
    }
}

impl<'a> DecoratedText<'a> {
    pub fn new(contents: Vec<Located<InlineElement<'a>>>, decoration: Decoration) -> (r:
        DecoratedText<'a>)
        ensures
            r.decoration == decoration,
            r.contents == contents,
    {
        DecoratedText { decoration, contents }
    }

    pub fn to_borrowed<'b>(&'b self) -> (r: DecoratedText<'b>)
        ensures
            r@ == self@,
    {
        DecoratedText { decoration: self.decoration, contents: borrow_inlines(&self.contents) }
    }

    pub fn owned_copy(&self) -> (r: DecoratedText<'static>)
        ensures
            r@ == self@,
    {
        DecoratedText { decoration: self.decoration, contents: own_inlines(&self.contents) }
    }

    pub fn into_owned(self) -> (r: DecoratedText<'static>)
        ensures
            r@ == self@,
    {
        self.owned_copy()
    }
}

impl<'a> Clone for DecoratedText<'a> {
    fn clone(&self) -> (r: Self)
        ensures
            r@ == self@,
    {
        self.owned_copy()
    }
}

/// The inline elements of a line, or of a cell, an item or a paragraph, in
/// order.
#[derive(Debug, PartialEq, Eq)]
pub struct InlineElementContainer<'a> {
    pub elements: Vec<Located<InlineElement<'a>>>,
}

impl<'a> View for InlineElementContainer<'a> {
    type V = Seq<Located<InlineElementView>>;

    open spec fn view(&self) -> Seq<Located<InlineElementView>> {
        inline_views(self.elements@)
    }
}

impl<'a> InlineElementContainer<'a> {
    pub fn new(elements: Vec<Located<InlineElement<'a>>>) -> (r: InlineElementContainer<'a>)
        ensures
            r.elements == elements,
    {
        InlineElementContainer { elements }
    }

    pub fn to_borrowed<'b>(&'b self) -> (r: InlineElementContainer<'b>)
        ensures
            r@ == self@,
    {
        InlineElementContainer { elements: borrow_inlines(&self.elements) }
    }

    pub fn owned_copy(&self) -> (r: InlineElementContainer<'static>)
        ensures
            r@ == self@,
    {
        InlineElementContainer { elements: own_inlines(&self.elements) }
    }

    pub fn into_owned(self) -> (r: InlineElementContainer<'static>)
        ensures
            r@ == self@,
    {
        self.owned_copy()
    }
}

impl<'a> Clone for InlineElementContainer<'a> {
    fn clone(&self) -> (r: Self)
        ensures
            r@ == self@,
    {
        self.owned_copy()
    }
}

} // verus!
