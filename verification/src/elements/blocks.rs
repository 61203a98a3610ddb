//! Elements that stand on lines of their own.

use crate::elements::code::{
    borrow_opt_text, opt_text_view, own_opt_text, CodeBlock, CodeBlockView,
};
use crate::elements::date::Date;
use crate::elements::inline::{
    inline_views, own_inlines, InlineElement, InlineElementContainer, InlineElementView,
};
use crate::located::Located;
use crate::text::{
    borrow_text, borrow_texts, clone_text, clone_texts, own_text, own_texts, texts_view,
};
use std::borrow::Cow;
use vstd::prelude::*;

verus! {

/// Quoted lines: each began with `>`.
#[derive(Debug, PartialEq, Eq)]
pub struct Blockquote<'a> {
    pub lines: Vec<Cow<'a, str>>,
}

impl<'a> View for Blockquote<'a> {
    type V = Seq<Seq<char>>;

    open spec fn view(&self) -> Seq<Seq<char>> {
        texts_view(self.lines@)
    }
}

impl<'a> Blockquote<'a> {
    pub fn new(lines: Vec<Cow<'a, str>>) -> (r: Blockquote<'a>)
        ensures
            r.lines == lines,
    {
        Blockquote { lines }
    }

    pub fn to_borrowed<'b>(&'b self) -> (r: Blockquote<'b>)
        ensures
            r@ == self@,
    {
        Blockquote { lines: borrow_texts(&self.lines) }
    }

    pub fn owned_copy(&self) -> (r: Blockquote<'static>)
        ensures
            r@ == self@,
    {
        Blockquote { lines: own_texts(clone_texts(&self.lines)) }
    }

    pub fn into_owned(self) -> (r: Blockquote<'static>)
        ensures
            r@ == self@,
    {
        Blockquote { lines: own_texts(self.lines) }
    }
}

/// A term with its definitions.
#[derive(Debug, PartialEq, Eq)]
pub struct TermAndDefinitions<'a> {
    pub term: Cow<'a, str>,
    pub definitions: Vec<Cow<'a, str>>,
}

impl<'a> View for TermAndDefinitions<'a> {
    type V = (Seq<char>, Seq<Seq<char>>);

    open spec fn view(&self) -> (Seq<char>, Seq<Seq<char>>) {
        (self.term@, texts_view(self.definitions@))
    }
}

/// The views of a list of terms with their definitions.
pub open spec fn terms_view<'a>(v: Seq<TermAndDefinitions<'a>>) -> Seq<
    (Seq<char>, Seq<Seq<char>>),
> {
    v.map_values(|t: TermAndDefinitions<'a>| t@)
}

/// A list of terms, each with its definitions.
#[derive(Debug, PartialEq, Eq)]
pub struct DefinitionList<'a> {
    pub items: Vec<TermAndDefinitions<'a>>,
}

impl<'a> View for DefinitionList<'a> {
    type V = Seq<(Seq<char>, Seq<Seq<char>>)>;

    open spec fn view(&self) -> Seq<(Seq<char>, Seq<Seq<char>>)> {
        terms_view(self.items@)
    }
}

impl<'a> DefinitionList<'a> {
    pub fn new(items: Vec<TermAndDefinitions<'a>>) -> (r: DefinitionList<'a>)
        ensures
            r.items == items,
    {
        DefinitionList { items }
    }

    pub fn to_borrowed<'b>(&'b self) -> (r: DefinitionList<'b>)
        ensures
            r@ == self@,
    {
        let mut out: Vec<TermAndDefinitions<'b>> = Vec::new();
        let mut i: usize = 0;
        while i < self.items.len()
            invariant
                i <= self.items@.len(),
                out@.len() == i,
                forall|k: int| 0 <= k < i ==> (#[trigger] out@[k])@ == self.items@[k]@,
            decreases self.items@.len() - i,
        {
            out.push(
                TermAndDefinitions {
                    term: borrow_text(&self.items[i].term),
                    definitions: borrow_texts(&self.items[i].definitions),
                },
            );
            i += 1;
        }
        assert(terms_view(out@) =~= terms_view(self.items@));
        DefinitionList { items: out }
    }

    pub fn owned_copy(&self) -> (r: DefinitionList<'static>)
        ensures
            r@ == self@,
    {
        let mut out: Vec<TermAndDefinitions<'static>> = Vec::new();
        let mut i: usize = 0;
        while i < self.items.len()
            invariant
                i <= self.items@.len(),
                out@.len() == i,
                forall|k: int| 0 <= k < i ==> (#[trigger] out@[k])@ == self.items@[k]@,
            decreases self.items@.len() - i,
        {
            out.push(
                TermAndDefinitions {
                    term: own_text(clone_text(&self.items[i].term)),
                    definitions: own_texts(clone_texts(&self.items[i].definitions)),
                },
            );
            i += 1;
        }
        assert(terms_view(out@) =~= terms_view(self.items@));
        DefinitionList { items: out }
    }

    pub fn into_owned(self) -> (r: DefinitionList<'static>)
        ensures
            r@ == self@,
    {
        self.owned_copy()
    }
}

/// A horizontal rule: a line of four or more `-`.
#[derive(Clone, Copy, Debug, PartialEq, Eq, Hash, Structural)]
pub struct Divider {}

/// A heading: `= text =`, with one to six `=` on each side.
#[derive(Debug, PartialEq, Eq)]
pub struct Header<'a> {
    pub level: usize,
    pub text: Cow<'a, str>,
    pub centered: bool,
}

/// What a `Header` holds.
pub struct HeaderView {
    pub level: usize,
    pub text: Seq<char>,
    pub centered: bool,
}

impl<'a> View for Header<'a> {
    type V = HeaderView;

    open spec fn view(&self) -> HeaderView {
        HeaderView { level: self.level, text: self.text@, centered: self.centered }
    }
}

impl<'a> Header<'a> {
    pub fn new(level: usize, text: Cow<'a, str>, centered: bool) -> (r: Header<'a>)
        ensures
            r.level == level,
            r.text == text,
            r.centered == centered,
    {
        Header { level, text, centered }
    }

    pub fn to_borrowed<'b>(&'b self) -> (r: Header<'b>)
        ensures
            r@ == self@,
    {
        Header { level: self.level, text: borrow_text(&self.text), centered: self.centered }
    }

    pub fn owned_copy(&self) -> (r: Header<'static>)
        ensures
            r@ == self@,
    {
        Header {
            level: self.level,
            text: own_text(clone_text(&self.text)),
            centered: self.centered,
        }
    }

    pub fn into_owned(self) -> (r: Header<'static>)
        ensures
            r@ == self@,
    {
        Header { level: self.level, text: own_text(self.text), centered: self.centered }
    }
}

/// The marker that begins a list item.
#[derive(Clone, Copy, Debug, PartialEq, Eq, Hash, Structural)]
pub enum ListItemKind {
    /// `-`
    Hyphen,
    /// `*`
    Asterisk,
    /// `#`
    Pound,
    /// digits and `.`, as in `1.`
    Number,
    /// digits and `)`, as in `1)`
    Paren,
}

impl ListItemKind {
    /// Whether items of this kind are numbered.
    pub open spec fn spec_is_ordered(&self) -> bool {
        !(*self is Hyphen || *self is Asterisk)
    }

    pub fn is_ordered(&self) -> (r: bool)
        ensures
            r == self.spec_is_ordered(),
    {
        match self {
            ListItemKind::Hyphen => false,
            ListItemKind::Asterisk => false,
            _ => true,
        }
    }
}

/// One item of a list: its marker, how deep it is indented, and its content.
#[derive(Debug, PartialEq, Eq)]
pub struct ListItem<'a> {
    pub kind: ListItemKind,
    pub level: usize,
    pub content: InlineElementContainer<'a>,
}

/// What a `ListItem` holds.
pub struct ListItemView {
    pub kind: ListItemKind,
    pub level: usize,
    pub content: Seq<Located<InlineElementView>>,
}

impl<'a> View for ListItem<'a> {
    type V = ListItemView;

    open spec fn view(&self) -> ListItemView {
        ListItemView { kind: self.kind, level: self.level, content: self.content@ }
    }
}

/// The views of a list of items.
pub open spec fn items_view<'a>(v: Seq<ListItem<'a>>) -> Seq<ListItemView> {
    v.map_values(|t: ListItem<'a>| t@)
}

/// A list: items on consecutive lines. An item deeper indented than the one
/// before it belongs to a list nested in that one.
#[derive(Debug, PartialEq, Eq)]
pub struct List<'a> {
    pub items: Vec<ListItem<'a>>,
}

impl<'a> View for List<'a> {
    type V = Seq<ListItemView>;

    open spec fn view(&self) -> Seq<ListItemView> {
        items_view(self.items@)
    }
}

impl<'a> List<'a> {
    pub fn new(items: Vec<ListItem<'a>>) -> (r: List<'a>)
        ensures
            r.items == items,
    {
        List { items }
    }

    pub fn to_borrowed<'b>(&'b self) -> (r: List<'b>)
        ensures
            r@ == self@,
    {
        let mut out: Vec<ListItem<'b>> = Vec::new();
        let mut i: usize = 0;
        while i < self.items.len()
            invariant
                i <= self.items@.len(),
                out@.len() == i,
                forall|k: int| 0 <= k < i ==> (#[trigger] out@[k])@ == self.items@[k]@,
            decreases self.items@.len() - i,
        {
            out.push(
                ListItem {
                    kind: self.items[i].kind,
                    level: self.items[i].level,
                    content: self.items[i].content.to_borrowed(),
                },
            );
            i += 1;
        }
        assert(items_view(out@) =~= items_view(self.items@));
        List { items: out }
    }

    pub fn owned_copy(&self) -> (r: List<'static>)
        ensures
            r@ == self@,
    {
        let mut out: Vec<ListItem<'static>> = Vec::new();
        let mut i: usize = 0;
        while i < self.items.len()
            invariant
                i <= self.items@.len(),
                out@.len() == i,
                forall|k: int| 0 <= k < i ==> (#[trigger] out@[k])@ == self.items@[k]@,
            decreases self.items@.len() - i,
        {
            out.push(
                ListItem {
                    kind: self.items[i].kind,
                    level: self.items[i].level,
                    content: self.items[i].content.owned_copy(),
                },
            );
            i += 1;
        }
        assert(items_view(out@) =~= items_view(self.items@));
        List { items: out }
    }

    pub fn into_owned(self) -> (r: List<'static>)
        ensures
            r@ == self@,
    {
        self.owned_copy()
    }
}

/// A block of formulas: the lines between `{{$` and `}}$`, with the
/// environment named on the opening line, if any.
#[derive(Debug, PartialEq, Eq)]
pub struct MathBlock<'a> {
    pub lines: Vec<Cow<'a, str>>,
    pub environment: Option<Cow<'a, str>>,
}

/// What a `MathBlock` holds.
pub struct MathBlockView {
    pub lines: Seq<Seq<char>>,
    pub environment: Option<Seq<char>>,
}

impl<'a> View for MathBlock<'a> {
    type V = MathBlockView;

    open spec fn view(&self) -> MathBlockView {
        MathBlockView {
            lines: texts_view(self.lines@),
            environment: opt_text_view(self.environment),
        }
    }
}

impl<'a> MathBlock<'a> {
    pub fn new(lines: Vec<Cow<'a, str>>, environment: Option<Cow<'a, str>>) -> (r: MathBlock<
        'a,
    >)
        ensures
            r.lines == lines,
            r.environment == environment,
    {
        MathBlock { lines, environment }
    }

    pub fn to_borrowed<'b>(&'b self) -> (r: MathBlock<'b>)
        ensures
            r@ == self@,
    {
        MathBlock {
            lines: borrow_texts(&self.lines),
            environment: borrow_opt_text(&self.environment),
        }
    }

    pub fn owned_copy(&self) -> (r: MathBlock<'static>)
        ensures
            r@ == self@,
    {
        MathBlock {
            lines: own_texts(clone_texts(&self.lines)),
            environment: own_opt_text(&self.environment),
        }
    }

    pub fn into_owned(self) -> (r: MathBlock<'static>)
        ensures
            r@ == self@,
    {
        self.owned_copy()
    }
}

/// A paragraph: the inline content of its lines, in order.
#[derive(Debug, PartialEq, Eq)]
pub struct Paragraph<'a> {
    pub content: InlineElementContainer<'a>,
}

impl<'a> View for Paragraph<'a> {
    type V = Seq<Located<InlineElementView>>;

    open spec fn view(&self) -> Seq<Located<InlineElementView>> {
        self.content@
    }
}

impl<'a> Paragraph<'a> {
    pub fn new(content: InlineElementContainer<'a>) -> (r: Paragraph<'a>)
        ensures
            r.content == content,
    {
        Paragraph { content }
    }

    pub fn to_borrowed<'b>(&'b self) -> (r: Paragraph<'b>)
        ensures
            r@ == self@,
    {
        Paragraph { content: self.content.to_borrowed() }
    }

    pub fn owned_copy(&self) -> (r: Paragraph<'static>)
        ensures
            r@ == self@,
    {
        Paragraph { content: self.content.owned_copy() }
    }

    pub fn into_owned(self) -> (r: Paragraph<'static>)
        ensures
            r@ == self@,
    {
        self.owned_copy()
    }
}

/// A line that sets a property of the page: `%title text`, `%nohtml`,
/// `%template name`, `%date 2012-03-05`, or `%name value`.
#[derive(Debug, PartialEq, Eq)]
pub enum Placeholder<'a> {
    Title(Cow<'a, str>),
    NoHtml,
    Template(Cow<'a, str>),
    Date(Date),
    Other { name: Cow<'a, str>, value: Cow<'a, str> },
}

/// What a `Placeholder` holds.
pub enum PlaceholderView {
    Title(Seq<char>),
    NoHtml,
    Template(Seq<char>),
    Date(Date),
    Other { name: Seq<char>, value: Seq<char> },
}

impl<'a> View for Placeholder<'a> {
    type V = PlaceholderView;

    open spec fn view(&self) -> PlaceholderView {
        match self {
            Placeholder::Title(t) => PlaceholderView::Title(t@),
            Placeholder::NoHtml => PlaceholderView::NoHtml,
            Placeholder::Template(t) => PlaceholderView::Template(t@),
            Placeholder::Date(d) => PlaceholderView::Date(*d),
            Placeholder::Other { name, value } => PlaceholderView::Other {
                name: name@,
                value: value@,
            },
        }
    }
}

impl<'a> Placeholder<'a> {
    pub fn to_borrowed<'b>(&'b self) -> (r: Placeholder<'b>)
        ensures
            r@ == self@,
    {
        match self {
            Placeholder::Title(t) => Placeholder::Title(borrow_text(t)),
            Placeholder::NoHtml => Placeholder::NoHtml,
            Placeholder::Template(t) => Placeholder::Template(borrow_text(t)),
            Placeholder::Date(d) => Placeholder::Date(*d),
            Placeholder::Other { name, value } => Placeholder::Other {
                name: borrow_text(name),
                value: borrow_text(value),
            },
        }
    }

    pub fn owned_copy(&self) -> (r: Placeholder<'static>)
        ensures
            r@ == self@,
    {
        match self {
            Placeholder::Title(t) => Placeholder::Title(own_text(clone_text(t))),
            Placeholder::NoHtml => Placeholder::NoHtml,
            Placeholder::Template(t) => Placeholder::Template(own_text(clone_text(t))),
            Placeholder::Date(d) => Placeholder::Date(*d),
            Placeholder::Other { name, value } => Placeholder::Other {
                name: own_text(clone_text(name)),
                value: own_text(clone_text(value)),
            },
        }
    }

    pub fn into_owned(self) -> (r: Placeholder<'static>)
        ensures
            r@ == self@,
    {
        self.owned_copy()
    }
}

/// A cell of a table.
#[derive(Debug, PartialEq, Eq)]
pub enum Cell<'a> {
    Content(InlineElementContainer<'a>),
    /// `>`: the cell belongs to the one on its left.
    SpanLeft,
    /// `\/`: the cell belongs to the one above it.
    SpanAbove,
}

/// What a `Cell` holds.
pub enum CellView {
    Content(Seq<Located<InlineElementView>>),
    SpanLeft,
    SpanAbove,
}

impl<'a> View for Cell<'a> {
    type V = CellView;

    open spec fn view(&self) -> CellView {
        match self {
            Cell::Content(c) => CellView::Content(c@),
            Cell::SpanLeft => CellView::SpanLeft,
            Cell::SpanAbove => CellView::SpanAbove,
        }
    }
}

/// The views of a list of cells.
pub open spec fn cells_view<'a>(v: Seq<Cell<'a>>) -> Seq<CellView> {
    v.map_values(|t: Cell<'a>| t@)
}

impl<'a> Cell<'a> {
    pub fn to_borrowed<'b>(&'b self) -> (r: Cell<'b>)
        ensures
            r@ == self@,
    {
        match self {
            Cell::Content(c) => Cell::Content(c.to_borrowed()),
            Cell::SpanLeft => Cell::SpanLeft,
            Cell::SpanAbove => Cell::SpanAbove,
        }
    }

    pub fn owned_copy(&self) -> (r: Cell<'static>)
        ensures
            r@ == self@,
    {
        match self {
            Cell::Content(c) => Cell::Content(c.owned_copy()),
            Cell::SpanLeft => Cell::SpanLeft,
            Cell::SpanAbove => Cell::SpanAbove,
        }
    }
}

/// A row of a table: cells, or the line that parts the header from the
/// body.
#[derive(Debug, PartialEq, Eq)]
pub enum Row<'a> {
    Content { cells: Vec<Cell<'a>> },
    Divider,
}

/// What a `Row` holds.
pub enum RowView {
    Content { cells: Seq<CellView> },
    Divider,
}

impl<'a> View for Row<'a> {
    type V = RowView;

    open spec fn view(&self) -> RowView {
        match self {
            Row::Content { cells } => RowView::Content { cells: cells_view(cells@) },
            Row::Divider => RowView::Divider,
        }
    }
}

/// The views of a list of rows.
pub open spec fn rows_view<'a>(v: Seq<Row<'a>>) -> Seq<RowView> {
    v.map_values(|t: Row<'a>| t@)
}

impl<'a> Row<'a> {
    pub fn to_borrowed<'b>(&'b self) -> (r: Row<'b>)
        ensures
            r@ == self@,
    {
        match self {
            Row::Content { cells } => {
                let mut out: Vec<Cell<'b>> = Vec::new();
                let mut i: usize = 0;
                while i < cells.len()
                    invariant
                        i <= cells@.len(),
                        out@.len() == i,
                        forall|k: int| 0 <= k < i ==> (#[trigger] out@[k])@ == cells@[k]@,
                    decreases cells@.len() - i,
                {
                    out.push(cells[i].to_borrowed());
                    i += 1;
                }
                assert(cells_view(out@) =~= cells_view(cells@));
                Row::Content { cells: out }
            },
            Row::Divider => Row::Divider,
        }
    }

    pub fn owned_copy(&self) -> (r: Row<'static>)
        ensures
            r@ == self@,
    {
        match self {
            Row::Content { cells } => {
                let mut out: Vec<Cell<'static>> = Vec::new();
                let mut i: usize = 0;
                while i < cells.len()
                    invariant
                        i <= cells@.len(),
                        out@.len() == i,
                        forall|k: int| 0 <= k < i ==> (#[trigger] out@[k])@ == cells@[k]@,
                    decreases cells@.len() - i,
                {
                    out.push(cells[i].owned_copy());
                    i += 1;
                }
                assert(cells_view(out@) =~= cells_view(cells@));
                Row::Content { cells: out }
            },
            Row::Divider => Row::Divider,
        }
    }
}

/// A table: rows of cells.
#[derive(Debug, PartialEq, Eq)]
pub struct Table<'a> {
    pub rows: Vec<Row<'a>>,
    pub centered: bool,
}

/// What a `Table` holds.
pub struct TableView {
    pub rows: Seq<RowView>,
    pub centered: bool,
}

impl<'a> View for Table<'a> {
    type V = TableView;

    open spec fn view(&self) -> TableView {
        TableView { rows: rows_view(self.rows@), centered: self.centered }
    }
}

impl<'a> Table<'a> {
    pub fn new(rows: Vec<Row<'a>>, centered: bool) -> (r: Table<'a>)
        ensures
            r.rows == rows,
            r.centered == centered,
    {
        Table { rows, centered }
    }

    pub fn to_borrowed<'b>(&'b self) -> (r: Table<'b>)
        ensures
            r@ == self@,
    {
        let mut out: Vec<Row<'b>> = Vec::new();
        let mut i: usize = 0;
        while i < self.rows.len()
            invariant
                i <= self.rows@.len(),
                out@.len() == i,
                forall|k: int| 0 <= k < i ==> (#[trigger] out@[k])@ == self.rows@[k]@,
            decreases self.rows@.len() - i,
        {
            out.push(self.rows[i].to_borrowed());
            i += 1;
        }
        assert(rows_view(out@) =~= rows_view(self.rows@));
        Table { rows: out, centered: self.centered }
    }

    pub fn owned_copy(&self) -> (r: Table<'static>)
        ensures
            r@ == self@,
    {
        let mut out: Vec<Row<'static>> = Vec::new();
        let mut i: usize = 0;
        while i < self.rows.len()
            invariant
                i <= self.rows@.len(),
                out@.len() == i,
                forall|k: int| 0 <= k < i ==> (#[trigger] out@[k])@ == self.rows@[k]@,
            decreases self.rows@.len() - i,
        {
            out.push(self.rows[i].owned_copy());
            i += 1;
        }
        assert(rows_view(out@) =~= rows_view(self.rows@));
        Table { rows: out, centered: self.centered }
    }

    pub fn into_owned(self) -> (r: Table<'static>)
        ensures
            r@ == self@,
    {
        self.owned_copy()
    }
}

/// An element that stands on lines of its own.
#[derive(Debug, PartialEq, Eq)]
pub enum BlockElement<'a> {
    BlankLine,
    Blockquote(Blockquote<'a>),
    DefinitionList(DefinitionList<'a>),
    Divider(Divider),
    Header(Header<'a>),
    List(List<'a>),
    Math(MathBlock<'a>),
    NonBlankLine(Cow<'a, str>),
    Paragraph(Paragraph<'a>),
    Placeholder(Placeholder<'a>),
    CodeBlock(CodeBlock<'a>),
    Table(Table<'a>),
}

/// What a `BlockElement` holds.
pub enum BlockElementView {
    BlankLine,
    Blockquote(Seq<Seq<char>>),
    DefinitionList(Seq<(Seq<char>, Seq<Seq<char>>)>),
    Divider,
    Header(HeaderView),
    List(Seq<ListItemView>),
    Math(MathBlockView),
    NonBlankLine(Seq<char>),
    Paragraph(Seq<Located<InlineElementView>>),
    Placeholder(PlaceholderView),
    CodeBlock(CodeBlockView),
    Table(TableView),
}

impl<'a> View for BlockElement<'a> {
    type V = BlockElementView;

    open spec fn view(&self) -> BlockElementView {
        match self {
            BlockElement::BlankLine => BlockElementView::BlankLine,
            BlockElement::Blockquote(x) => BlockElementView::Blockquote(x@),
            BlockElement::DefinitionList(x) => BlockElementView::DefinitionList(x@),
            BlockElement::Divider(_) => BlockElementView::Divider,
            BlockElement::Header(x) => BlockElementView::Header(x@),
            BlockElement::List(x) => BlockElementView::List(x@),
            BlockElement::Math(x) => BlockElementView::Math(x@),
            BlockElement::NonBlankLine(x) => BlockElementView::NonBlankLine(x@),
            BlockElement::Paragraph(x) => BlockElementView::Paragraph(x@),
            BlockElement::Placeholder(x) => BlockElementView::Placeholder(x@),
            BlockElement::CodeBlock(x) => BlockElementView::CodeBlock(x@),
            BlockElement::Table(x) => BlockElementView::Table(x@),
        }
    }
}

/// All sequences of `vs` joined, in order.
pub open spec fn concat_all<T>(vs: Seq<Seq<T>>) -> Seq<T>
    decreases vs.len(),
{
    if vs.len() == 0 {
        Seq::empty()
    } else {
        concat_all(vs.drop_last()) + vs.last()
    }
}

/// The inline content of a cell: empty for a cell that only spans.
pub open spec fn cell_content(c: CellView) -> Seq<Located<InlineElementView>> {
    match c {
        CellView::Content(x) => x,
        _ => Seq::empty(),
    }
}

/// The inline content of a row, cell by cell.
pub open spec fn row_content(r: RowView) -> Seq<Located<InlineElementView>> {
    match r {
        RowView::Content { cells } => concat_all(cells.map_values(|c: CellView| cell_content(c))),
        RowView::Divider => Seq::empty(),
    }
}

impl BlockElementView {
    /// The inline elements directly inside the block, in source order: the
    /// content of a paragraph, of the items of a list, of the cells of a
    /// table. Other blocks hold none.
    pub open spec fn children(&self) -> Seq<Located<InlineElementView>> {
        match self {
            BlockElementView::Paragraph(c) => *c,
            BlockElementView::List(items) => concat_all(
                items.map_values(|i: ListItemView| i.content),
            ),
            BlockElementView::Table(t) => concat_all(
                t.rows.map_values(|r: RowView| row_content(r)),
            ),
            _ => Seq::empty(),
        }
    }
}

/// Adds owned copies of the elements of `c` to `out`.
fn push_inlines<'a>(
    out: &mut Vec<Located<InlineElement<'static>>>,
    c: &InlineElementContainer<'a>,
)
    ensures
        inline_views(final(out)@) == inline_views(old(out)@) + c@,
{
    let mut more = own_inlines(&c.elements);
    let ghost before = out@;
    let ghost added = more@;
    out.append(&mut more);
    assert(inline_views(out@) =~= inline_views(before) + inline_views(added));
}

impl<'a> BlockElement<'a> {
    pub fn to_borrowed<'b>(&'b self) -> (r: BlockElement<'b>)
        ensures
            r@ == self@,
    {
        match self {
            BlockElement::BlankLine => BlockElement::BlankLine,
            BlockElement::Blockquote(x) => BlockElement::Blockquote(x.to_borrowed()),
            BlockElement::DefinitionList(x) => BlockElement::DefinitionList(x.to_borrowed()),
            BlockElement::Divider(x) => BlockElement::Divider(*x),
            BlockElement::Header(x) => BlockElement::Header(x.to_borrowed()),
            BlockElement::List(x) => BlockElement::List(x.to_borrowed()),
            BlockElement::Math(x) => BlockElement::Math(x.to_borrowed()),
            BlockElement::NonBlankLine(x) => BlockElement::NonBlankLine(borrow_text(x)),
            BlockElement::Paragraph(x) => BlockElement::Paragraph(x.to_borrowed()),
            BlockElement::Placeholder(x) => BlockElement::Placeholder(x.to_borrowed()),
            BlockElement::CodeBlock(x) => BlockElement::CodeBlock(x.to_borrowed()),
            BlockElement::Table(x) => BlockElement::Table(x.to_borrowed()),
        }
    }

    pub fn owned_copy(&self) -> (r: BlockElement<'static>)
        ensures
            r@ == self@,
    {
        match self {
            BlockElement::BlankLine => BlockElement::BlankLine,
            BlockElement::Blockquote(x) => BlockElement::Blockquote(x.owned_copy()),
            BlockElement::DefinitionList(x) => BlockElement::DefinitionList(x.owned_copy()),
            BlockElement::Divider(x) => BlockElement::Divider(*x),
            BlockElement::Header(x) => BlockElement::Header(x.owned_copy()),
            BlockElement::List(x) => BlockElement::List(x.owned_copy()),
            BlockElement::Math(x) => BlockElement::Math(x.owned_copy()),
            BlockElement::NonBlankLine(x) => BlockElement::NonBlankLine(own_text(clone_text(x))),
            BlockElement::Paragraph(x) => BlockElement::Paragraph(x.owned_copy()),
            BlockElement::Placeholder(x) => BlockElement::Placeholder(x.owned_copy()),
            BlockElement::CodeBlock(x) => BlockElement::CodeBlock(x.owned_copy()),
            BlockElement::Table(x) => BlockElement::Table(x.owned_copy()),
        }
    }

    pub fn into_owned(self) -> (r: BlockElement<'static>)
        ensures
            r@ == self@,
    {
        self.owned_copy()
    }

    /// Copies of the inline elements directly inside the block, in source
    /// order.
    pub fn children(&self) -> (r: Vec<Located<InlineElement<'static>>>)
        ensures
            inline_views(r@) == self@.children(),
    {
        let mut out: Vec<Located<InlineElement<'static>>> = Vec::new();
        assert(inline_views(out@) =~= Seq::empty());
        match self {
            BlockElement::Paragraph(p) => {
                push_inlines(&mut out, &p.content);
                assert(inline_views(out@) =~= p.content@);
            },
            BlockElement::List(l) => {
                let ghost parts = l@.map_values(|i: ListItemView| i.content);
                let mut i: usize = 0;
                assert(parts.take(0) =~= Seq::empty());
                while i < l.items.len()
                    invariant
                        i <= l.items@.len(),
                        parts == l@.map_values(|i: ListItemView| i.content),
                        inline_views(out@) == concat_all(parts.take(i as int)),
                    decreases l.items@.len() - i,
                {
                    proof {
                        assert(parts.take(i + 1).drop_last() =~= parts.take(i as int));
                        assert(parts.take(i + 1).last() == l.items@[i as int].content@);
                    }
                    push_inlines(&mut out, &l.items[i].content);
                    i += 1;
                }
                assert(parts.take(parts.len() as int) =~= parts);
            },
            BlockElement::Table(t) => {
                let ghost parts = t@.rows.map_values(|r: RowView| row_content(r));
                let mut i: usize = 0;
                assert(parts.take(0) =~= Seq::empty());
                while i < t.rows.len()
                    invariant
                        i <= t.rows@.len(),
                        parts == t@.rows.map_values(|r: RowView| row_content(r)),
                        inline_views(out@) == concat_all(parts.take(i as int)),
                    decreases t.rows@.len() - i,
                {
                    let ghost before = inline_views(out@);
                    proof {
                        assert(parts.take(i + 1).drop_last() =~= parts.take(i as int));
                        assert(parts.take(i + 1).last() == row_content(t.rows@[i as int]@));
                    }
                    match &t.rows[i] {
                        Row::Content { cells } => {
                            let ghost cparts = cells_view(cells@).map_values(
                                |c: CellView| cell_content(c),
                            );
                            let mut j: usize = 0;
                            assert(cparts.take(0) =~= Seq::empty());
                            while j < cells.len()
                                invariant
                                    j <= cells@.len(),
                                    cparts == cells_view(cells@).map_values(
                                        |c: CellView| cell_content(c),
                                    ),
                                    inline_views(out@) == before + concat_all(
                                        cparts.take(j as int),
                                    ),
                                decreases cells@.len() - j,
                            {
                                proof {
                                    assert(cparts.take(j + 1).drop_last() =~= cparts.take(
                                        j as int,
                                    ));
                                    assert(cparts.take(j + 1).last() == cell_content(
                                        cells@[j as int]@,
                                    ));
                                }
                                let ghost sofar = concat_all(cparts.take(j as int));
                                match &cells[j] {
                                    Cell::Content(c) => {
                                        push_inlines(&mut out, c);
                                        assert(inline_views(out@) =~= before + (sofar + c@));
                                    },
                                    _ => {
                                        assert(inline_views(out@) =~= before + (sofar
                                            + Seq::empty()));
                                    },
                                }
                                j += 1;
                            }
                            assert(cparts.take(cparts.len() as int) =~= cparts);
                        },
                        Row::Divider => {
                            assert(inline_views(out@) =~= before + Seq::empty());
                        },
                    }
                    i += 1;
                }
                assert(parts.take(parts.len() as int) =~= parts);
            },
            _ => {},
        }
        out
    }
}

} // verus!
